use queue_admission::clock::Clock;
use queue_admission::outcome::{Outcome, StatusCode};
use queue_admission::request::{DecodedCommand, Dialect};
use queue_admission::worker::{Action, Event, Phase, Worker};

fn accepted_at(dialect: Dialect, receipt_time: u64) -> Worker {
    Worker::accept(dialect, &Clock::new(receipt_time))
}

fn received(raw: &[u8], now: u64) -> Event {
    Event::Received { raw: raw.to_vec(), now }
}

fn sending(outcome: &Outcome) -> Phase {
    Phase::Sending { outcome: outcome.clone() }
}

#[test]
fn a_new_worker_waits_for_its_request() {
    let worker = accepted_at(Dialect::TextLine, 1500);
    assert_eq!(
        worker,
        Worker { dialect: Dialect::TextLine, receipt_time: 1500, phase: Phase::Reading }
    );
    assert!(!worker.is_closed());
}

#[test]
fn a_request_without_wait_takes_its_latency() {
    let worker = accepted_at(Dialect::TextLine, 1000);
    let (worker, action) = worker.step(received(b"0,100,/a.txt", 1000));
    assert_eq!(action, Action::Simulate { latency_ms: 100 });
    assert_eq!(
        worker.phase,
        Phase::Executing {
            queue_wait_ms: 0,
            command: DecodedCommand {
                requested_status: 0,
                simulated_latency_ms: 100,
                resource_token: b"/a.txt".to_vec(),
            },
        }
    );
    let (worker, action) = worker.step(Event::WorkDone);
    assert_eq!(action, Action::Send { reply: b"0,100,/a.txt".to_vec() });
    assert_eq!(
        worker.phase,
        sending(&Outcome {
            status_code: StatusCode::Success { requested_status: 0 },
            total_elapsed_ms: 100,
            resource_token: b"/a.txt".to_vec(),
        })
    );
    let (worker, action) = worker.step(Event::Sent);
    assert_eq!(action, Action::Close);
    assert!(worker.is_closed());
}

#[test]
fn a_request_after_five_seconds_times_out() {
    let worker = accepted_at(Dialect::TextLine, 1000);
    let (worker, action) = worker.step(received(b"0,100,/a.txt", 6000));
    assert_eq!(action, Action::Send { reply: b"1,5000,".to_vec() });
    assert_eq!(
        worker.phase,
        sending(&Outcome {
            status_code: StatusCode::QueueTimeout,
            total_elapsed_ms: 5000,
            resource_token: Vec::new(),
        })
    );
    let (worker, action) = worker.step(Event::Sent);
    assert_eq!(action, Action::Close);
    assert!(worker.is_closed());
}

#[test]
fn a_request_with_a_status_that_is_no_number_is_bad() {
    let worker = accepted_at(Dialect::TextLine, 1000);
    let (worker, action) = worker.step(received(b"abc,100,/a.txt", 1250));
    assert_eq!(action, Action::Send { reply: b"2,250,".to_vec() });
    assert_eq!(
        worker.phase,
        sending(&Outcome {
            status_code: StatusCode::BadRequest,
            total_elapsed_ms: 250,
            resource_token: Vec::new(),
        })
    );
}

#[test]
fn the_wait_is_added_to_the_latency() {
    let worker = accepted_at(Dialect::TextLine, 1000);
    let (worker, action) = worker.step(received(b"5,100,/a.txt", 4999));
    assert_eq!(action, Action::Simulate { latency_ms: 100 });
    let (worker, action) = worker.step(Event::WorkDone);
    assert_eq!(action, Action::Send { reply: b"0,4099,/a.txt".to_vec() });
    match worker.phase {
        Phase::Sending { outcome } => {
            assert_eq!(outcome.status_code, StatusCode::Success { requested_status: 5 });
            assert_eq!(outcome.total_elapsed_ms, 4099);
        }
        other => panic!("not sending: {:?}", other),
    }
}

#[test]
fn a_wait_of_four_seconds_is_refused() {
    let worker = accepted_at(Dialect::TextLine, 1000);
    let (_, action) = worker.step(received(b"5,100,/a.txt", 5000));
    assert_eq!(action, Action::Send { reply: b"1,4000,".to_vec() });
}

#[test]
fn a_late_request_is_refused_even_if_it_is_malformed() {
    let worker = accepted_at(Dialect::TextLine, 0);
    let (worker, action) = worker.step(received(b"abc,100,/a.txt", 5000));
    assert_eq!(action, Action::Send { reply: b"1,5000,".to_vec() });
    assert_eq!(worker.phase, sending(&Outcome::queue_timeout(5000)));
}

#[test]
fn a_blank_request_gets_no_reply() {
    let worker = accepted_at(Dialect::TextLine, 0);
    let (worker, action) = worker.step(received(b" \r\n", 10));
    assert_eq!(action, Action::Close);
    assert!(worker.is_closed());
    let worker = accepted_at(Dialect::Http, 0);
    let (worker, action) = worker.step(received(b"", 9000));
    assert_eq!(action, Action::Close);
    assert!(worker.is_closed());
}

#[test]
fn a_peer_that_closes_gets_no_reply() {
    let (worker, action) = accepted_at(Dialect::TextLine, 0).step(Event::PeerClosed);
    assert_eq!(action, Action::Close);
    assert_eq!(worker.phase, Phase::Closed);
}

#[test]
fn a_failure_closes_the_connection() {
    let (worker, action) = accepted_at(Dialect::TextLine, 0).step(Event::Failed);
    assert_eq!(action, Action::Close);
    assert!(worker.is_closed());
    let (worker, _) = accepted_at(Dialect::TextLine, 0).step(received(b"0,1,x", 0));
    let (worker, action) = worker.step(Event::Failed);
    assert_eq!(action, Action::Close);
    assert!(worker.is_closed());
    let (worker, _) = accepted_at(Dialect::TextLine, 0).step(received(b"0,1,x", 0));
    let (worker, _) = worker.step(Event::WorkDone);
    let (worker, action) = worker.step(Event::Failed);
    assert_eq!(action, Action::Close);
    assert!(worker.is_closed());
}

#[test]
fn an_event_out_of_turn_closes_the_connection() {
    let (worker, action) = accepted_at(Dialect::TextLine, 0).step(Event::WorkDone);
    assert_eq!(action, Action::Close);
    assert!(worker.is_closed());
    let (worker, _) = accepted_at(Dialect::TextLine, 0).step(received(b"0,1,x", 0));
    let (worker, action) = worker.step(received(b"0,1,x", 0));
    assert_eq!(action, Action::Close);
    assert!(worker.is_closed());
}

#[test]
fn a_closed_worker_stays_closed() {
    let (worker, _) = accepted_at(Dialect::Http, 77).step(Event::PeerClosed);
    let (worker, action) = worker.step(received(b"GET /200,1,x HTTP/1.1", 78));
    assert_eq!(action, Action::Nothing);
    assert_eq!(worker, Worker { dialect: Dialect::Http, receipt_time: 77, phase: Phase::Closed });
    let (worker, action) = worker.step(Event::Sent);
    assert_eq!(action, Action::Nothing);
    assert!(worker.is_closed());
}

#[test]
fn any_three_events_close_a_worker() {
    let events = [
        received(b"0,1,x", 0),
        received(b"", 0),
        received(b"0,1,x", 9999),
        Event::PeerClosed,
        Event::WorkDone,
        Event::Sent,
        Event::Failed,
    ];
    for first in events.iter() {
        for second in events.iter() {
            for third in events.iter() {
                let worker = accepted_at(Dialect::TextLine, 0);
                let mut closings = 0;
                let mut simulations = 0;
                let mut state = worker;
                for event in [first, second, third] {
                    let (next, action) = state.step(event.clone());
                    match action {
                        Action::Close => closings += 1,
                        Action::Simulate { .. } => simulations += 1,
                        _ => {}
                    }
                    state = next;
                }
                assert!(state.is_closed());
                assert_eq!(closings, 1);
                assert!(simulations <= 1);
            }
        }
    }
}

#[test]
fn a_reading_before_the_receipt_counts_as_no_wait() {
    let worker = accepted_at(Dialect::TextLine, 1000);
    let (worker, action) = worker.step(received(b"0,100,/a.txt", 400));
    assert_eq!(action, Action::Simulate { latency_ms: 100 });
    let (_, action) = worker.step(Event::WorkDone);
    assert_eq!(action, Action::Send { reply: b"0,100,/a.txt".to_vec() });
}

#[test]
fn an_http_request_is_served() {
    let worker = accepted_at(Dialect::Http, 10);
    let (worker, action) = worker.step(received(b"GET /200,100,/a.txt HTTP/1.1\r\n\r\n", 10));
    assert_eq!(action, Action::Simulate { latency_ms: 100 });
    let (worker, action) = worker.step(Event::WorkDone);
    let expected: &[u8] = b"HTTP/1.1 200 OK\n Server: http-threads-server.rs\n Content-Length: 10\n Connection: close\n \n100,/a.txt";
    assert_eq!(action, Action::Send { reply: expected.to_vec() });
    let (worker, action) = worker.step(Event::Sent);
    assert_eq!(action, Action::Close);
    assert!(worker.is_closed());
}

#[test]
fn an_http_request_that_is_late_times_out() {
    let worker = accepted_at(Dialect::Http, 10);
    let (_, action) = worker.step(received(b"GET /200,100,/a.txt HTTP/1.1\r\n\r\n", 5010));
    let expected: &[u8] = b"HTTP/1.1 408 TIMEOUT\n Server: http-threads-server.rs\n Content-Length: 5\n Connection: close\n \n5000,";
    assert_eq!(action, Action::Send { reply: expected.to_vec() });
}

#[test]
fn an_http_request_that_is_malformed_is_bad() {
    let worker = accepted_at(Dialect::Http, 10);
    let (_, action) = worker.step(received(b"GET /abc,100,/a.txt HTTP/1.1\r\n\r\n", 11));
    let expected: &[u8] = b"HTTP/1.1 400 BAD REQUEST\n Server: http-threads-server.rs\n Content-Length: 2\n Connection: close\n \n1,";
    assert_eq!(action, Action::Send { reply: expected.to_vec() });
    let worker = accepted_at(Dialect::Http, 10);
    let (_, action) = worker.step(received(b"GET /0,100,/a.txt HTTP/1.1\r\n\r\n", 10));
    let expected: &[u8] = b"HTTP/1.1 400 BAD REQUEST\n Server: http-threads-server.rs\n Content-Length: 2\n Connection: close\n \n0,";
    assert_eq!(action, Action::Send { reply: expected.to_vec() });
}

#[test]
fn workers_do_not_touch_each_other() {
    let slow = accepted_at(Dialect::TextLine, 0);
    let fast = accepted_at(Dialect::TextLine, 0);
    let (slow, slow_action) = slow.step(received(b"0,3000,/slow", 0));
    let (fast, fast_action) = fast.step(received(b"0,1,/fast", 0));
    assert_eq!(slow_action, Action::Simulate { latency_ms: 3000 });
    assert_eq!(fast_action, Action::Simulate { latency_ms: 1 });
    let (_, fast_action) = fast.step(Event::WorkDone);
    assert_eq!(fast_action, Action::Send { reply: b"0,1,/fast".to_vec() });
    let (_, slow_action) = slow.step(Event::WorkDone);
    assert_eq!(slow_action, Action::Send { reply: b"0,3000,/slow".to_vec() });
}
