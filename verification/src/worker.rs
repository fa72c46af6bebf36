//! The connection worker: what is done for one connection, from the moment it
//! is accepted until it is closed.
//!
//! The worker decides; it neither reads nor sleeps nor writes. Whoever runs it
//! performs the action that a step asks for and reports what came of it as the
//! next event. Workers share nothing: a step depends on the worker and the
//! event alone.

use crate::admission::{exceeds_queue_timeout, queue_wait_ms, timed_out};
use crate::clock::{current_time_millis, Clock};
use crate::fields::{blank, is_blank};
use crate::outcome::{refused, served, Outcome, OutcomeView, StatusCode};
use crate::decimal::{decimal_digits, numeral_value};
use crate::fields::{free_of, split};
use crate::request::{
    command_line, decode, decode_spec, lemma_blank_is_malformed, lemma_command_line_decodes,
    Command, DecodedCommand, Dialect, COMMA,
};
use crate::response::{encode, lemma_text_reply_reads_back, reply_spec};
use vstd::prelude::*;

verus! {

/// Where a worker stands between two pieces of outside work.
#[derive(Clone, PartialEq, Eq, Debug)]
pub enum Phase {
    /// Waiting for the request to arrive.
    Reading,
    /// The request was admitted; waiting for the simulated work to end.
    Executing { queue_wait_ms: u64, command: DecodedCommand },
    /// The outcome is settled; waiting for the reply to be written.
    Sending { outcome: Outcome },
    /// The connection is released. Nothing follows.
    Closed,
}

/// What a phase holds.
pub enum PhaseView {
    Reading,
    Executing { queue_wait_ms: u64, command: Command },
    Sending { outcome: OutcomeView },
    Closed,
}

impl View for Phase {
    type V = PhaseView;

    open spec fn view(&self) -> PhaseView {
        match *self {
            Phase::Reading => PhaseView::Reading,
            Phase::Executing { queue_wait_ms, command } => PhaseView::Executing {
                queue_wait_ms,
                command: command@,
            },
            Phase::Sending { outcome } => PhaseView::Sending { outcome: outcome@ },
            Phase::Closed => PhaseView::Closed,
        }
    }
}

/// What the outside work came to.
#[derive(Clone, PartialEq, Eq, Debug)]
pub enum Event {
    /// Bytes arrived; `now` is the clock's reading as processing begins.
    Received { raw: Vec<u8>, now: u64 },
    /// The peer closed the connection before it sent anything.
    PeerClosed,
    /// The simulated work has ended.
    WorkDone,
    /// The reply was written.
    Sent,
    /// Reading or writing failed.
    Failed,
}

/// What an event holds.
pub enum EventView {
    Received { raw: Seq<u8>, now: u64 },
    PeerClosed,
    WorkDone,
    Sent,
    Failed,
}

impl View for Event {
    type V = EventView;

    open spec fn view(&self) -> EventView {
        match *self {
            Event::Received { raw, now } => EventView::Received { raw: raw@, now },
            Event::PeerClosed => EventView::PeerClosed,
            Event::WorkDone => EventView::WorkDone,
            Event::Sent => EventView::Sent,
            Event::Failed => EventView::Failed,
        }
    }
}

/// The outside work that a step asks for.
#[derive(Clone, PartialEq, Eq, Debug)]
pub enum Action {
    /// Block for `latency_ms` milliseconds, then report `WorkDone`.
    Simulate { latency_ms: u64 },
    /// Write `reply`, then report `Sent` or `Failed`.
    Send { reply: Vec<u8> },
    /// Shut the connection down in both directions.
    Close,
    /// The connection is closed already: there is nothing to do.
    Nothing,
}

/// What an action holds.
pub enum ActionView {
    Simulate { latency_ms: u64 },
    Send { reply: Seq<u8> },
    Close,
    Nothing,
}

impl View for Action {
    type V = ActionView;

    open spec fn view(&self) -> ActionView {
        match *self {
            Action::Simulate { latency_ms } => ActionView::Simulate { latency_ms },
            Action::Send { reply } => ActionView::Send { reply: reply@ },
            Action::Close => ActionView::Close,
            Action::Nothing => ActionView::Nothing,
        }
    }
}

/// The worker of one connection.
#[derive(Clone, PartialEq, Eq, Debug)]
pub struct Worker {
    pub dialect: Dialect,
    pub receipt_time: u64,
    pub phase: Phase,
}

/// What a worker holds.
pub struct WorkerView {
    pub dialect: Dialect,
    pub receipt_time: u64,
    pub phase: PhaseView,
}

impl View for Worker {
    type V = WorkerView;

    open spec fn view(&self) -> WorkerView {
        WorkerView {
            dialect: self.dialect,
            receipt_time: self.receipt_time,
            phase: self.phase@,
        }
    }
}

/// The time at which processing starts, on a clock that was started at
/// `receipt_time` and has since been moved to the reading `now`: the clock
/// does not run backwards, so the start is never before the receipt.
pub open spec fn processing_start(receipt_time: u64, now: u64) -> u64 {
    if now >= receipt_time {
        now
    } else {
        receipt_time
    }
}

/// The time that a request has spent queued when its processing starts.
pub open spec fn queue_wait(receipt_time: u64, now: u64) -> u64 {
    (processing_start(receipt_time, now) - receipt_time) as u64
}

/// A step that settles `outcome`: the worker goes on to send its reply.
pub open spec fn settle(dialect: Dialect, outcome: OutcomeView) -> (PhaseView, ActionView) {
    (PhaseView::Sending { outcome }, ActionView::Send { reply: reply_spec(dialect, outcome) })
}

/// A step that ends the worker: the connection is released.
pub open spec fn close() -> (PhaseView, ActionView) {
    (PhaseView::Closed, ActionView::Close)
}

/// What a worker that waits for its request does with the bytes `raw`,
/// received when the clock read `now`. A blank request ends the worker
/// without a reply. A request that has waited too long is refused, whatever
/// it holds. A malformed request is refused as such. Any other request is
/// admitted, and the latency that it asks for is simulated.
pub open spec fn receive_spec(dialect: Dialect, receipt_time: u64, raw: Seq<u8>, now: u64) -> (
    PhaseView,
    ActionView,
) {
    let wait = queue_wait(receipt_time, now);
    if blank(raw) {
        close()
    } else if timed_out(wait) {
        settle(dialect, refused(StatusCode::QueueTimeout, wait))
    } else {
        match decode_spec(dialect, raw) {
            None => settle(dialect, refused(StatusCode::BadRequest, wait)),
            Some(command) => (
                PhaseView::Executing { queue_wait_ms: wait, command },
                ActionView::Simulate { latency_ms: command.simulated_latency_ms },
            ),
        }
    }
}

/// The phase that follows `event`, and the outside work to do next. A worker
/// that waits for its request admits or refuses what arrives. One whose
/// simulated work has ended reports the request as served. A closed worker
/// stays closed and asks for nothing. In every other case (the peer closed,
/// reading or writing failed, the reply was written, or an event came out of
/// turn) the worker closes the connection.
pub open spec fn transition(worker: WorkerView, event: EventView) -> (PhaseView, ActionView) {
    match (worker.phase, event) {
        (PhaseView::Closed, _) => (PhaseView::Closed, ActionView::Nothing),
        (PhaseView::Reading, EventView::Received { raw, now }) => receive_spec(
            worker.dialect,
            worker.receipt_time,
            raw,
            now,
        ),
        (PhaseView::Executing { queue_wait_ms, command }, EventView::WorkDone) => settle(
            worker.dialect,
            served(command, queue_wait_ms),
        ),
        _ => close(),
    }
}

/// The worker after `event`, and the outside work to do next. A step changes
/// the phase and nothing else.
pub open spec fn step_spec(worker: WorkerView, event: EventView) -> (WorkerView, ActionView) {
    let (phase, action) = transition(worker, event);
    (WorkerView { phase, ..worker }, action)
}

/// Settles `outcome` and asks for its reply to be sent.
fn settle_outcome(dialect: Dialect, outcome: Outcome) -> (next: (Phase, Action))
    ensures
        (next.0@, next.1@) == settle(dialect, outcome@),
{
    let reply = encode(dialect, &outcome);
    (Phase::Sending { outcome }, Action::Send { reply })
}

/// Admits or refuses the request `raw`, received when the clock read `now` by
/// a worker whose connection was accepted at `receipt_time`.
fn receive(dialect: Dialect, receipt_time: u64, raw: &[u8], now: u64) -> (next: (Phase, Action))
    ensures
        (next.0@, next.1@) == receive_spec(dialect, receipt_time, raw@, now),
{
    let mut clock = Clock::new(receipt_time);
    clock.advance_to(now);
    let wait = queue_wait_ms(receipt_time, current_time_millis(&clock));
    if is_blank(raw) {
        (Phase::Closed, Action::Close)
    } else if exceeds_queue_timeout(wait) {
        settle_outcome(dialect, Outcome::queue_timeout(wait))
    } else {
        match decode(dialect, raw) {
            None => settle_outcome(dialect, Outcome::bad_request(wait)),
            Some(command) => {
                let latency_ms = command.simulated_latency_ms;
                (Phase::Executing { queue_wait_ms: wait, command }, Action::Simulate { latency_ms })
            },
        }
    }
}

impl Worker {
    /// The worker of a connection that is accepted now, by `clock`: it waits
    /// for the request, and the time of receipt is the time that the clock
    /// shows.
    pub fn accept(dialect: Dialect, clock: &Clock) -> (worker: Worker)
        ensures
            worker@ == (WorkerView {
                dialect,
                receipt_time: clock@,
                phase: PhaseView::Reading,
            }),
    {
        Worker { dialect, receipt_time: current_time_millis(clock), phase: Phase::Reading }
    }

    /// Whether the worker has released its connection.
    pub fn is_closed(&self) -> (closed: bool)
        ensures
            closed == (self@.phase is Closed),
    {
        match self.phase {
            Phase::Closed => true,
            _ => false,
        }
    }

    /// Takes one step: the worker after `event`, and the outside work to do
    /// next.
    pub fn step(self, event: Event) -> (next: (Worker, Action))
        ensures
            (next.0@, next.1@) == step_spec(self@, event@),
    {
        let Worker { dialect, receipt_time, phase } = self;
        let (phase, action) = match (phase, event) {
            (Phase::Closed, _) => (Phase::Closed, Action::Nothing),
            (Phase::Reading, Event::Received { raw, now }) => receive(
                dialect,
                receipt_time,
                raw.as_slice(),
                now,
            ),
            (Phase::Executing { queue_wait_ms, command }, Event::WorkDone) => settle_outcome(
                dialect,
                Outcome::served(command, queue_wait_ms),
            ),
            (_, _) => (Phase::Closed, Action::Close),
        };
        (Worker { dialect, receipt_time, phase }, action)
    }
}

/// How many steps a worker in `phase` can take at most until it is closed.
pub open spec fn steps_left(phase: PhaseView) -> nat {
    match phase {
        PhaseView::Reading => 3,
        PhaseView::Executing { .. } => 2,
        PhaseView::Sending { .. } => 1,
        PhaseView::Closed => 0,
    }
}

/// The worker after a run of events, taken in order.
pub open spec fn run(worker: WorkerView, events: Seq<EventView>) -> WorkerView
    decreases events.len(),
{
    if events.len() == 0 {
        worker
    } else {
        run(step_spec(worker, events[0]).0, events.drop_first())
    }
}

/// How often a run of events has the connection closed.
pub open spec fn closings(worker: WorkerView, events: Seq<EventView>) -> nat
    decreases events.len(),
{
    if events.len() == 0 {
        0
    } else {
        let (next, action) = step_spec(worker, events[0]);
        (if action is Close {
            1nat
        } else {
            0nat
        }) + closings(next, events.drop_first())
    }
}

/// How often a run of events has work simulated.
pub open spec fn simulations(worker: WorkerView, events: Seq<EventView>) -> nat
    decreases events.len(),
{
    if events.len() == 0 {
        0
    } else {
        let (next, action) = step_spec(worker, events[0]);
        (if action is Simulate {
            1nat
        } else {
            0nat
        }) + simulations(next, events.drop_first())
    }
}

/// Every step of a worker that is not closed brings it nearer to being
/// closed, and the step that closes it is the one that asks for the
/// connection to be closed. A closed worker stays as it is and asks for
/// nothing. No step changes the dialect or the time of receipt.
pub proof fn lemma_step_moves_on(worker: WorkerView, event: EventView)
    ensures
        step_spec(worker, event).0.dialect == worker.dialect,
        step_spec(worker, event).0.receipt_time == worker.receipt_time,
        worker.phase !is Closed ==> steps_left(step_spec(worker, event).0.phase) < steps_left(
            worker.phase,
        ),
        worker.phase is Closed ==> step_spec(worker, event) == (worker, ActionView::Nothing),
        step_spec(worker, event).1 is Close <==> worker.phase !is Closed && step_spec(
            worker,
            event,
        ).0.phase is Closed,
{
}

/// Work is simulated for a request that is neither blank nor late nor
/// malformed, when it arrives at a worker that waits for it, and on no other
/// step. The latency is the one that the request asks for.
pub proof fn lemma_simulates_only_on_admission(worker: WorkerView, event: EventView)
    ensures
        (step_spec(worker, event).1 is Simulate <==> worker.phase is Reading && (
        event matches EventView::Received { raw, now } && !blank(raw) && !timed_out(
            queue_wait(worker.receipt_time, now),
        ) && decode_spec(worker.dialect, raw) is Some)),
        (step_spec(worker, event).1 matches ActionView::Simulate { latency_ms } ==> (
        event matches EventView::Received { raw, now } && (decode_spec(
            worker.dialect,
            raw,
        ) matches Some(command) && latency_ms == command.simulated_latency_ms))),
{
}

/// A worker is closed after three events, whatever they are, and earlier if it
/// has come further already. No path leaves a connection open.
pub proof fn lemma_worker_closes(worker: WorkerView, events: Seq<EventView>)
    requires
        events.len() >= steps_left(worker.phase),
    ensures
        run(worker, events).phase is Closed,
    decreases events.len(),
{
    if events.len() > 0 {
        lemma_step_moves_on(worker, events[0]);
        lemma_worker_closes(step_spec(worker, events[0]).0, events.drop_first());
    }
}

/// A run has the connection closed once if it ends with the worker closed,
/// and not at all if it does not: a connection is released exactly once.
pub proof fn lemma_released_exactly_once(worker: WorkerView, events: Seq<EventView>)
    requires
        worker.phase !is Closed,
    ensures
        closings(worker, events) == (if run(worker, events).phase is Closed {
            1nat
        } else {
            0nat
        }),
    decreases events.len(),
{
    if events.len() > 0 {
        lemma_step_moves_on(worker, events[0]);
        let next = step_spec(worker, events[0]).0;
        if next.phase is Closed {
            lemma_closed_is_final(next, events.drop_first());
        } else {
            lemma_released_exactly_once(next, events.drop_first());
        }
    }
}

/// Nothing happens to a closed worker: it stays closed, the connection is not
/// closed again, and no work is simulated.
pub proof fn lemma_closed_is_final(worker: WorkerView, events: Seq<EventView>)
    requires
        worker.phase is Closed,
    ensures
        run(worker, events) == worker,
        closings(worker, events) == 0,
        simulations(worker, events) == 0,
    decreases events.len(),
{
    if events.len() > 0 {
        lemma_closed_is_final(worker, events.drop_first());
    }
}

/// A worker that no longer waits for its request simulates no work, whatever
/// comes.
pub proof fn lemma_no_simulation_after_reading(worker: WorkerView, events: Seq<EventView>)
    requires
        worker.phase !is Reading,
    ensures
        simulations(worker, events) == 0,
    decreases events.len(),
{
    if events.len() > 0 {
        lemma_step_moves_on(worker, events[0]);
        lemma_no_simulation_after_reading(step_spec(worker, events[0]).0, events.drop_first());
    }
}

/// A request that is well-formed and on time is served: work is simulated for
/// the latency that it asks for, and when that has ended the worker reports
/// the wait and the latency together as the time taken, and names the
/// request's token unchanged. With no wait at all, the time taken is the
/// latency.
pub proof fn lemma_request_on_time_is_served(
    worker: WorkerView,
    raw: Seq<u8>,
    now: u64,
    command: Command,
)
    requires
        worker.phase is Reading,
        decode_spec(worker.dialect, raw) == Some(command),
        !timed_out(queue_wait(worker.receipt_time, now)),
    ensures
        ({
            let wait = queue_wait(worker.receipt_time, now);
            let (executing, first) = step_spec(worker, EventView::Received { raw, now });
            let (sending, second) = step_spec(executing, EventView::WorkDone);
            let outcome = served(command, wait);
            &&& executing.phase == (PhaseView::Executing { queue_wait_ms: wait, command })
            &&& first == (ActionView::Simulate { latency_ms: command.simulated_latency_ms })
            &&& sending.phase == (PhaseView::Sending { outcome })
            &&& second == (ActionView::Send { reply: reply_spec(worker.dialect, outcome) })
            &&& outcome.status_code == (StatusCode::Success {
                requested_status: command.requested_status,
            })
            &&& outcome.total_elapsed_ms == wait + command.simulated_latency_ms
            &&& outcome.resource_token == command.resource_token
            &&& now <= worker.receipt_time ==> outcome.total_elapsed_ms
                == command.simulated_latency_ms
        }),
{
    if blank(raw) {
        lemma_blank_is_malformed(worker.dialect, raw);
    }
}

/// Whatever status, latency and token a text line asks for, if its processing
/// starts at the moment of its receipt, the reply that follows the simulated
/// work reads: a served request, the latency as the time taken, and the token
/// as it was sent.
pub proof fn lemma_text_line_round_trip(
    receipt_time: u64,
    status: u32,
    latency_ms: u64,
    token: Seq<u8>,
)
    requires
        free_of(token, COMMA),
    ensures
        ({
            let worker = WorkerView {
                dialect: Dialect::TextLine,
                receipt_time,
                phase: PhaseView::Reading,
            };
            let raw = command_line(status, latency_ms, token);
            let (executing, first) = step_spec(
                worker,
                EventView::Received { raw, now: receipt_time },
            );
            let (sending, second) = step_spec(executing, EventView::WorkDone);
            &&& first == (ActionView::Simulate { latency_ms })
            &&& second matches ActionView::Send { reply }
            &&& split(reply, COMMA) == seq![
                decimal_digits(0),
                decimal_digits(latency_ms as nat),
                token,
            ]
            &&& numeral_value(split(reply, COMMA)[1]) == Some(latency_ms as nat)
        }),
{
    let worker = WorkerView { dialect: Dialect::TextLine, receipt_time, phase: PhaseView::Reading };
    let raw = command_line(status, latency_ms, token);
    let command = Command {
        requested_status: status,
        simulated_latency_ms: latency_ms,
        resource_token: token,
    };
    lemma_command_line_decodes(Dialect::TextLine, status, latency_ms, token);
    lemma_request_on_time_is_served(worker, raw, receipt_time, command);
    lemma_text_reply_reads_back(served(command, 0));
}

/// A request whose processing starts 4000 milliseconds or more after its
/// receipt is refused as timed out, unless it is blank: the reply reports the
/// wait alone, and no work is simulated for it, then or later.
pub proof fn lemma_late_request_is_refused(
    worker: WorkerView,
    raw: Seq<u8>,
    now: u64,
    later: Seq<EventView>,
)
    requires
        worker.phase is Reading,
        now - worker.receipt_time >= 4000,
        !blank(raw),
    ensures
        ({
            let wait = (now - worker.receipt_time) as u64;
            let outcome = refused(StatusCode::QueueTimeout, wait);
            let (sending, action) = step_spec(worker, EventView::Received { raw, now });
            &&& sending.phase == (PhaseView::Sending { outcome })
            &&& action == (ActionView::Send { reply: reply_spec(worker.dialect, outcome) })
            &&& outcome.total_elapsed_ms == wait
            &&& simulations(worker, seq![EventView::Received { raw, now }] + later) == 0
        }),
{
    let events = seq![EventView::Received { raw, now }] + later;
    assert(events.drop_first() =~= later);
    lemma_no_simulation_after_reading(step_spec(worker, events[0]).0, later);
}

/// A malformed request is never served. The worker drops it without a reply
/// if it is blank; otherwise it refuses it, as timed out if it is late and as
/// a bad request if it is not, and the reply reports the wait alone. No work
/// is simulated for it, then or later.
pub proof fn lemma_malformed_request_is_not_served(
    worker: WorkerView,
    raw: Seq<u8>,
    now: u64,
    later: Seq<EventView>,
)
    requires
        worker.phase is Reading,
        decode_spec(worker.dialect, raw) is None,
    ensures
        ({
            let wait = queue_wait(worker.receipt_time, now);
            let (next, action) = step_spec(worker, EventView::Received { raw, now });
            &&& blank(raw) ==> next.phase is Closed && action is Close
            &&& !blank(raw) && timed_out(wait) ==> next.phase == (PhaseView::Sending {
                outcome: refused(StatusCode::QueueTimeout, wait),
            })
            &&& !blank(raw) && !timed_out(wait) ==> next.phase == (PhaseView::Sending {
                outcome: refused(StatusCode::BadRequest, wait),
            })
            &&& next.phase matches PhaseView::Sending { outcome } ==> outcome.status_code
                !is Success && outcome.total_elapsed_ms == wait && action == (ActionView::Send {
                reply: reply_spec(worker.dialect, outcome),
            })
            &&& simulations(worker, seq![EventView::Received { raw, now }] + later) == 0
        }),
{
    let events = seq![EventView::Received { raw, now }] + later;
    assert(events.drop_first() =~= later);
    lemma_no_simulation_after_reading(step_spec(worker, events[0]).0, later);
}

} // verus!
