//! The response encoder: from an outcome to the bytes of a reply.

use crate::decimal::{
    append_decimal, decimal_digits, lemma_render_then_parse, lemma_rendered_free_of, numeral_value,
};
use crate::fields::{free_of, join, lemma_split_of_join, split};
use crate::outcome::{Outcome, OutcomeView, StatusCode};
use crate::request::{Dialect, COMMA};
use vstd::prelude::*;
use vstd::string::StringSliceAdditionalSpecFns;

verus! {

/// The name under which the server answers HTTP requests.
pub const SERVER_NAME: &'static str = "http-threads-server.rs";

/// The marker that stands for a served request in a text reply.
pub const STATUS_OK: u8 = 0;

/// The marker that stands for a queue timeout in a text reply.
pub const STATUS_QUEUE_TIMEOUT: u8 = 1;

/// The marker that stands for a malformed request in a text reply.
pub const STATUS_BAD_INPUT: u8 = 2;

/// The body of a reply: the time that the request took, a comma, and the token.
pub open spec fn body_spec(outcome: OutcomeView) -> Seq<u8> {
    decimal_digits(outcome.total_elapsed_ms).push(COMMA) + outcome.resource_token
}

/// The marker by which a text reply tells how the request ended. It does not
/// depend on the status that the client asked for.
pub open spec fn status_marker(status_code: StatusCode) -> u8 {
    match status_code {
        StatusCode::Success { .. } => STATUS_OK,
        StatusCode::QueueTimeout => STATUS_QUEUE_TIMEOUT,
        StatusCode::BadRequest => STATUS_BAD_INPUT,
    }
}

/// A text reply: the status marker, a comma, and the body, on one line.
pub open spec fn text_reply_spec(outcome: OutcomeView) -> Seq<u8> {
    decimal_digits(status_marker(outcome.status_code) as nat).push(COMMA) + body_spec(outcome)
}

/// The status of an HTTP reply, as it follows the protocol version: for a
/// served request the status that the client asked for and the word OK, else
/// a fixed status.
pub open spec fn http_status_spec(status_code: StatusCode) -> Seq<u8> {
    match status_code {
        StatusCode::Success { requested_status } => decimal_digits(requested_status as nat)
            + " OK".spec_bytes(),
        StatusCode::QueueTimeout => "408 TIMEOUT".spec_bytes(),
        StatusCode::BadRequest => "400 BAD REQUEST".spec_bytes(),
    }
}

/// An HTTP reply: the status line, the headers `Server`, `Content-Length`
/// (the number of bytes of the body) and `Connection`, a line that ends the
/// headers, and the body. Each line ends in a line feed, and each line after
/// the status line begins with a blank.
pub open spec fn http_reply_spec(outcome: OutcomeView) -> Seq<u8> {
    let body = body_spec(outcome);
    "HTTP/1.1 ".spec_bytes() + http_status_spec(outcome.status_code) + "\n Server: ".spec_bytes()
        + SERVER_NAME.spec_bytes() + "\n Content-Length: ".spec_bytes() + decimal_digits(
        body.len(),
    ) + "\n Connection: close\n \n".spec_bytes() + body
}

/// The reply that reports `outcome` in `dialect`.
pub open spec fn reply_spec(dialect: Dialect, outcome: OutcomeView) -> Seq<u8> {
    match dialect {
        Dialect::TextLine => text_reply_spec(outcome),
        Dialect::Http => http_reply_spec(outcome),
    }
}

/// The body of the reply that reports `outcome`.
pub fn encode_body(outcome: &Outcome) -> (body: Vec<u8>)
    ensures
        body@ == body_spec(outcome@),
{
    let mut body: Vec<u8> = Vec::new();
    append_decimal(&mut body, outcome.total_elapsed_ms);
    body.push(COMMA);
    body.extend_from_slice(outcome.resource_token.as_slice());
    body
}

/// The marker of `status_code` in a text reply.
pub fn marker_of(status_code: StatusCode) -> (marker: u8)
    ensures
        marker == status_marker(status_code),
{
    match status_code {
        StatusCode::Success { .. } => STATUS_OK,
        StatusCode::QueueTimeout => STATUS_QUEUE_TIMEOUT,
        StatusCode::BadRequest => STATUS_BAD_INPUT,
    }
}

/// The text reply that reports `outcome`.
pub fn encode_text_reply(outcome: &Outcome) -> (reply: Vec<u8>)
    ensures
        reply@ == text_reply_spec(outcome@),
{
    let mut reply: Vec<u8> = Vec::new();
    append_decimal(&mut reply, marker_of(outcome.status_code) as u128);
    reply.push(COMMA);
    let body = encode_body(outcome);
    reply.extend_from_slice(body.as_slice());
    reply
}

/// The HTTP reply that reports `outcome`.
pub fn encode_http_reply(outcome: &Outcome) -> (reply: Vec<u8>)
    ensures
        reply@ == http_reply_spec(outcome@),
{
    let body = encode_body(outcome);
    let mut reply: Vec<u8> = Vec::new();
    reply.extend_from_slice("HTTP/1.1 ".as_bytes());
    match outcome.status_code {
        StatusCode::Success { requested_status } => {
            append_decimal(&mut reply, requested_status as u128);
            reply.extend_from_slice(" OK".as_bytes());
        },
        StatusCode::QueueTimeout => {
            reply.extend_from_slice("408 TIMEOUT".as_bytes());
        },
        StatusCode::BadRequest => {
            reply.extend_from_slice("400 BAD REQUEST".as_bytes());
        },
    }
    reply.extend_from_slice("\n Server: ".as_bytes());
    reply.extend_from_slice(SERVER_NAME.as_bytes());
    reply.extend_from_slice("\n Content-Length: ".as_bytes());
    append_decimal(&mut reply, body.len() as u128);
    reply.extend_from_slice("\n Connection: close\n \n".as_bytes());
    reply.extend_from_slice(body.as_slice());
    reply
}

/// The reply that reports `outcome` in `dialect`. Every outcome has a reply.
pub fn encode(dialect: Dialect, outcome: &Outcome) -> (reply: Vec<u8>)
    ensures
        reply@ == reply_spec(dialect, outcome@),
{
    match dialect {
        Dialect::TextLine => encode_text_reply(outcome),
        Dialect::Http => encode_http_reply(outcome),
    }
}

/// A text reply can be read back: where the token holds no comma, the fields
/// of the reply are the status marker, the time taken and the token, and the
/// second of them is a numeral of the time that the outcome reports.
pub proof fn lemma_text_reply_reads_back(outcome: OutcomeView)
    requires
        free_of(outcome.resource_token, COMMA),
    ensures
        split(text_reply_spec(outcome), COMMA) == seq![
            decimal_digits(status_marker(outcome.status_code) as nat),
            decimal_digits(outcome.total_elapsed_ms),
            outcome.resource_token,
        ],
        split(body_spec(outcome), COMMA) == seq![
            decimal_digits(outcome.total_elapsed_ms),
            outcome.resource_token,
        ],
        numeral_value(decimal_digits(status_marker(outcome.status_code) as nat)) == Some(
            status_marker(outcome.status_code) as nat,
        ),
        numeral_value(decimal_digits(outcome.total_elapsed_ms)) == Some(outcome.total_elapsed_ms),
{
    let marker = decimal_digits(status_marker(outcome.status_code) as nat);
    let elapsed = decimal_digits(outcome.total_elapsed_ms);
    lemma_rendered_free_of(status_marker(outcome.status_code) as nat, COMMA);
    lemma_rendered_free_of(outcome.total_elapsed_ms, COMMA);
    lemma_render_then_parse(status_marker(outcome.status_code) as nat);
    lemma_render_then_parse(outcome.total_elapsed_ms);
    let two = seq![elapsed, outcome.resource_token];
    let three = seq![marker, elapsed, outcome.resource_token];
    lemma_split_of_join(two, COMMA);
    lemma_split_of_join(three, COMMA);
    assert(join(two, COMMA) =~= body_spec(outcome)) by {
        reveal_with_fuel(join, 2);
        assert(two.drop_last() =~= seq![elapsed]);
    }
    assert(join(three, COMMA) =~= text_reply_spec(outcome)) by {
        reveal_with_fuel(join, 3);
        assert(three.drop_last() =~= seq![marker, elapsed]);
        assert(three.drop_last().drop_last() =~= seq![marker]);
    }
}

} // verus!
