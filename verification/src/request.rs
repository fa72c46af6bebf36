//! The request decoder: from the bytes of a request to a command.

use crate::decimal::{
    decimal_digits, is_digit, lemma_render_then_parse, lemma_rendered_digits,
    lemma_rendered_free_of, parse_decimal, parse_decimal_spec,
};
use crate::fields::{
    blank, free_of, is_whitespace, join, lemma_fields_free_of_absent_byte,
    lemma_fields_free_of_delimiter, lemma_split_of_join, lemma_split_without_delimiter, split,
    split_fields, strip_leading, strip_surrounding, trim_matches, views,
};
use vstd::prelude::*;

verus! {

/// The byte `,`, which separates the fields of a command.
pub const COMMA: u8 = 0x2c;

/// The byte `/`, which may surround the first field of a command.
pub const SLASH: u8 = 0x2f;

/// The blank, which separates the words of a request line.
pub const SPACE: u8 = 0x20;

/// The two forms in which requests arrive and replies leave.
#[derive(Clone, Copy, PartialEq, Eq, Debug, Structural)]
pub enum Dialect {
    /// The request is the command; the reply is one line of three fields.
    TextLine,
    /// The command is the second word of the request, where a request target
    /// stands; the reply is a status line, a header block and a body.
    Http,
}

/// A decoded request: the status that the client asks for, the latency to
/// simulate, and a token that the server hands back without reading it.
#[derive(Clone, PartialEq, Eq, Debug)]
pub struct DecodedCommand {
    pub requested_status: u32,
    pub simulated_latency_ms: u64,
    pub resource_token: Vec<u8>,
}

/// What a decoded command holds.
pub struct Command {
    pub requested_status: u32,
    pub simulated_latency_ms: u64,
    pub resource_token: Seq<u8>,
}

impl View for DecodedCommand {
    type V = Command;

    open spec fn view(&self) -> Command {
        Command {
            requested_status: self.requested_status,
            simulated_latency_ms: self.simulated_latency_ms,
            resource_token: self.resource_token@,
        }
    }
}

/// What the result of decoding holds.
pub open spec fn decoded_view(decoded: Option<DecodedCommand>) -> Option<Command> {
    match decoded {
        Some(command) => Some(command@),
        None => None,
    }
}

/// Whether a dialect takes `status` for a requested status: it fits in 32
/// bits, and it is not zero where it is to be sent back as an HTTP status.
pub open spec fn accepts_status(dialect: Dialect, status: u64) -> bool {
    status <= u32::MAX && (dialect == Dialect::Http ==> status > 0)
}

/// The command that `args` spell: exactly three fields with commas between
/// them, of which the first is a numeral that may have slashes around it, the
/// second is a numeral, and the third is taken as it stands. Anything else
/// spells no command.
pub open spec fn command_spec(dialect: Dialect, args: Seq<u8>) -> Option<Command> {
    let fields = split(args, COMMA);
    if fields.len() != 3 {
        None
    } else {
        match (
            parse_decimal_spec(strip_surrounding(fields[0], SLASH)),
            parse_decimal_spec(fields[1]),
        ) {
            (Some(status), Some(latency)) => if accepts_status(dialect, status) {
                Some(
                    Command {
                        requested_status: status as u32,
                        simulated_latency_ms: latency,
                        resource_token: fields[2],
                    },
                )
            } else {
                None
            },
            _ => None,
        }
    }
}

/// Where the command stands in a request: a text line is the command; of an
/// HTTP request it is the second of the words that blanks separate, whatever
/// the first word, the method, is. A request of one word holds none.
pub open spec fn command_text(dialect: Dialect, raw: Seq<u8>) -> Option<Seq<u8>> {
    match dialect {
        Dialect::TextLine => Some(raw),
        Dialect::Http => {
            let words = split(raw, SPACE);
            if words.len() > 1 {
                Some(words[1])
            } else {
                None
            }
        },
    }
}

/// The command that a request holds, or `None` for a malformed request.
pub open spec fn decode_spec(dialect: Dialect, raw: Seq<u8>) -> Option<Command> {
    match command_text(dialect, raw) {
        Some(args) => command_spec(dialect, args),
        None => None,
    }
}

/// Decodes the three fields of a command.
pub fn decode_command(dialect: Dialect, args: &[u8]) -> (decoded: Option<DecodedCommand>)
    ensures
        decoded_view(decoded) == command_spec(dialect, args@),
{
    let mut fields = split_fields(args, COMMA);
    if fields.len() != 3 {
        return None;
    }
    let status = match parse_decimal(trim_matches(fields[0].as_slice(), SLASH)) {
        Some(status) => status,
        None => {
            return None;
        },
    };
    let latency = match parse_decimal(fields[1].as_slice()) {
        Some(latency) => latency,
        None => {
            return None;
        },
    };
    if status > 0xffff_ffff {
        return None;
    }
    match dialect {
        Dialect::Http => {
            if status == 0 {
                return None;
            }
        },
        Dialect::TextLine => {},
    }
    match fields.pop() {
        Some(resource_token) => Some(
            DecodedCommand {
                requested_status: status as u32,
                simulated_latency_ms: latency,
                resource_token,
            },
        ),
        None => None,
    }
}

/// Decodes a request. The result is the command that the request holds, and
/// `None` exactly for the malformed requests.
pub fn decode(dialect: Dialect, raw: &[u8]) -> (decoded: Option<DecodedCommand>)
    ensures
        decoded_view(decoded) == decode_spec(dialect, raw@),
{
    match dialect {
        Dialect::TextLine => decode_command(dialect, raw),
        Dialect::Http => {
            let words = split_fields(raw, SPACE);
            if words.len() > 1 {
                decode_command(dialect, words[1].as_slice())
            } else {
                None
            }
        },
    }
}

/// Decoding is a function of the dialect and the bytes: whatever two
/// decodings of one request return, they return the same.
pub proof fn lemma_decode_is_a_function(
    dialect: Dialect,
    raw: Seq<u8>,
    first: Option<DecodedCommand>,
    second: Option<DecodedCommand>,
)
    requires
        decoded_view(first) == decode_spec(dialect, raw),
        decoded_view(second) == decode_spec(dialect, raw),
    ensures
        decoded_view(first) == decoded_view(second),
        first is Some <==> second is Some,
        first is Some ==> first->0@ == second->0@,
{
}

/// A request that is empty or holds nothing but white space is malformed.
pub proof fn lemma_blank_is_malformed(dialect: Dialect, raw: Seq<u8>)
    requires
        blank(raw),
    ensures
        decode_spec(dialect, raw) is None,
{
    assert(free_of(raw, COMMA)) by {
        assert forall|i: int| 0 <= i < raw.len() implies #[trigger] raw[i] != COMMA by {
            assert(is_whitespace(raw[i]));
        }
    }
    match dialect {
        Dialect::TextLine => {
            lemma_split_without_delimiter(raw, COMMA);
        },
        Dialect::Http => {
            let words = split(raw, SPACE);
            if words.len() > 1 {
                lemma_fields_free_of_absent_byte(raw, SPACE, COMMA);
                assert(free_of(words[1], COMMA));
                lemma_split_without_delimiter(words[1], COMMA);
            }
        },
    }
}

/// The token of a decoded command holds no comma.
pub proof fn lemma_decoded_token_is_plain(dialect: Dialect, raw: Seq<u8>)
    requires
        decode_spec(dialect, raw) is Some,
    ensures
        free_of(decode_spec(dialect, raw)->0.resource_token, COMMA),
{
    let args = command_text(dialect, raw)->0;
    lemma_fields_free_of_delimiter(args, COMMA);
    assert(free_of(split(args, COMMA)[2], COMMA));
}

/// The command that asks for `status` and for `latency_ms` of simulated work
/// and names `token`: two numerals and the token, with commas between them.
pub open spec fn command_line(status: u32, latency_ms: u64, token: Seq<u8>) -> Seq<u8> {
    join(seq![decimal_digits(status as nat), decimal_digits(latency_ms as nat), token], COMMA)
}

/// Stripping slashes from a rendered number, with or without a slash before
/// it, leaves the rendered number.
proof fn lemma_stripped_digits(n: nat)
    ensures
        strip_surrounding(decimal_digits(n), SLASH) == decimal_digits(n),
        strip_surrounding(seq![SLASH] + decimal_digits(n), SLASH) == decimal_digits(n),
{
    let digits = decimal_digits(n);
    lemma_rendered_digits(n);
    assert(is_digit(digits[0]));
    assert(is_digit(digits.last()));
    let slashed = seq![SLASH] + digits;
    assert(slashed.drop_first() =~= digits);
    assert(strip_leading(slashed, SLASH) == strip_leading(digits, SLASH));
}

/// Every command has a line that spells it: the line made of a status that
/// the dialect accepts, a latency, and a token without a comma decodes to
/// just these three, the token unchanged, and so does that line behind a
/// slash.
pub proof fn lemma_command_line_decodes(
    dialect: Dialect,
    status: u32,
    latency_ms: u64,
    token: Seq<u8>,
)
    requires
        accepts_status(dialect, status as u64),
        free_of(token, COMMA),
    ensures
        command_spec(dialect, command_line(status, latency_ms, token)) == Some(
            Command {
                requested_status: status,
                simulated_latency_ms: latency_ms,
                resource_token: token,
            },
        ),
        command_spec(dialect, seq![SLASH] + command_line(status, latency_ms, token)) == Some(
            Command {
                requested_status: status,
                simulated_latency_ms: latency_ms,
                resource_token: token,
            },
        ),
{
    let first = decimal_digits(status as nat);
    let second = decimal_digits(latency_ms as nat);
    lemma_stripped_digits(status as nat);
    lemma_stripped_digits(latency_ms as nat);
    lemma_rendered_free_of(status as nat, COMMA);
    lemma_rendered_free_of(latency_ms as nat, COMMA);
    lemma_render_then_parse(status as nat);
    lemma_render_then_parse(latency_ms as nat);
    let fields = seq![first, second, token];
    lemma_split_of_join(fields, COMMA);
    let slashed = seq![seq![SLASH] + first, second, token];
    assert(free_of(seq![SLASH] + first, COMMA)) by {
        assert forall|i: int| 0 <= i < (seq![SLASH] + first).len() implies #[trigger] (seq![SLASH]
            + first)[i] != COMMA by {
            if i > 0 {
                assert((seq![SLASH] + first)[i] == first[i - 1]);
            }
        }
    }
    lemma_split_of_join(slashed, COMMA);
    assert(join(slashed, COMMA) =~= seq![SLASH] + join(fields, COMMA)) by {
        reveal_with_fuel(join, 3);
        assert(fields.drop_last() =~= seq![first, second]);
        assert(fields.drop_last().drop_last() =~= seq![first]);
        assert(slashed.drop_last() =~= seq![seq![SLASH] + first, second]);
        assert(slashed.drop_last().drop_last() =~= seq![seq![SLASH] + first]);
    }
}

/// In an HTTP request of two or more words the command is the second word,
/// whatever the method before it and the words behind it are.
pub proof fn lemma_http_request_decodes(words: Seq<Seq<u8>>)
    requires
        words.len() >= 2,
        forall|k: int| 0 <= k < words.len() ==> free_of(#[trigger] words[k], SPACE),
    ensures
        decode_spec(Dialect::Http, join(words, SPACE)) == command_spec(Dialect::Http, words[1]),
{
    lemma_split_of_join(words, SPACE);
}

} // verus!
