//! Decimal numerals as they appear on the wire.

use crate::fields::free_of;
use vstd::prelude::*;

verus! {

/// The byte `+`, which may stand before the digits of a numeral.
pub const PLUS_SIGN: u8 = 0x2b;

/// The byte `0`, the first of the ten digits.
pub const DIGIT_ZERO: u8 = 0x30;

/// Whether `byte` is one of the ASCII digits `0` to `9`.
pub open spec fn is_digit(byte: u8) -> bool {
    0x30 <= byte <= 0x39
}

/// Whether every byte of `s` is a digit.
pub open spec fn all_digits(s: Seq<u8>) -> bool {
    forall|i: int| 0 <= i < s.len() ==> is_digit(#[trigger] s[i])
}

/// The number that the digits `s` denote, most significant digit first.
pub open spec fn digits_value(s: Seq<u8>) -> nat
    decreases s.len(),
{
    if s.len() == 0 {
        0
    } else {
        10 * digits_value(s.drop_last()) + (s.last() - 0x30) as nat
    }
}

/// A numeral without its optional leading plus sign.
pub open spec fn unsigned_part(s: Seq<u8>) -> Seq<u8> {
    if s.len() > 0 && s[0] == PLUS_SIGN {
        s.drop_first()
    } else {
        s
    }
}

/// The value of a numeral: an optional plus sign followed by one or more
/// digits and nothing else. Anything else denotes no number.
pub open spec fn numeral_value(s: Seq<u8>) -> Option<nat> {
    let digits = unsigned_part(s);
    if digits.len() > 0 && all_digits(digits) {
        Some(digits_value(digits))
    } else {
        None
    }
}

/// The value of a numeral that fits in 64 bits.
pub open spec fn parse_decimal_spec(s: Seq<u8>) -> Option<u64> {
    match numeral_value(s) {
        Some(v) => if v <= u64::MAX { Some(v as u64) } else { None },
        None => None,
    }
}

/// A prefix of a digit string denotes no more than the whole string.
pub proof fn lemma_prefix_value_bounded(s: Seq<u8>, k: int)
    requires
        0 <= k <= s.len(),
    ensures
        digits_value(s.subrange(0, k)) <= digits_value(s),
    decreases s.len(),
{
    if k == s.len() {
        assert(s.subrange(0, k) =~= s);
    } else {
        assert(s.drop_last().subrange(0, k) =~= s.subrange(0, k));
        lemma_prefix_value_bounded(s.drop_last(), k);
    }
}

/// Reads a numeral of at most 64 bits.
pub fn parse_decimal(field: &[u8]) -> (parsed: Option<u64>)
    ensures
        parsed == parse_decimal_spec(field@),
{
    let n = field.len();
    let start: usize = if n > 0 && field[0] == PLUS_SIGN { 1 } else { 0 };
    if start == n {
        return None;
    }
    let ghost digits = unsigned_part(field@);
    assert(digits =~= field@.subrange(start as int, n as int));
    let mut value: u64 = 0;
    let mut i: usize = start;
    while i < n
        invariant
            start <= i <= n,
            n == field@.len(),
            digits == unsigned_part(field@),
            digits == field@.subrange(start as int, n as int),
            all_digits(digits.subrange(0, i - start)),
            value == digits_value(digits.subrange(0, i - start)),
        decreases n - i,
    {
        let byte = field[i];
        if byte < DIGIT_ZERO || byte > 0x39 {
            assert(!is_digit(digits[i - start]));
            return None;
        }
        let digit: u64 = (byte - DIGIT_ZERO) as u64;
        let ghost longer = digits.subrange(0, i - start + 1);
        assert(longer.drop_last() =~= digits.subrange(0, i - start));
        assert(longer.last() == byte);
        assert(digits_value(longer) == 10 * value + digit);
        proof {
            lemma_prefix_value_bounded(digits, i - start + 1);
        }
        let scaled = match value.checked_mul(10) {
            Some(scaled) => scaled,
            None => {
                return None;
            },
        };
        value = match scaled.checked_add(digit) {
            Some(sum) => sum,
            None => {
                return None;
            },
        };
        i += 1;
        assert(all_digits(longer)) by {
            assert forall|j: int| 0 <= j < longer.len() implies is_digit(#[trigger] longer[j]) by {
                if j < longer.len() - 1 {
                    assert(longer[j] == digits.subrange(0, longer.len() - 1)[j]);
                }
            }
        }
    }
    assert(digits.subrange(0, n - start) =~= digits);
    Some(value)
}

/// The digits of `n` in decimal, most significant first, without leading
/// zeros; zero is the single digit `0`.
pub open spec fn decimal_digits(n: nat) -> Seq<u8>
    decreases n,
{
    if n < 10 {
        seq![(0x30 + n) as u8]
    } else {
        decimal_digits(n / 10).push((0x30 + n % 10) as u8)
    }
}

/// Writes the decimal digits of `n` behind what `out` already holds.
pub fn append_decimal(out: &mut Vec<u8>, n: u128)
    ensures
        final(out)@ == old(out)@ + decimal_digits(n as nat),
    decreases n,
{
    if n >= 10 {
        append_decimal(out, n / 10);
    }
    let digit: u8 = (n % 10) as u8;
    out.push(DIGIT_ZERO + digit);
}

/// The decimal digits of `n`.
pub fn render_decimal(n: u128) -> (digits: Vec<u8>)
    ensures
        digits@ == decimal_digits(n as nat),
{
    let mut digits: Vec<u8> = Vec::new();
    append_decimal(&mut digits, n);
    digits
}

/// What was rendered consists of digits only, and of at least one.
pub proof fn lemma_rendered_digits(n: nat)
    ensures
        decimal_digits(n).len() > 0,
        all_digits(decimal_digits(n)),
        digits_value(decimal_digits(n)) == n,
    decreases n,
{
    if n < 10 {
        let s = decimal_digits(n);
        assert(s.drop_last() =~= Seq::<u8>::empty());
        assert(digits_value(s.drop_last()) == 0);
    } else {
        lemma_rendered_digits(n / 10);
        let shorter = decimal_digits(n / 10);
        let s = decimal_digits(n);
        assert(s.drop_last() =~= shorter);
        assert forall|i: int| 0 <= i < s.len() implies is_digit(#[trigger] s[i]) by {
            if i < shorter.len() {
                assert(s[i] == shorter[i]);
            }
        }
    }
}

/// A byte that is no digit occurs in no rendered number.
pub proof fn lemma_rendered_free_of(n: nat, byte: u8)
    requires
        !is_digit(byte),
    ensures
        free_of(decimal_digits(n), byte),
{
    let digits = decimal_digits(n);
    lemma_rendered_digits(n);
    assert forall|i: int| 0 <= i < digits.len() implies #[trigger] digits[i] != byte by {
        assert(is_digit(digits[i]));
    }
}

/// Reading a rendered number gives the number back: rendering loses nothing,
/// and the reader understands every numeral that the renderer writes.
pub proof fn lemma_render_then_parse(n: nat)
    ensures
        numeral_value(decimal_digits(n)) == Some(n),
        n <= u64::MAX ==> parse_decimal_spec(decimal_digits(n)) == Some(n as u64),
{
    lemma_rendered_digits(n);
    assert(is_digit(decimal_digits(n)[0]));
}

} // verus!
