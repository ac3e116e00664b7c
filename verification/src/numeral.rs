//! Unsigned numbers written in ASCII: an optional `+`, then one or more
//! digits of the radix. Letters stand for the digits from ten on, in either
//! case.

use vstd::prelude::*;
use vstd::slice::slice_subrange;

verus! {

/// The value that a byte stands for as a digit: `0` to `9` for themselves,
/// and the letters, in either case, for ten to thirty-five.
pub open spec fn spec_digit_of(byte: u8) -> Option<int> {
    if 0x30 <= byte <= 0x39 {
        Some(byte - 0x30)
    } else if 0x61 <= byte <= 0x7a {
        Some(byte - 0x61 + 10)
    } else if 0x41 <= byte <= 0x5a {
        Some(byte - 0x41 + 10)
    } else {
        None
    }
}

/// The value of one digit in `radix`, if the byte is such a digit: one
/// whose value is below the radix.
pub open spec fn spec_digit(byte: u8, radix: int) -> Option<int> {
    match spec_digit_of(byte) {
        Some(value) => if value < radix {
            Some(value)
        } else {
            None
        },
        None => None,
    }
}

/// Whether every byte of `text` is a digit in `radix`.
pub open spec fn spec_all_digits(text: Seq<u8>, radix: int) -> bool {
    forall|i: int| 0 <= i < text.len() ==> (#[trigger] spec_digit(text[i], radix)) is Some
}

/// The number that a string of digits spells, most significant digit first.
pub open spec fn spec_digits_value(text: Seq<u8>, radix: int) -> int
    decreases text.len(),
{
    if text.len() == 0 {
        0
    } else {
        spec_digits_value(text.drop_last(), radix) * radix + match spec_digit(
            text.last(),
            radix,
        ) {
            Some(value) => value,
            None => 0,
        }
    }
}

/// `text` without the `+` that may stand in front of the digits.
pub open spec fn spec_unsigned_digits(text: Seq<u8>) -> Seq<u8> {
    if text.len() > 0 && text[0] == 0x2b {
        text.subrange(1, text.len() as int)
    } else {
        text
    }
}

/// The number that `text` spells in `radix`, if it is an optional `+`
/// followed by at least one digit and nothing else, and the number is at
/// most `max`.
pub open spec fn spec_parse_unsigned(text: Seq<u8>, radix: int, max: int) -> Option<int> {
    let digits = spec_unsigned_digits(text);
    if digits.len() > 0 && spec_all_digits(digits, radix) && spec_digits_value(digits, radix)
        <= max {
        Some(spec_digits_value(digits, radix))
    } else {
        None
    }
}

/// The value of a digit string never falls when digits are appended.
pub proof fn lemma_value_grows(text: Seq<u8>, radix: int, k: int)
    requires
        radix >= 1,
        0 <= k <= text.len(),
    ensures
        0 <= spec_digits_value(text.take(k), radix) <= spec_digits_value(text, radix),
    decreases text.len(),
{
    if text.len() == 0 {
        assert(text.take(k) =~= text);
    } else if k == text.len() {
        assert(text.take(k) =~= text);
        lemma_value_grows(text.drop_last(), radix, 0);
        let front = spec_digits_value(text.drop_last(), radix);
        assert(front * radix >= 0) by (nonlinear_arith)
            requires
                front >= 0,
                radix >= 1,
        ;
    } else {
        lemma_value_grows(text.drop_last(), radix, k);
        assert(text.drop_last().take(k) =~= text.take(k));
        let front = spec_digits_value(text.drop_last(), radix);
        assert(front * radix >= front) by (nonlinear_arith)
            requires
                front >= 0,
                radix >= 1,
        ;
    }
}

/// Reads one digit: `Some` exactly when the byte is a digit whose value is
/// below `radix`.
pub fn digit_value(byte: u8, radix: u8) -> (value: Option<u8>)
    ensures
        match value {
            Some(v) => spec_digit(byte, radix as int) == Some(v as int),
            None => spec_digit(byte, radix as int) is None,
        },
{
    let v: u8 = if 0x30 <= byte && byte <= 0x39 {
        byte - 0x30
    } else if 0x61 <= byte && byte <= 0x7a {
        byte - 0x61 + 10
    } else if 0x41 <= byte && byte <= 0x5a {
        byte - 0x41 + 10
    } else {
        return None;
    };
    if v < radix {
        Some(v)
    } else {
        None
    }
}

/// Reads an unsigned number in `radix` that must not exceed `max`.
///
/// Returns `None` when `text` is empty or a lone `+`, holds anything but
/// digits after the optional `+`, or spells a number above `max`.
pub fn parse_unsigned(text: &[u8], radix: u8, max: u64) -> (value: Option<u64>)
    ensures
        match value {
            Some(v) => spec_parse_unsigned(text@, radix as int, max as int) == Some(v as int),
            None => spec_parse_unsigned(text@, radix as int, max as int) is None,
        },
{
    let start: usize = if text.len() > 0 && text[0] == 0x2b {
        1
    } else {
        0
    };
    let digits = slice_subrange(text, start, text.len());
    assert(digits@ =~= spec_unsigned_digits(text@));
    if digits.len() == 0 {
        return None;
    }
    let mut acc: u64 = 0;
    let mut i: usize = 0;
    while i < digits.len()
        invariant
            digits@ == spec_unsigned_digits(text@),
            i <= digits@.len(),
            spec_all_digits(digits@.take(i as int), radix as int),
            acc == spec_digits_value(digits@.take(i as int), radix as int),
            acc <= max,
        decreases digits@.len() - i,
    {
        let ghost before = digits@.take(i as int);
        let ghost after = digits@.take(i + 1);
        proof {
            assert(after.drop_last() =~= before);
            assert(after.last() == digits@[i as int]);
        }
        let d = match digit_value(digits[i], radix) {
            Some(d) => d,
            None => {
                return None;
            },
        };
        proof {
            lemma_value_grows(digits@, radix as int, i + 1);
            assert forall|j: int| 0 <= j < after.len() implies (#[trigger] spec_digit(
                after[j],
                radix as int,
            )) is Some by {
                if j < i {
                    assert(after[j] == before[j]);
                }
            }
        }
        let scaled = match acc.checked_mul(radix as u64) {
            Some(scaled) => scaled,
            None => {
                return None;
            },
        };
        let next = match scaled.checked_add(d as u64) {
            Some(next) => next,
            None => {
                return None;
            },
        };
        if next > max {
            return None;
        }
        acc = next;
        i += 1;
    }
    assert(digits@.take(i as int) =~= digits@);
    Some(acc)
}

} // verus!
