//! Reading an administrative level out of a tag value.

use crate::parsers::AdminLevel;
use vstd::prelude::*;

verus! {

/// Whether `c` is one of the ten decimal digits.
pub open spec fn is_digit(c: char) -> bool {
    '0' <= c && c <= '9'
}

/// The number that a run of decimal digits writes, most significant first.
pub open spec fn digits_value(digits: Seq<char>) -> nat
    decreases digits.len(),
{
    if digits.len() == 0 {
        0
    } else {
        digits_value(digits.drop_last()) * 10 + (digits.last() as int - '0' as int) as nat
    }
}

/// Whether `digits` is a non-empty run of decimal digits.
pub open spec fn all_digits(digits: Seq<char>) -> bool {
    digits.len() > 0 && forall|i: int| 0 <= i < digits.len() ==> is_digit(#[trigger] digits[i])
}

/// `text` without the one `+` that may lead it.
pub open spec fn unsigned_part(text: Seq<char>) -> Seq<char> {
    if text.len() > 0 && text[0] == '+' {
        text.subrange(1, text.len() as int)
    } else {
        text
    }
}

/// The level that `text` denotes: an optional `+`, then decimal digits whose
/// value fits the level type. Anything else denotes no level.
pub open spec fn level_of(text: Seq<char>) -> Option<AdminLevel> {
    let digits = unsigned_part(text);
    if all_digits(digits) && digits_value(digits) <= AdminLevel::MAX {
        Some(digits_value(digits) as AdminLevel)
    } else {
        None
    }
}

/// A longer run of digits never writes a smaller number than its prefix.
proof fn lemma_digits_value_grows(digits: Seq<char>, n: int)
    requires
        0 <= n <= digits.len(),
        forall|i: int| 0 <= i < digits.len() ==> is_digit(#[trigger] digits[i]),
    ensures
        digits_value(digits.take(n)) <= digits_value(digits),
    decreases digits.len() - n,
{
    if n == digits.len() {
        assert(digits.take(n) =~= digits);
    } else {
        lemma_digits_value_grows(digits, n + 1);
        assert(digits.take(n + 1).drop_last() =~= digits.take(n));
        assert(is_digit(digits[n]));
    }
}

/// Parses an administrative level as the standard unsigned-integer grammar
/// reads it.
pub fn parse_level(text: &str) -> (level: Option<AdminLevel>)
    ensures
        level == level_of(text@),
{
    let ghost digits = unsigned_part(text@);
    let ghost mut seen: int = 0;
    let mut value: u32 = 0;
    let mut any_digit = false;
    let mut sign_skipped = false;
    for c in it: text.chars()
        invariant
            it.seq() == text@,
            digits == unsigned_part(text@),
            sign_skipped <==> (text@.len() > 0 && text@[0] == '+' && it.index() >= 1),
            seen == it.index() - (if sign_skipped { 1int } else { 0int }),
            0 <= seen <= digits.len(),
            any_digit <==> seen > 0,
            forall|i: int| 0 <= i < seen ==> is_digit(#[trigger] digits[i]),
            value == digits_value(digits.take(seen)),
            value <= AdminLevel::MAX,
    {
        assert(c == text@[it.index()]);
        if !any_digit && !sign_skipped && c == '+' {
            sign_skipped = true;
        } else {
            assert(c == digits[seen]);
            if !(c >= '0' && c <= '9') {
                return None;
            }
            let digit: u32 = c as u32 - '0' as u32;
            proof {
                assert(digits.take(seen + 1).drop_last() =~= digits.take(seen));
                assert(digits.take(seen + 1).last() == c);
                seen = seen + 1;
            }
            value = value * 10 + digit;
            any_digit = true;
            if value > 255 {
                proof {
                    if all_digits(digits) {
                        lemma_digits_value_grows(digits, seen);
                    }
                }
                return None;
            }
        }
    }
    proof {
        assert(digits.take(seen) =~= digits);
    }
    if any_digit {
        Some(value as u8)
    } else {
        None
    }
}

} // verus!
