//! What the prompts read out of the text that was typed: a colour index and
//! a yes.

use vstd::prelude::*;
use vstd::string::StrSliceExecFns;

verus! {

/// Whether `c` is one of the ten decimal digits.
pub open spec fn is_digit(c: char) -> bool {
    '0' <= c <= '9'
}

/// The number that a sequence of decimal digits writes.
pub open spec fn decimal(digits: Seq<char>) -> nat
    decreases digits.len(),
{
    if digits.len() == 0 {
        0
    } else {
        10 * decimal(digits.drop_last()) + (digits.last() as nat - '0' as nat) as nat
    }
}

/// `text` without the one `+` that may lead it.
pub open spec fn unsigned(text: Seq<char>) -> Seq<char> {
    if text.len() > 0 && text[0] == '+' {
        text.drop_first()
    } else {
        text
    }
}

/// Whether `text` holds decimal digits only.
pub open spec fn all_digits(text: Seq<char>) -> bool {
    forall|i: int| 0 <= i < text.len() ==> is_digit(#[trigger] text[i])
}

/// The colour index that `text` writes: one or more decimal digits, after at
/// most one `+`, that make a number up to 255. Anything else writes none.
pub open spec fn color_of(text: Seq<char>) -> Option<u8> {
    let digits = unsigned(text);
    if digits.len() > 0 && all_digits(digits) && decimal(digits) <= 255 {
        Some(decimal(digits) as u8)
    } else {
        None
    }
}

/// Whether `text` is a yes: the one letter `Y`, in either case.
pub open spec fn is_yes(text: Seq<char>) -> bool {
    text == seq!['Y'] || text == seq!['y']
}

/// A longer run of digits writes no smaller a number than its beginning.
proof fn lemma_decimal_grows(digits: Seq<char>, n: int)
    requires
        0 <= n <= digits.len(),
    ensures
        decimal(digits.take(n)) <= decimal(digits),
    decreases digits.len() - n,
{
    if n == digits.len() {
        assert(digits.take(n) =~= digits);
    } else {
        lemma_decimal_grows(digits, n + 1);
        assert(digits.take(n + 1).drop_last() =~= digits.take(n));
    }
}

/// Reads a colour index out of `text`.
pub fn parse_color(text: &str) -> (color: Option<u8>)
    ensures
        color == color_of(text@),
{
    let len: usize = text.unicode_len();
    let start: usize = if len > 0 && text.get_char(0) == '+' {
        1
    } else {
        0
    };
    if start == len {
        return None;
    }
    let ghost digits = unsigned(text@);
    let mut value: u32 = 0;
    let mut at: usize = start;
    while at < len
        invariant
            start <= at <= len,
            len == text@.len(),
            digits == unsigned(text@),
            digits.len() == len - start,
            forall|i: int| 0 <= i < digits.len() ==> digits[i] == text@[i + start],
            forall|i: int| 0 <= i < at - start ==> is_digit(#[trigger] digits[i]),
            value == decimal(digits.take(at - start)),
            value <= 255,
        decreases len - at,
    {
        let c: char = text.get_char(at);
        let code: u32 = c as u32;
        if code < 48 || code > 57 {
            assert(!is_digit(digits[at - start]));
            return None;
        }
        proof {
            assert(digits.take(at - start + 1).drop_last() =~= digits.take(at - start));
            assert(digits.take(at - start + 1).last() == c);
        }
        value = value * 10 + (code - 48);
        if value > 255 {
            proof {
                lemma_decimal_grows(digits, at - start + 1);
            }
            return None;
        }
        at += 1;
    }
    proof {
        assert(digits.take(len - start) =~= digits);
    }
    Some(value as u8)
}

/// Whether the text that was typed is a yes.
pub fn confirms(text: &str) -> (yes: bool)
    ensures
        yes == is_yes(text@),
{
    if text.unicode_len() != 1 {
        return false;
    }
    let c: char = text.get_char(0);
    proof {
        if c == 'Y' {
            assert(text@ =~= seq!['Y']);
        }
        if c == 'y' {
            assert(text@ =~= seq!['y']);
        }
    }
    c == 'Y' || c == 'y'
}

} // verus!
