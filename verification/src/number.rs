//! Decimal numbers in text.

use vstd::prelude::*;

use crate::text;

verus! {

/// Whether a character is a decimal digit.
pub open spec fn is_digit(c: char) -> bool {
    '0' <= c <= '9'
}

/// The value of decimal digits.
pub open spec fn digits_value(digits: Seq<char>) -> nat
    decreases digits.len(),
{
    if digits.len() == 0 {
        0
    } else {
        digits_value(digits.drop_last()) * 10 + (digits.last() as nat - '0' as nat) as nat
    }
}

/// A text without one leading plus sign.
pub open spec fn without_plus(text: Seq<char>) -> Seq<char> {
    if text.len() > 0 && text[0] == '+' {
        text.skip(1)
    } else {
        text
    }
}

/// Whether a text is a number: decimal digits, with a plus sign before them or not.
pub open spec fn is_number(text: Seq<char>) -> bool {
    without_plus(text).len() > 0 && forall|i: int|
        0 <= i < without_plus(text).len() ==> is_digit(#[trigger] without_plus(text)[i])
}

/// The number that a text holds, where it is at most `max`.
pub open spec fn number(text: Seq<char>, max: nat) -> Option<nat> {
    if is_number(text) && digits_value(without_plus(text)) <= max {
        Some(digits_value(without_plus(text)))
    } else {
        None
    }
}

/// The value of the first digits is at most that of all.
pub proof fn lemma_digits_value_grows(digits: Seq<char>, count: int)
    requires
        0 <= count <= digits.len(),
    ensures
        digits_value(digits.take(count)) <= digits_value(digits),
    decreases digits.len(),
{
    if count < digits.len() {
        lemma_digits_value_grows(digits.drop_last(), count);
        assert(digits.drop_last().take(count) =~= digits.take(count));
    } else {
        assert(digits.take(count) =~= digits);
    }
}

/// Read the number that a text holds, where it is at most `max`.
pub fn parse_number(text: &str, max: u64) -> (result: Option<u64>)
    ensures
        match result {
            Some(value) => number(text@, max as nat) == Some(value as nat),
            None => number(text@, max as nat) is None,
        },
{
    let chars = text::chars_of(text);
    let start: usize = if chars.len() > 0 && chars[0] == '+' {
        1
    } else {
        0
    };
    let ghost digits = without_plus(text@);
    assert(digits =~= text@.skip(start as int));
    if chars.len() == start {
        return None;
    }
    let mut value: u64 = 0;
    assert(digits.take(0) =~= seq![]);
    for i in start..chars.len()
        invariant
            chars@ == text@,
            digits == without_plus(text@),
            digits == text@.skip(start as int),
            start <= chars@.len(),
            value <= max,
            value == digits_value(digits.take(i - start)),
            forall|j: int| 0 <= j < i - start ==> is_digit(#[trigger] digits[j]),
    {
        let c = chars[i];
        assert(c == digits[i - start]);
        if c < '0' || '9' < c {
            assert(!is_digit(digits[i - start]));
            return None;
        }
        let digit = c as u32 - '0' as u32;
        let next = value as u128 * 10 + digit as u128;
        assert(digits.take(i + 1 - start).drop_last() =~= digits.take(i - start));
        if next > max as u128 {
            proof {
                lemma_digits_value_grows(digits, i + 1 - start);
            }
            return None;
        }
        value = next as u64;
    }
    assert(digits.take(digits.len() as int) =~= digits);
    Some(value)
}

/// A number in decimal notation is read back as the number.
pub proof fn lemma_decimals_are_read_back(value: nat, max: nat)
    requires
        value <= max,
    ensures
        number(text::decimal(value), max) == Some(value),
{
    lemma_decimal_digits(value);
    let digits = text::decimal(value);
    assert(is_digit(digits[0]));
    assert(without_plus(digits) == digits);
}

/// Decimal notation holds digits, at least one, of the number's value.
pub proof fn lemma_decimal_digits(value: nat)
    ensures
        text::decimal(value).len() > 0,
        forall|i: int|
            0 <= i < text::decimal(value).len() ==> is_digit(#[trigger] text::decimal(value)[i]),
        digits_value(text::decimal(value)) == value,
    decreases value,
{
    let digits = text::decimal(value);
    if value < 10 {
        assert(digits.drop_last() =~= seq![]);
        assert(digits_value(digits.drop_last()) == 0);
    } else {
        lemma_decimal_digits(value / 10);
        assert(digits.drop_last() =~= text::decimal(value / 10));
    }
}

} // verus!
