//! Values typed into the settings application's text fields.

use vstd::prelude::*;

use crate::accounts::{all_digits, decimal_value, is_digit, lemma_decimal_value_grows};
use crate::text::chars_of;

verus! {

/// The sign and the digits of an integer literal: one optional leading `+`
/// or `-`, then the rest.
pub open spec fn sign_and_digits(text: Seq<char>) -> (bool, Seq<char>) {
    if text.len() > 0 && text[0] == '-' {
        (true, text.drop_first())
    } else if text.len() > 0 && text[0] == '+' {
        (false, text.drop_first())
    } else {
        (false, text)
    }
}

/// `i64::from_str`: an optional sign, then one or more ASCII digits whose
/// signed value fits in 64 bits.
pub open spec fn parse_i64(text: Seq<char>) -> Option<i64> {
    let negative = sign_and_digits(text).0;
    let digits = sign_and_digits(text).1;
    if digits.len() == 0 || !all_digits(digits) {
        None
    } else {
        let value = if negative { -decimal_value(digits) } else { decimal_value(digits) };
        if i64::MIN <= value <= i64::MAX {
            Some(value as i64)
        } else {
            None
        }
    }
}

/// Parses a decimal `i64` the way `str::parse::<i64>` does.
pub fn parse_decimal_i64(text: &[char]) -> (value: Option<i64>)
    ensures
        value == parse_i64(text@),
{
    let negative = text.len() > 0 && text[0] == '-';
    let start: usize = if text.len() > 0 && (text[0] == '-' || text[0] == '+') { 1 } else { 0 };
    let ghost digits = sign_and_digits(text@).1;
    assert(digits == text@.subrange(start as int, text@.len() as int));
    assert(negative == sign_and_digits(text@).0);
    if start == text.len() {
        return None;
    }
    let limit: u128 = if negative { 9_223_372_036_854_775_808 } else { 9_223_372_036_854_775_807 };
    let mut magnitude: u128 = 0;
    let mut i: usize = start;
    while i < text.len()
        invariant
            start <= i <= text@.len(),
            digits == sign_and_digits(text@).1,
            negative == sign_and_digits(text@).0,
            digits == text@.subrange(start as int, text@.len() as int),
            forall|k: int| start <= k < i ==> is_digit(#[trigger] text@[k]),
            magnitude as int == decimal_value(digits.take(i - start)),
            magnitude <= limit,
            limit == (if negative { 9_223_372_036_854_775_808u128 } else { 9_223_372_036_854_775_807u128 }),
        decreases text@.len() - i,
    {
        let c = text[i];
        assert(digits[i - start] == text@[i as int]);
        if !('0' <= c && c <= '9') {
            assert(!is_digit(digits[i - start]));
            assert(!all_digits(digits));
            return None;
        }
        let d: u128 = (c as u32 - '0' as u32) as u128;
        assert(digits.take(i - start + 1).drop_last() == digits.take(i - start));
        assert(digits.take(i - start + 1).last() == c);
        magnitude = magnitude * 10 + d;
        assert(magnitude as int == decimal_value(digits.take(i - start + 1)));
        if magnitude > limit {
            proof {
                if all_digits(digits) {
                    lemma_decimal_value_grows(digits, i - start + 1);
                }
            }
            return None;
        }
        i = i + 1;
    }
    assert(digits.take(i - start) == digits);
    assert(all_digits(digits));
    if negative {
        if magnitude == 9_223_372_036_854_775_808 {
            Some(i64::MIN)
        } else {
            let m: i64 = magnitude as i64;
            Some(-m)
        }
    } else {
        Some(magnitude as i64)
    }
}

/// The value an integer field accepts from its text: the text must parse
/// as an `i64` (as `str::parse` reads it) and lie within `min..=max`, or at
/// least `min` when there is no `max`. Anything else leaves the setting as
/// it was.
pub fn integer_input(input: &str, min: i64, max: Option<i64>) -> (accepted: Option<i64>)
    ensures
        accepted == match parse_i64(input@) {
            Some(value) => if value >= min && (max is None || value <= max->0) {
                Some(value)
            } else {
                None
            },
            None => None,
        },
{
    let chars = chars_of(input);
    match parse_decimal_i64(&chars) {
        Some(value) => {
            let in_range = match max {
                Some(max) => value <= max,
                None => true,
            };
            if value >= min && in_range {
                Some(value)
            } else {
                None
            }
        },
        None => None,
    }
}

} // verus!
