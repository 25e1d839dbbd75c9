//! The value type produced by successful parsing and its error taxonomy.

use crate::digits::{
    all_decimal_digits, decimal_repr, digits_value, is_decimal_digit, lemma_decimal_repr,
};
use vstd::prelude::*;

verus! {

/// A record holding a single unsigned integer constrained to 0 through 255.
/// The range invariant is carried by the field type itself.
#[derive(Debug, PartialEq, Eq, Structural)]
pub struct Thing {
    pub number: u8,
}

/// Why a token failed to parse.
#[derive(Debug, Clone, Copy, PartialEq, Eq, Structural)]
pub enum ParseError {
    /// The input has zero length.
    EmptyInput,
    /// Some character of the input is not an ASCII decimal digit.
    InvalidDigit,
    /// All characters are digits, but the value denoted exceeds 255.
    Overflow,
}

/// What parsing a token must return: a `Thing` holding the denoted value
/// when the token is one or more ASCII decimal digits denoting at most 255,
/// and otherwise the error classifying the deviation.
pub open spec fn parse_result(s: Seq<char>) -> Result<Thing, ParseError> {
    if s.len() == 0 {
        Err(ParseError::EmptyInput)
    } else if !all_decimal_digits(s) {
        Err(ParseError::InvalidDigit)
    } else if digits_value(s) > 255 {
        Err(ParseError::Overflow)
    } else {
        Ok(Thing { number: digits_value(s) as u8 })
    }
}

impl Thing {
    /// Parse a token: the entire input must consist of ASCII decimal digits
    /// denoting an integer of at most 255. No surrounding whitespace, sign
    /// prefix, or radix prefix is accepted; leading zeros are.
    pub fn try_from(num_str: &str) -> (r: Result<Thing, ParseError>)
        ensures
            r == parse_result(num_str@),
            num_str@.len() == 0 ==> r == Err::<Thing, ParseError>(ParseError::EmptyInput),
            !all_decimal_digits(num_str@) && num_str@.len() > 0 ==> r == Err::<Thing, ParseError>(
                ParseError::InvalidDigit,
            ),
            all_decimal_digits(num_str@) && num_str@.len() > 0 && digits_value(num_str@) > 255
                ==> r == Err::<Thing, ParseError>(ParseError::Overflow),
            all_decimal_digits(num_str@) && num_str@.len() > 0 && digits_value(num_str@) <= 255
                ==> r == Ok::<Thing, ParseError>(
                Thing { number: digits_value(num_str@) as u8 },
            ),
    {
        let n = num_str.unicode_len();
        if n == 0 {
            return Err(ParseError::EmptyInput);
        }
        let mut i: usize = 0;
        while i < n
            invariant
                0 <= i <= n,
                n == num_str@.len(),
                forall|j: int| 0 <= j < i ==> is_decimal_digit(#[trigger] num_str@[j]),
            decreases n - i,
        {
            let c = num_str.get_char(i);
            if c < '0' || c > '9' {
                return Err(ParseError::InvalidDigit);
            }
            i += 1;
        }
        assert(all_decimal_digits(num_str@));
        let mut value: u16 = 0;
        let mut i: usize = 0;
        while i < n
            invariant
                0 <= i <= n,
                n == num_str@.len(),
                all_decimal_digits(num_str@),
                value <= 255,
                value == digits_value(num_str@.take(i as int)),
            decreases n - i,
        {
            let c = num_str.get_char(i);
            let d = (c as u32 - '0' as u32) as u16;
            let next = value * 10 + d;
            proof {
                assert(num_str@.take(i + 1).drop_last() =~= num_str@.take(i as int));
                assert(num_str@.take(i + 1).last() == num_str@[i as int]);
            }
            if next > 255 {
                proof {
                    crate::digits::lemma_digits_value_take_bound(num_str@, i + 1);
                }
                return Err(ParseError::Overflow);
            }
            value = next;
            i += 1;
        }
        proof {
            assert(num_str@.take(n as int) =~= num_str@);
        }
        Ok(Thing { number: value as u8 })
    }
}

impl Default for Thing {
    /// The default value holds zero.
    fn default() -> (r: Thing)
        ensures
            r.number == 0,
    {
        Thing { number: 0 }
    }
}

/// Round trip: for every integer in 0 through 255, parsing the canonical
/// decimal representation of that integer succeeds and yields a `Thing`
/// holding exactly that integer.
pub proof fn lemma_parse_round_trip(n: u8)
    ensures
        parse_result(decimal_repr(n as nat)) == Ok::<Thing, ParseError>(Thing { number: n }),
{
    lemma_decimal_repr(n as nat);
}

} // verus!
