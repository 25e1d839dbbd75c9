//! Decimal digit strings as sequences of characters: which characters count
//! as digits, the integer value a digit string denotes, and the canonical
//! decimal representation of a number.

use vstd::arithmetic::div_mod::lemma_fundamental_div_mod;
use vstd::prelude::*;

verus! {

/// A character is an ASCII decimal digit.
pub open spec fn is_decimal_digit(c: char) -> bool {
    '0' <= c && c <= '9'
}

/// The numeric value of a single digit character.
pub open spec fn digit_value(c: char) -> int {
    c as int - '0' as int
}

/// Every character of the sequence is an ASCII decimal digit.
pub open spec fn all_decimal_digits(s: Seq<char>) -> bool {
    forall|i: int| 0 <= i < s.len() ==> is_decimal_digit(#[trigger] s[i])
}

/// The integer a digit string denotes, most significant digit first.
/// Leading zeros are allowed and do not change the value.
pub open spec fn digits_value(s: Seq<char>) -> int
    decreases s.len(),
{
    if s.len() == 0 {
        0
    } else {
        digits_value(s.drop_last()) * 10 + digit_value(s.last())
    }
}

/// A digit string denotes a nonnegative integer.
pub proof fn lemma_digits_value_nonneg(s: Seq<char>)
    requires
        all_decimal_digits(s),
    ensures
        digits_value(s) >= 0,
    decreases s.len(),
{
    if s.len() > 0 {
        assert(all_decimal_digits(s.drop_last()));
        lemma_digits_value_nonneg(s.drop_last());
    }
}

/// The digit character denoting a value below ten.
pub open spec fn digit_char(d: nat) -> char {
    if d == 0 {
        '0'
    } else if d == 1 {
        '1'
    } else if d == 2 {
        '2'
    } else if d == 3 {
        '3'
    } else if d == 4 {
        '4'
    } else if d == 5 {
        '5'
    } else if d == 6 {
        '6'
    } else if d == 7 {
        '7'
    } else if d == 8 {
        '8'
    } else {
        '9'
    }
}

/// The canonical decimal representation of a number: most significant digit
/// first, no leading zeros (zero itself is written as the single digit `'0'`).
pub open spec fn decimal_repr(n: nat) -> Seq<char>
    decreases n,
{
    if n < 10 {
        seq![digit_char(n)]
    } else {
        decimal_repr(n / 10).push(digit_char(n % 10))
    }
}

/// The canonical decimal representation of a number is a nonempty digit
/// string denoting exactly that number.
pub proof fn lemma_decimal_repr(n: nat)
    ensures
        decimal_repr(n).len() >= 1,
        all_decimal_digits(decimal_repr(n)),
        digits_value(decimal_repr(n)) == n,
    decreases n,
{
    if n < 10 {
        assert(decimal_repr(n).drop_last() =~= Seq::<char>::empty());
        assert(digits_value(Seq::<char>::empty()) == 0);
    } else {
        lemma_decimal_repr(n / 10);
        assert(decimal_repr(n).drop_last() =~= decimal_repr(n / 10));
        lemma_fundamental_div_mod(n as int, 10);
    }
}

/// Extending a digit string to the right never decreases the value it
/// denotes: the digits already read are a lower bound for the whole string.
pub proof fn lemma_digits_value_take_bound(s: Seq<char>, i: int)
    requires
        all_decimal_digits(s),
        0 <= i <= s.len(),
    ensures
        digits_value(s) >= digits_value(s.take(i)),
    decreases s.len() - i,
{
    if i < s.len() {
        assert(s.take(i + 1).drop_last() =~= s.take(i));
        assert(s.take(i + 1).last() == s[i]);
        assert(all_decimal_digits(s.take(i)));
        lemma_digits_value_nonneg(s.take(i));
        lemma_digits_value_take_bound(s, i + 1);
    } else {
        assert(s.take(i) =~= s);
    }
}

} // verus!
