//! Laws of numbers in text.

use vstd::prelude::*;

verus! {

use crate::number::{decimal, digits_value, is_digit, number_digits, number_in};

/// Digits are read in decimal notation: each one more makes ten times as much of those before.
pub proof fn law_decimal_places(digits: Seq<char>, last: char)
    requires
        '0' <= last <= '9',
    ensures
        digits_value(Seq::<char>::empty()) == 0,
        digits_value(digits.push(last)) == 10 * digits_value(digits) + (last as int - '0' as int),
        is_digit(last),
{
    assert(digits.push(last).drop_last() =~= digits);
}

/// The decimal notation of a number has no zero at its beginning, but for that of zero.
pub proof fn law_no_leading_zero(number: nat)
    ensures
        decimal(number).len() > 0,
        decimal(number)[0] == '0' <==> number == 0,
        number == 0 ==> decimal(number).len() == 1,
    decreases number,
{
    if number >= 10 {
        law_no_leading_zero(number / 10);
        assert(decimal(number)[0] == decimal(number / 10)[0]);
    }
}

/// A text that begins with a digit holds a number if and only if it is made of digits alone and
/// their value is below 2^64; the number is that value. A plus sign before the digits makes no
/// difference, and a text without digits holds no number.
pub proof fn law_number_in_text(digits: Seq<char>)
    ensures
        digits.len() > 0 && digits[0] != '+' ==> {
            &&& number_in(digits) is Some <==> (forall|k: int|
                0 <= k < digits.len() ==> '0' <= #[trigger] digits[k] <= '9') && digits_value(digits)
                < 0x1_0000_0000_0000_0000
            &&& number_in(digits) is Some ==> number_in(digits)->0 == digits_value(digits)
        },
        digits.len() > 0 && digits[0] != '+' ==> number_in(seq!['+'] + digits) == number_in(digits),
        digits.len() > 0 && digits[0] == '+' ==> number_in(seq!['+'] + digits) is None,
        number_in(seq!['+']) is None,
        number_in(Seq::empty()) is None,
{
    let signed = seq!['+'] + digits;
    assert(signed.drop_first() =~= digits);
    assert(seq!['+'].drop_first() =~= Seq::empty());
    assert(number_digits(signed) == digits);
    if digits.len() > 0 && digits[0] != '+' {
        assert(number_digits(digits) == digits);
        if forall|k: int| 0 <= k < digits.len() ==> '0' <= #[trigger] digits[k] <= '9' {
            assert forall|k: int| 0 <= k < digits.len() implies is_digit(#[trigger] digits[k]) by {}
        }
        if forall|k: int| 0 <= k < digits.len() ==> is_digit(#[trigger] digits[k]) {
            assert forall|k: int| 0 <= k < digits.len() implies '0' <= #[trigger] digits[k]
                <= '9' by {
                assert(is_digit(digits[k]));
            }
        }
    }
    if digits.len() > 0 && digits[0] == '+' {
        assert(!is_digit(digits[0]));
    }
}

} // verus!
