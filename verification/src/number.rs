//! Numbers in text.

use vstd::prelude::*;

verus! {

/// A decimal digit.
pub open spec fn digit(value: nat) -> char {
    if value == 0 {
        '0'
    } else if value == 1 {
        '1'
    } else if value == 2 {
        '2'
    } else if value == 3 {
        '3'
    } else if value == 4 {
        '4'
    } else if value == 5 {
        '5'
    } else if value == 6 {
        '6'
    } else if value == 7 {
        '7'
    } else if value == 8 {
        '8'
    } else {
        '9'
    }
}

/// The number in decimal notation, without leading zeros.
pub open spec fn decimal(number: nat) -> Seq<char>
    decreases number,
{
    if number < 10 {
        seq![digit(number)]
    } else {
        decimal(number / 10).push(digit(number % 10))
    }
}

/// Appends the number in decimal notation.
pub fn push_decimal(text: &mut String, number: u64)
    ensures
        final(text)@ == old(text)@ + decimal(number as nat),
    decreases number,
{
    let ghost before = text@;
    if number >= 10 {
        push_decimal(text, number / 10);
    }
    let last = number % 10;
    let c = if last == 0 {
        '0'
    } else if last == 1 {
        '1'
    } else if last == 2 {
        '2'
    } else if last == 3 {
        '3'
    } else if last == 4 {
        '4'
    } else if last == 5 {
        '5'
    } else if last == 6 {
        '6'
    } else if last == 7 {
        '7'
    } else if last == 8 {
        '8'
    } else {
        '9'
    };
    text.push(c);
    assert(text@ =~= before + decimal(number as nat));
}

/// Whether the character is a decimal digit.
pub open spec fn is_digit(c: char) -> bool {
    '0' <= c <= '9'
}

/// The number that the digits denote.
pub open spec fn digits_value(digits: Seq<char>) -> nat
    decreases digits.len(),
{
    if digits.len() == 0 {
        0
    } else {
        digits_value(digits.drop_last()) * 10 + (digits.last() as nat - '0' as nat) as nat
    }
}

/// The digits of the number in the text, which may begin with a plus sign.
pub open spec fn number_digits(text: Seq<char>) -> Seq<char> {
    if text.len() > 0 && text[0] == '+' {
        text.drop_first()
    } else {
        text
    }
}

/// The number in the text: an optional plus sign and digits, and a value that fits.
pub open spec fn number_in(text: Seq<char>) -> Option<u64> {
    let digits = number_digits(text);
    if digits.len() > 0 && (forall|k: int| 0 <= k < digits.len() ==> is_digit(#[trigger] digits[k]))
        && digits_value(digits) <= u64::MAX {
        Some(digits_value(digits) as u64)
    } else {
        None
    }
}

/// Reads the number in the text, if it holds one and nothing else.
pub fn parse_number(text: &str) -> (number: Option<u64>)
    ensures
        number == number_in(text@),
{
    let ghost digits = number_digits(text@);
    let ghost skipped: int = text@.len() - digits.len();
    let mut first: bool = true;
    let mut any: bool = false;
    let mut well_formed: bool = true;
    let mut too_large: bool = false;
    let mut value: u64 = 0;
    for c in it: text.chars()
        invariant
            it.seq() == text@,
            digits == number_digits(text@),
            skipped == text@.len() - digits.len(),
            0 <= skipped <= 1,
            first == (it.index() == 0),
            any == (it.index() > skipped),
            skipped == 1 ==> text@.len() > 0 && text@[0] == '+',
            skipped == 0 ==> digits == text@ && (text@.len() > 0 ==> text@[0] != '+'),
            forall|k: int| 0 <= k < digits.len() ==> (#[trigger] digits[k]) == text@[k + skipped],
            any && well_formed ==> (forall|k: int|
                0 <= k < it.index() - skipped ==> is_digit(#[trigger] digits[k])),
            !well_formed ==> exists|k: int|
                0 <= k < it.index() - skipped && !is_digit(#[trigger] digits[k]),
            well_formed && any && !too_large ==> value == digits_value(
                digits.take(it.index() - skipped),
            ),
            well_formed && any && too_large ==> digits_value(digits.take(it.index() - skipped))
                > u64::MAX,
            !any ==> value == 0 && !too_large && well_formed,
    {
        let ghost ix = it.index() as int;
        if first && c == '+' {
            first = false;
        } else {
            proof {
                let at = ix - skipped;
                assert(at >= 0);
                assert(digits[at] == c);
                assert(digits.take(at + 1).drop_last() =~= digits.take(at));
                assert(digits.take(at + 1).last() == c);
                assert(digits.take(0) =~= Seq::empty());
            }
            first = false;
            any = true;
            if '0' <= c && c <= '9' {
                let d: u64 = (c as u64) - ('0' as u64);
                let ghost at = ix - skipped;
                let ghost upto = digits.take(at + 1);
                assert(d == c as nat - '0' as nat);
                assert(digits_value(upto) == digits_value(digits.take(at)) * 10 + d);
                if value > (u64::MAX - d) / 10 {
                    too_large = true;
                } else {
                    value = value * 10 + d;
                }
                assert(at == 0 ==> digits_value(digits.take(at)) == 0);
                assert(well_formed && !too_large ==> value == digits_value(upto));
            } else {
                well_formed = false;
                assert(!is_digit(digits[ix - skipped]));
            }
        }
    }
    assert(digits.take(digits.len() as int) =~= digits);
    if any && well_formed && !too_large {
        Some(value)
    } else {
        None
    }
}

} // verus!
