//! Numbers as the table shows them.

use vstd::prelude::*;

verus! {

/// The character of the decimal digit `digit`.
pub open spec fn digit_char(digit: nat) -> char {
    if digit == 0 {
        '0'
    } else if digit == 1 {
        '1'
    } else if digit == 2 {
        '2'
    } else if digit == 3 {
        '3'
    } else if digit == 4 {
        '4'
    } else if digit == 5 {
        '5'
    } else if digit == 6 {
        '6'
    } else if digit == 7 {
        '7'
    } else if digit == 8 {
        '8'
    } else {
        '9'
    }
}

/// `number` in decimal notation, without leading zeros.
pub open spec fn decimal_text(number: nat) -> Seq<char>
    decreases number,
{
    if number < 10 {
        seq![digit_char(number)]
    } else {
        decimal_text(number / 10).push(digit_char(number % 10))
    }
}

/// A count of bytes as `bytesize::to_string` writes it with binary units.
pub uninterp spec fn size_text(bytes: u64) -> Seq<char>;

/// `itoap::write_to_string` on an empty string: the number in decimal notation.
#[verifier::external_body]
pub(crate) fn itoa(number: u64) -> (text: String)
    ensures
        text@ == decimal_text(number as nat),
{
    let mut text = String::new();
    itoap::write_to_string(&mut text, number);
    text
}

/// `bytesize::to_string` with binary units.
#[verifier::external_body]
pub(crate) fn format_size(size: u64) -> (text: String)
    ensures
        text@ == size_text(size),
{
    bytesize::to_string(size, true)
}

} // verus!
