//! The size of a new partition, as the user writes it.

use vstd::prelude::*;
use bytesize::ByteSize;
use std::str::FromStr;
use crate::editor::{EditError, SizeSpec};
use crate::text::{
    all_digits, chars_of, decimal_value, digit_value, leading_spaces, parse_u64, parsed_u64,
    trailing_spaces, trim_chars, trimmed,
};

verus! {

/// The count of bytes that `ByteSize::from_str` reads from a text, `None` where it
/// reads none.
pub uninterp spec fn byte_size_of(text: Seq<char>) -> Option<u64>;

/// `<bytesize::ByteSize as FromStr>::from_str`: a number of bytes with an optional unit.
/// Text that is an unsigned 64-bit integer in decimal notation is read as that number.
#[verifier::external_body]
fn parse_byte_size(text: &Vec<char>) -> (bytes: Option<u64>)
    ensures
        bytes == byte_size_of(text@),
        parsed_u64(text@) matches Some(number) ==> bytes == Some(number),
{
    let text: String = text.iter().collect();
    match ByteSize::from_str(&text) {
        Ok(ByteSize(bytes)) => Some(bytes),
        Err(_) => None,
    }
}

/// The count of bytes that `text` denotes: an unsigned 64-bit integer in decimal
/// notation denotes its value, any other text what `ByteSize::from_str` reads from it.
pub open spec fn bytes_of(text: Seq<char>) -> Option<u64> {
    match parsed_u64(text) {
        Some(number) => Some(number),
        None => byte_size_of(text),
    }
}

/// The request that a quantity of bytes comes to on a device with the given sector
/// size: the whole sectors that the bytes fill. No quantity is no request.
pub open spec fn bytes_request(bytes: Option<u64>, sector_size: u16) -> Result<
    SizeSpec,
    EditError,
> {
    match bytes {
        Some(count) => Ok(SizeSpec::Sectors(count / (sector_size as u64))),
        None => Err(EditError::ParseSize),
    }
}

/// The request that `text` makes, where `bytes` is what its trimmed form denotes as a
/// quantity of bytes.
///
/// A lone `*` asks for the whole region. Text that ends in `s` or `S` gives, before
/// that letter, a count of sectors. Any other text is a quantity of bytes.
pub open spec fn size_request(text: Seq<char>, sector_size: u16, bytes: Option<u64>) -> Result<
    SizeSpec,
    EditError,
> {
    let input = trimmed(text);
    if input == seq!['*'] {
        Ok(SizeSpec::All)
    } else if input.len() > 0 && (input.last() == 's' || input.last() == 'S') {
        match parsed_u64(trimmed(input.drop_last())) {
            Some(count) => Ok(SizeSpec::Sectors(count)),
            None => Err(EditError::ParseSize),
        }
    } else {
        bytes_request(bytes, sector_size)
    }
}

/// Turns a quantity of bytes into a request for whole sectors.
pub fn size_of_bytes(bytes: Option<u64>, sector_size: u16) -> (request: Result<
    SizeSpec,
    EditError,
>)
    requires
        sector_size > 0,
    ensures
        request == bytes_request(bytes, sector_size),
{
    match bytes {
        Some(count) => Ok(SizeSpec::Sectors(count / (sector_size as u64))),
        None => Err(EditError::ParseSize),
    }
}

/// A decimal number consists of a plus sign and digits: it is neither a lone `*` nor
/// does it end in `s` or `S`, so that it is read as a quantity of bytes, which is its
/// value, and asks for the whole sectors that so many bytes fill.
pub proof fn lemma_plain_number(text: Seq<char>, sector_size: u16)
    requires
        parsed_u64(trimmed(text)) is Some,
    ensures
        size_request(text, sector_size, bytes_of(trimmed(text))) == Ok::<SizeSpec, EditError>(
            SizeSpec::Sectors(parsed_u64(trimmed(text)).unwrap() / (sector_size as u64)),
        ),
{
    let input = trimmed(text);
    let digits = if input.len() > 0 && input[0] == '+' {
        input.drop_first()
    } else {
        input
    };
    assert(digits.len() > 0);
    assert(digit_value(digits.last()) is Some);
    assert(digits.last() == input.last());
    assert(digit_value(digits[0]) is Some);
    if input == seq!['*'] {
        assert(input[0] == '*');
        assert(digits[0] == '*');
    }
}

/// The text `0` asks for no sectors at all.
pub proof fn lemma_zero(sector_size: u16)
    requires
        sector_size > 0,
    ensures
        size_request("0"@, sector_size, bytes_of(trimmed("0"@))) == Ok::<SizeSpec, EditError>(
            SizeSpec::Sectors(0),
        ),
{
    reveal_strlit("0");
    let text = "0"@;
    assert(text =~= seq!['0']);
    assert(leading_spaces(text) == 0);
    assert(trailing_spaces(text) == 0);
    assert(trimmed(text) =~= text);
    assert(text.drop_last() =~= Seq::<char>::empty());
    assert(decimal_value(text.drop_last()) == 0);
    assert(digit_value('0') == Some(0nat));
    assert(decimal_value(text) == 0);
    assert(all_digits(text));
    assert(parsed_u64(text) == Some(0u64));
    lemma_plain_number(text, sector_size);
}

/// Reads the size that the user asks for.
pub fn parse_size(text: &str, sector_size: u16) -> (request: Result<SizeSpec, EditError>)
    requires
        sector_size > 0,
    ensures
        request == size_request(text@, sector_size, bytes_of(trimmed(text@))),
        parsed_u64(trimmed(text@)) matches Some(number) ==> request == Ok::<SizeSpec, EditError>(
            SizeSpec::Sectors(number / (sector_size as u64)),
        ),
{
    proof {
        if parsed_u64(trimmed(text@)) is Some {
            lemma_plain_number(text@, sector_size);
        }
    }
    let chars = chars_of(text);
    let input = trim_chars(&chars);
    if input.len() == 1 && input[0] == '*' {
        assert(input@ =~= seq!['*']);
        return Ok(SizeSpec::All);
    }
    if input.len() > 0 && (input[input.len() - 1] == 's' || input[input.len() - 1] == 'S') {
        let mut count = input;
        count.pop();
        let digits = trim_chars(&count);
        return match parse_u64(&digits) {
            Some(sectors) => Ok(SizeSpec::Sectors(sectors)),
            None => Err(EditError::ParseSize),
        };
    }
    size_of_bytes(parse_byte_size(&input), sector_size)
}

} // verus!
