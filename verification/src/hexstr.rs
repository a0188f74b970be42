//! Hexadecimal text for the identifier types: a specification of the digit
//! encoding, and the trusted calls into the `hex` crate and the formatter
//! that produce and consume such text.

use crate::error::Error;
use vstd::arithmetic::power::pow;
use vstd::prelude::*;

verus! {

/// Numeric value of an ASCII hexadecimal digit of either case; 16 marks a
/// character that is no such digit.
pub open spec fn hex_digit_value(c: char) -> u8 {
    if '0' as u32 <= c as u32 && c as u32 <= '9' as u32 {
        (c as u32 - '0' as u32) as u8
    } else if 'a' as u32 <= c as u32 && c as u32 <= 'f' as u32 {
        (c as u32 - 'a' as u32 + 10) as u8
    } else if 'A' as u32 <= c as u32 && c as u32 <= 'F' as u32 {
        (c as u32 - 'A' as u32 + 10) as u8
    } else {
        16
    }
}

/// The character is an ASCII hexadecimal digit of either case.
pub open spec fn is_hex_digit(c: char) -> bool {
    hex_digit_value(c) < 16
}

/// The text is valid hexadecimal: an even number of characters, each a
/// hexadecimal digit.
pub open spec fn is_valid_hex(s: Seq<char>) -> bool {
    s.len() % 2 == 0 && forall|i: int| 0 <= i < s.len() ==> is_hex_digit(#[trigger] s[i])
}

/// Bytes that valid hexadecimal text decodes to: one byte per digit pair,
/// high digit first.
pub open spec fn spec_hex_decode(s: Seq<char>) -> Seq<u8> {
    Seq::new(
        s.len() / 2,
        |i: int| (hex_digit_value(s[2 * i]) * 16 + hex_digit_value(s[2 * i + 1])) as u8,
    )
}

/// Uppercase hexadecimal digit for a value below 16.
pub open spec fn spec_hex_upper_digit(d: u8) -> char {
    if d < 10 {
        ((d + '0' as u32) as u32) as char
    } else {
        ((d - 10 + 'A' as u32) as u32) as char
    }
}

/// The `n` uppercase hexadecimal digits of `v`, most significant first,
/// zero-padded on the left.
pub open spec fn spec_hex_upper(v: nat, n: nat) -> Seq<char> {
    Seq::new(n, |i: int| spec_hex_upper_digit(((v as int / pow(16, (n - 1 - i) as nat)) % 16) as u8))
}

/// Relies on `hex::decode`: pairs of hexadecimal digits of either case
/// become bytes, high digit first; an odd length or a character that is no
/// hexadecimal digit is an error, reported here as the decode failure.
#[verifier::external_body]
pub(crate) fn hex_decode(s: &str) -> (r: Result<Vec<u8>, Error>)
    ensures
        is_valid_hex(s@) ==> (r is Ok && r->Ok_0@ == spec_hex_decode(s@)),
        !is_valid_hex(s@) ==> (r is Err && r->Err_0 is Decode),
{
    hex::decode(s).map_err(|e| Error::Decode(format!("{}", e)))
}

/// Relies on the formatter: `{:016X}` renders exactly the 16 uppercase
/// hexadecimal digits of a 64-bit value, zero-padded, most significant
/// digit first.
#[verifier::external_body]
pub(crate) fn format_u64_hex(v: u64) -> (r: String)
    ensures
        r@ == spec_hex_upper(v as nat, 16),
{
    format!("{:016X}", v)
}

/// Relies on the formatter: `{:04X}` renders exactly the 4 uppercase
/// hexadecimal digits of a 16-bit value, zero-padded, most significant
/// digit first.
#[verifier::external_body]
pub(crate) fn format_u16_hex(v: u16) -> (r: String)
    ensures
        r@ == spec_hex_upper(v as nat, 4),
{
    format!("{:04X}", v)
}

} // verus!
