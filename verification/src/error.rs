use vstd::prelude::*;

verus! {

/// Failure kinds reported while parsing an identifier from hexadecimal text:
/// the text is not valid hexadecimal, the decoded bytes do not have the fixed
/// width, or the fixed byte array could not be reassembled into a value.
#[derive(Clone, Debug, Eq, PartialEq)]
pub enum Error {
    Decode(String),
    Convert(String),
    Unpack(String),
}

} // verus!
