//! 16-bit identifier handle: an opaque value packed as 2 big-endian bytes
//! and rendered as 4 uppercase hexadecimal characters.

use crate::error::Error;
use crate::hexstr::{format_u16_hex, hex_decode, is_valid_hex, spec_hex_decode, spec_hex_upper};
use vstd::prelude::*;

verus! {

/// 16-bit identifier. Its default is the all-ones sentinel.
#[derive(Copy, Clone, Debug, Eq, PartialEq, Hash, Structural)]
pub struct Vid(u16);

impl View for Vid {
    type V = u16;

    closed spec fn view(&self) -> u16 {
        self.0
    }
}

/// Big-endian bytes of a 16-bit value, most significant byte first.
pub open spec fn spec_u16_be_bytes(v: u16) -> Seq<u8> {
    Seq::new(2, |i: int| (v >> ((8 - 8 * i) as u16)) as u8)
}

/// The 16-bit value held in 2 big-endian bytes.
pub open spec fn spec_u16_from_be_bytes(b: Seq<u8>) -> u16
    recommends
        b.len() == 2,
{
    ((b[0] as u16) << 8) | (b[1] as u16)
}

impl Vid {
    /// Packs the identifier into its 2-byte big-endian wire form.
    pub fn pack(&self) -> (b: [u8; 2])
        ensures
            b@ == spec_u16_be_bytes(self@),
    {
        let v = self.0;
        let b = [#[verifier::truncate] ((v >> 8u16) as u8), #[verifier::truncate] (v as u8)];
        proof {
            // The last byte keeps the value unshifted.
            assert(v >> 0u16 == v) by (bit_vector);
            assert(b@ =~= spec_u16_be_bytes(v));
        }
        b
    }

    /// Rebuilds an identifier from its 2-byte big-endian wire form; every
    /// byte pattern is a valid identifier.
    pub fn unpack(src: &[u8; 2]) -> (r: Vid)
        ensures
            r@ == spec_u16_from_be_bytes(src@),
    {
        let v = ((src[0] as u16) << 8) | (src[1] as u16);
        Vid(v)
    }

    /// Parses an identifier from 4 hexadecimal characters of either case.
    /// Text that is not hexadecimal is a decode failure; hexadecimal text of
    /// any other length is a conversion failure.
    pub fn try_from(s: &str) -> (r: Result<Vid, Error>)
        ensures
            is_valid_hex(s@) && s@.len() == 4 ==> (r matches Ok(u) && u@
                == spec_u16_from_be_bytes(spec_hex_decode(s@))),
            !is_valid_hex(s@) ==> (r matches Err(e) && e is Decode),
            is_valid_hex(s@) && s@.len() != 4 ==> (r matches Err(e) && e is Convert),
    {
        let bytes = match hex_decode(s) {
            Ok(b) => b,
            Err(e) => {
                return Err(e);
            },
        };
        if bytes.len() != 2 {
            return Err(
                Error::Convert("the hexadecimal text of a 16-bit identifier has 4 characters".to_owned()),
            );
        }
        let arr: [u8; 2] = [bytes[0], bytes[1]];
        proof {
            assert(arr@ =~= spec_hex_decode(s@));
        }
        Ok(Vid::unpack(&arr))
    }

    /// 4-character uppercase hexadecimal rendering of the identifier.
    pub fn to_hex(&self) -> (r: String)
        ensures
            r@ == spec_hex_upper(self@ as nat, 4),
    {
        format_u16_hex(self.0)
    }
}

impl Default for Vid {
    /// The all-ones sentinel identifier.
    fn default() -> (r: Self)
        ensures
            r@ == 0xFFFFu16,
    {
        Vid(0xFFFF)
    }
}

impl From<u16> for Vid {
    /// Wraps the unsigned width losslessly.
    fn from(value: u16) -> (r: Self)
        ensures
            r@ == value,
    {
        Vid(value)
    }
}

impl vstd::std_specs::convert::FromSpecImpl<u16> for Vid {
    open spec fn obeys_from_spec() -> bool {
        true
    }

    closed spec fn from_spec(v: u16) -> Vid {
        Vid(v)
    }
}

impl From<i16> for Vid {
    /// Reinterprets the signed width's bits losslessly.
    fn from(value: i16) -> (r: Self)
        ensures
            r@ == value as u16,
    {
        Vid(value as u16)
    }
}

impl vstd::std_specs::convert::FromSpecImpl<i16> for Vid {
    open spec fn obeys_from_spec() -> bool {
        true
    }

    closed spec fn from_spec(v: i16) -> Vid {
        Vid(v as u16)
    }
}

impl Vid {
    /// The identifier's value as its underlying unsigned width.
    pub fn to_u16(self) -> (r: u16)
        ensures
            r == self@,
    {
        self.0
    }

    /// The identifier's value reinterpreted as the signed width.
    pub fn to_i16(self) -> (r: i16)
        ensures
            r == self@ as i16,
    {
        self.0 as i16
    }
}

} // verus!
