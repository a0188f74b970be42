//! 64-bit identifier handle: an opaque value packed as 8 big-endian bytes
//! and rendered as 16 uppercase hexadecimal characters.

use crate::error::Error;
use crate::hexstr::{format_u64_hex, hex_decode, is_valid_hex, spec_hex_decode, spec_hex_upper};
use vstd::prelude::*;

verus! {

/// 64-bit identifier. Its default is a fixed sentinel pattern.
#[derive(Copy, Clone, Debug, Eq, PartialEq, Hash, Structural)]
pub struct Uid(u64);

impl View for Uid {
    type V = u64;

    closed spec fn view(&self) -> u64 {
        self.0
    }
}

/// Big-endian bytes of a 64-bit value, most significant byte first.
pub open spec fn spec_u64_be_bytes(v: u64) -> Seq<u8> {
    Seq::new(8, |i: int| (v >> ((56 - 8 * i) as u64)) as u8)
}

/// The 64-bit value held in 8 big-endian bytes.
pub open spec fn spec_u64_from_be_bytes(b: Seq<u8>) -> u64
    recommends
        b.len() == 8,
{
    ((b[0] as u64) << 56) | ((b[1] as u64) << 48) | ((b[2] as u64) << 40) | ((b[3] as u64) << 32)
        | ((b[4] as u64) << 24) | ((b[5] as u64) << 16) | ((b[6] as u64) << 8) | (b[7] as u64)
}

impl Uid {
    /// Packs the identifier into its 8-byte big-endian wire form.
    pub fn pack(&self) -> (b: [u8; 8])
        ensures
            b@ == spec_u64_be_bytes(self@),
    {
        let v = self.0;
        let b = [
            #[verifier::truncate] ((v >> 56u64) as u8),
            #[verifier::truncate] ((v >> 48u64) as u8),
            #[verifier::truncate] ((v >> 40u64) as u8),
            #[verifier::truncate] ((v >> 32u64) as u8),
            #[verifier::truncate] ((v >> 24u64) as u8),
            #[verifier::truncate] ((v >> 16u64) as u8),
            #[verifier::truncate] ((v >> 8u64) as u8),
            #[verifier::truncate] (v as u8),
        ];
        proof {
            // The last byte keeps the value unshifted.
            assert(v >> 0u64 == v) by (bit_vector);
            assert(b@ =~= spec_u64_be_bytes(v));
        }
        b
    }

    /// Rebuilds an identifier from its 8-byte big-endian wire form; every
    /// byte pattern is a valid identifier.
    pub fn unpack(src: &[u8; 8]) -> (r: Uid)
        ensures
            r@ == spec_u64_from_be_bytes(src@),
    {
        let v = ((src[0] as u64) << 56) | ((src[1] as u64) << 48) | ((src[2] as u64) << 40) | ((
        src[3] as u64) << 32) | ((src[4] as u64) << 24) | ((src[5] as u64) << 16) | ((
        src[6] as u64) << 8) | (src[7] as u64);
        Uid(v)
    }

    /// Parses an identifier from 16 hexadecimal characters of either case.
    /// Text that is not hexadecimal is a decode failure; hexadecimal text of
    /// any other length is a conversion failure.
    pub fn try_from(s: &str) -> (r: Result<Uid, Error>)
        ensures
            is_valid_hex(s@) && s@.len() == 16 ==> (r matches Ok(u) && u@
                == spec_u64_from_be_bytes(spec_hex_decode(s@))),
            !is_valid_hex(s@) ==> (r matches Err(e) && e is Decode),
            is_valid_hex(s@) && s@.len() != 16 ==> (r matches Err(e) && e is Convert),
    {
        let bytes = match hex_decode(s) {
            Ok(b) => b,
            Err(e) => {
                return Err(e);
            },
        };
        if bytes.len() != 8 {
            return Err(
                Error::Convert("the hexadecimal text of a 64-bit identifier has 16 characters".to_owned()),
            );
        }
        let arr: [u8; 8] = [
            bytes[0],
            bytes[1],
            bytes[2],
            bytes[3],
            bytes[4],
            bytes[5],
            bytes[6],
            bytes[7],
        ];
        proof {
            assert(arr@ =~= spec_hex_decode(s@));
        }
        Ok(Uid::unpack(&arr))
    }

    /// 16-character uppercase hexadecimal rendering of the identifier.
    pub fn to_hex(&self) -> (r: String)
        ensures
            r@ == spec_hex_upper(self@ as nat, 16),
    {
        format_u64_hex(self.0)
    }
}

impl Default for Uid {
    /// The fixed sentinel identifier.
    fn default() -> (r: Self)
        ensures
            r@ == 0xDEADBEEF8BADF00Du64,
    {
        Uid(0xDEADBEEF8BADF00D)
    }
}

impl From<u64> for Uid {
    /// Wraps the unsigned width losslessly.
    fn from(value: u64) -> (r: Self)
        ensures
            r@ == value,
    {
        Uid(value)
    }
}

impl vstd::std_specs::convert::FromSpecImpl<u64> for Uid {
    open spec fn obeys_from_spec() -> bool {
        true
    }

    closed spec fn from_spec(v: u64) -> Uid {
        Uid(v)
    }
}

impl From<i64> for Uid {
    /// Reinterprets the signed width's bits losslessly.
    fn from(value: i64) -> (r: Self)
        ensures
            r@ == value as u64,
    {
        Uid(value as u64)
    }
}

impl vstd::std_specs::convert::FromSpecImpl<i64> for Uid {
    open spec fn obeys_from_spec() -> bool {
        true
    }

    closed spec fn from_spec(v: i64) -> Uid {
        Uid(v as u64)
    }
}

impl Uid {
    /// The identifier's value as its underlying unsigned width.
    pub fn to_u64(self) -> (r: u64)
        ensures
            r == self@,
    {
        self.0
    }

    /// The identifier's value reinterpreted as the signed width.
    pub fn to_i64(self) -> (r: i64)
        ensures
            r == self@ as i64,
    {
        self.0 as i64
    }
}

} // verus!
