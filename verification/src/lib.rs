//! Compact fixed-size binary encodings for protocol fields: a one-byte
//! minifloat-style magnitude numeral with floor/ceil rounding and saturation,
//! and two fixed-width identifier types with big-endian byte packing and
//! hexadecimal text round-tripping.

pub mod ctf;
pub mod error;
pub mod hexstr;
pub mod uid;
pub mod vid;

pub use crate::ctf::Ctf;
pub use crate::error::Error;
pub use crate::uid::Uid;
pub use crate::vid::Vid;
