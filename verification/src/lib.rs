//! Streaming framer and deframer for a delimited binary protocol.
//!
//! A frame on the wire is `STX | LEN | BODY | CRC | ETX`: two fixed marker
//! bytes, the body length as a big-endian `u16`, the body itself, the
//! CRC-16/IBM-3740 checksum of the body as a big-endian `u16`, and two fixed
//! end-marker bytes.
use vstd::prelude::*;

pub mod buffer;
pub mod codec;
pub mod crc;
pub mod laws;
pub mod parser;
pub mod slices;
pub mod wire;

pub use codec::{Decoder, Encoder};
pub use parser::Parser;

verus! {

/// Start marker of a frame.
pub const STX: [u8; 2] = [0xeb, 0x90];

/// End marker of a frame.
pub const ETX: [u8; 2] = [0xc5, 0x79];

/// The start marker read as a big-endian number.
pub const STX_WORD: u16 = 0xeb90;

/// The end marker read as a big-endian number.
pub const ETX_WORD: u16 = 0xc579;

/// Width of a marker.
pub const STX_SIZE: usize = 2;

/// Width of the length field.
pub const LEN_SIZE: usize = 2;

/// Width of the checksum field.
pub const CRC_SIZE: usize = 2;

/// Bytes in front of the body: start marker and length field.
pub const HEADER_SIZE: usize = 4;

/// Bytes behind the body: checksum and end marker.
pub const FOOTER_SIZE: usize = 4;

} // verus!
