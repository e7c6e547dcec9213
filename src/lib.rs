//! Binary framing on byte streams: zero-terminated byte strings and
//! length-prefixed packets whose length is a fixed-width integer in a chosen
//! byte order.
use vstd::prelude::*;

pub mod bytes0;
pub mod cstring;
pub mod length_prefixed;
pub mod wire;

verus! {

/// Why reading or writing a frame failed.
#[derive(Clone, Copy, Debug, PartialEq, Eq, Structural)]
pub enum CodecError {
    /// The input ended before the whole frame was read.
    UnexpectedEof,
    /// The payload is too long for the chosen width of length field.
    Overflow,
    /// The declared payload length is above the ceiling the caller set.
    TooLong,
}

} // verus!
