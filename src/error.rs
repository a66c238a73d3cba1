//! Failures shared by every codec.
use vstd::prelude::*;

verus! {

/// Why a decode attempt did not produce a frame.
#[derive(Debug, Clone, Copy, PartialEq, Eq, Structural)]
pub enum RespError {
    /// The bytes do not have the shape that the frame kind requires.
    InvalidFrame,
    /// The leading tag byte names no known frame kind.
    InvalidFrameType(u8),
    /// More bytes are needed; nothing was consumed.
    NotComplete,
    /// A line that should hold a decimal integer holds something else.
    ParseIntError,
    /// A line that should hold a floating-point number holds something else.
    ParseFloatError,
    /// A line that should hold an arbitrary-precision decimal holds something else.
    ParseBigNumberError,
    /// A declared length that no buffer of this machine can hold.
    InvalidFrameLength,
}

} // verus!
