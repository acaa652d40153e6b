//! The ways in which decoding a frame can fail.

use vstd::prelude::*;

verus! {

/// Why a frame could not be decoded.
///
/// `NotComplete` is the only recoverable kind: the buffer holds a prefix of a
/// frame and decoding may succeed once more bytes have arrived. Every other
/// kind is final for the frame at the head of the buffer.
#[derive(Debug, Clone, Copy, PartialEq, Eq, Structural)]
pub enum RespError {
    /// The marker byte or a fixed pattern matches no frame kind.
    InvalidFrameType,
    /// A declared length or element count is not a non-negative decimal number
    /// that fits the machine.
    InvalidFrameLength,
    /// The buffer does not yet hold a whole frame.
    NotComplete,
    /// The payload of an integer frame is not a signed 64-bit decimal number.
    ParseIntError,
    /// The payload of a double frame is not a floating-point literal.
    ParseFloatError,
}

} // verus!
