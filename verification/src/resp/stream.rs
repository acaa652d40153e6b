//! The streaming driver: one frame at a time out of a growing receive
//! buffer.

use crate::resp::buffer::{as_slice, contents};
use crate::resp::decode::{decode_frame, RespDecode};
use crate::resp::error::RespError;
use crate::resp::frame::{frame_of, RespFrame};
use crate::resp::laws::lemma_probe_agrees;
use crate::resp::length::{frame_len, frame_length};
use bytes::BytesMut;
use vstd::prelude::*;

verus! {

/// What one step of the driver makes of a buffer that held `before` and now
/// holds `after`. The buffer is measured first. While it does not measure as
/// a whole frame, there is no frame yet and the buffer is untouched. A buffer
/// that cannot be measured fails. A buffer that holds a whole frame gives the
/// frame, with exactly the measured bytes removed, or fails for good with
/// the buffer untouched.
pub open spec fn step_is(
    before: Seq<u8>,
    after: Seq<u8>,
    r: Result<Option<RespFrame>, RespError>,
) -> bool {
    match frame_len(before) {
        Err(RespError::NotComplete) => r == Ok::<Option<RespFrame>, RespError>(None) && after
            == before,
        Err(e) => r == Err::<Option<RespFrame>, RespError>(e) && after == before,
        Ok(n) => match decode_frame(before) {
            Ok((f, _)) => r is Ok && r->Ok_0 is Some && frame_of(r->Ok_0->Some_0) == f && n
                <= before.len() && after == before.skip(n as int),
            Err(e) => e != RespError::NotComplete && r == Err::<Option<RespFrame>, RespError>(e)
                && after == before,
        },
    }
}

/// Tries to decode one frame from the head of the buffer. `Ok(None)` says
/// that the buffer does not hold a whole frame yet: nothing was consumed, and
/// the call can be repeated when more bytes have arrived.
pub fn try_decode_one(buf: &mut BytesMut) -> (r: Result<Option<RespFrame>, RespError>)
    ensures
        step_is(contents(*old(buf)), contents(*final(buf)), r),
{
    proof {
        lemma_probe_agrees(contents(*buf));
    }
    match frame_length(as_slice(buf)) {
        Err(RespError::NotComplete) => Ok(None),
        Err(e) => Err(e),
        Ok(_) => match RespFrame::decode(buf) {
            Ok(frame) => Ok(Some(frame)),
            Err(e) => Err(e),
        },
    }
}

} // verus!
