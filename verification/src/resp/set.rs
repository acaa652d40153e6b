//! Sets: an ordered sequence of frames under the marker of a set.

use crate::resp::buffer::as_slice;
use crate::resp::decode::{consume, decode_set, read_members, RespDecode};
use crate::resp::encode::{write_members, BUF_CAP, RespEncode};
use crate::resp::error::RespError;
use crate::resp::frame::{clone_frames, frames_of, RespFrame};
use crate::resp::length::{aggregate_len, aggregate_length};
use crate::resp::marker::RESP_SET;
use crate::resp::model::{frame_bytes, Frame, RespValue};
use bytes::BytesMut;
use vstd::prelude::*;

verus! {

/// An ordered sequence of frames under the marker of a set. Neither order
/// nor uniqueness is enforced: the members stay as the caller gave them.
#[derive(Debug, PartialEq, PartialOrd)]
pub struct RespSet(pub Vec<RespFrame>);

impl View for RespSet {
    type V = Seq<Frame>;

    open spec fn view(&self) -> Seq<Frame> {
        frames_of(self.0@)
    }
}

impl RespValue for RespSet {
    open spec fn frame(&self) -> Frame {
        Frame::RespSet(self@)
    }
}

impl RespSet {
    /// A set of the given frames, in their order.
    pub fn new(s: Vec<RespFrame>) -> (r: RespSet)
        ensures
            r@ == frames_of(s@),
    {
        RespSet(s)
    }
}

impl RespEncode for RespSet {
    fn encode(self) -> (out: Vec<u8>) {
        let mut out = Vec::with_capacity(BUF_CAP);
        write_members(&self.0, RESP_SET, &mut out);
        assert(out@ =~= frame_bytes(self.frame()));
        out
    }
}

impl RespDecode for RespSet {
    const PREFIX: &'static str = "~";

    open spec fn decoded(buf: Seq<u8>) -> Result<(Frame, nat), RespError> {
        decode_set(buf)
    }

    open spec fn expected_length(buf: Seq<u8>) -> Result<nat, RespError> {
        aggregate_len(buf, seq![RESP_SET])
    }

    fn decode(buf: &mut BytesMut) -> (r: Result<Self, RespError>) {
        let r = match read_members(as_slice(buf), RESP_SET) {
            Ok((frames, n)) => Ok((RespSet::new(frames), n)),
            Err(e) => Err(e),
        };
        consume(buf, r)
    }

    fn expect_length(buf: &[u8]) -> (r: Result<usize, RespError>) {
        aggregate_length(buf, RESP_SET)
    }
}

impl std::ops::Deref for RespSet {
    type Target = Vec<RespFrame>;

    fn deref(&self) -> (r: &Vec<RespFrame>)
        ensures
            frames_of(r@) == self@,
    {
        &self.0
    }
}

impl Clone for RespSet {
    fn clone(&self) -> (r: RespSet)
        ensures
            r@ == self@,
    {
        RespSet(clone_frames(&self.0))
    }
}

} // verus!
