//! Arrays: an ordered sequence of frames, and the absent array.

use crate::resp::buffer::as_slice;
use crate::resp::decode::{consume, decode_array, decode_null_array, read_members, RespDecode};
use crate::resp::encode::{push_line, write_members, BUF_CAP, RespEncode};
use crate::resp::error::RespError;
use crate::resp::frame::{clone_frames, frames_of, RespFrame};
use crate::resp::length::{
    aggregate_len, aggregate_length, fixed_frame_len, fixed_length, lemma_pattern_bytes,
};
use crate::resp::line::extract_fixed_data;
use crate::resp::marker::{ARRAY, MINUS, ONE};
use crate::resp::model::{frame_bytes, Frame, RespValue};
use bytes::BytesMut;
use vstd::prelude::*;

verus! {

/// An ordered sequence of frames.
#[derive(Debug, PartialEq, PartialOrd)]
pub struct RespArray(pub Vec<RespFrame>);

/// The array that is absent.
#[derive(Debug, Clone, PartialEq, Eq, PartialOrd)]
pub struct RespNullArray;

impl View for RespArray {
    type V = Seq<Frame>;

    open spec fn view(&self) -> Seq<Frame> {
        frames_of(self.0@)
    }
}

impl RespValue for RespArray {
    open spec fn frame(&self) -> Frame {
        Frame::Array(self@)
    }
}

impl RespValue for RespNullArray {
    open spec fn frame(&self) -> Frame {
        Frame::NullArray
    }
}

impl RespArray {
    /// An array of the given frames, in their order.
    pub fn new(s: Vec<RespFrame>) -> (r: RespArray)
        ensures
            r@ == frames_of(s@),
    {
        RespArray(s)
    }
}

impl RespEncode for RespArray {
    fn encode(self) -> (out: Vec<u8>) {
        let mut out = Vec::with_capacity(BUF_CAP);
        write_members(&self.0, ARRAY, &mut out);
        assert(out@ =~= frame_bytes(self.frame()));
        out
    }
}

impl RespEncode for RespNullArray {
    fn encode(self) -> (out: Vec<u8>) {
        let mut out = Vec::new();
        let text: [u8; 2] = [MINUS, ONE];
        push_line(&mut out, ARRAY, text.as_slice());
        assert(text@ =~= seq![MINUS, ONE]);
        assert(out@ =~= frame_bytes(self.frame()));
        out
    }
}

impl RespDecode for RespArray {
    const PREFIX: &'static str = "*";

    open spec fn decoded(buf: Seq<u8>) -> Result<(Frame, nat), RespError> {
        decode_array(buf)
    }

    open spec fn expected_length(buf: Seq<u8>) -> Result<nat, RespError> {
        aggregate_len(buf, seq![ARRAY])
    }

    fn decode(buf: &mut BytesMut) -> (r: Result<Self, RespError>) {
        let r = match read_members(as_slice(buf), ARRAY) {
            Ok((frames, n)) => Ok((RespArray::new(frames), n)),
            Err(e) => Err(e),
        };
        consume(buf, r)
    }

    fn expect_length(buf: &[u8]) -> (r: Result<usize, RespError>) {
        aggregate_length(buf, ARRAY)
    }
}

impl RespDecode for RespNullArray {
    const PREFIX: &'static str = "*";

    open spec fn decoded(buf: Seq<u8>) -> Result<(Frame, nat), RespError> {
        decode_null_array(buf)
    }

    open spec fn expected_length(buf: Seq<u8>) -> Result<nat, RespError> {
        fixed_frame_len(buf, 5)
    }

    fn decode(buf: &mut BytesMut) -> (r: Result<Self, RespError>) {
        proof {
            reveal(decode_null_array);
            lemma_pattern_bytes();
        }
        match extract_fixed_data(buf, "*-1\r\n") {
            Ok(_) => Ok(RespNullArray),
            Err(e) => Err(e),
        }
    }

    fn expect_length(buf: &[u8]) -> (r: Result<usize, RespError>) {
        fixed_length(buf, 5)
    }
}

impl std::ops::Deref for RespArray {
    type Target = Vec<RespFrame>;

    fn deref(&self) -> (r: &Vec<RespFrame>)
        ensures
            frames_of(r@) == self@,
    {
        &self.0
    }
}

impl Clone for RespArray {
    fn clone(&self) -> (r: RespArray)
        ensures
            r@ == self@,
    {
        RespArray(clone_frames(&self.0))
    }
}

} // verus!
