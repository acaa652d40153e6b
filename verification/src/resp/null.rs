//! The null value.

use crate::resp::decode::{decode_null, RespDecode};
use crate::resp::encode::{push_crlf, RespEncode};
use crate::resp::error::RespError;
use crate::resp::length::{fixed_frame_len, fixed_length, lemma_pattern_bytes};
use crate::resp::line::extract_fixed_data;
use crate::resp::marker::NULL;
use crate::resp::model::{frame_bytes, Frame, RespValue};
use bytes::BytesMut;
use vstd::prelude::*;

verus! {

/// The null value.
#[derive(Debug, Clone, PartialEq, Eq, PartialOrd)]
pub struct RespNull;

impl RespValue for RespNull {
    open spec fn frame(&self) -> Frame {
        Frame::Null
    }
}

impl RespNull {
    /// The null value.
    pub fn new() -> (r: RespNull)
        ensures
            r.frame() == Frame::Null,
    {
        RespNull
    }
}

impl RespEncode for RespNull {
    fn encode(self) -> (out: Vec<u8>) {
        let mut out = Vec::new();
        out.push(NULL);
        push_crlf(&mut out);
        assert(out@ =~= frame_bytes(self.frame()));
        out
    }
}

impl RespDecode for RespNull {
    const PREFIX: &'static str = "_";

    open spec fn decoded(buf: Seq<u8>) -> Result<(Frame, nat), RespError> {
        decode_null(buf)
    }

    open spec fn expected_length(buf: Seq<u8>) -> Result<nat, RespError> {
        fixed_frame_len(buf, 3)
    }

    fn decode(buf: &mut BytesMut) -> (r: Result<Self, RespError>) {
        proof {
            reveal(decode_null);
            lemma_pattern_bytes();
        }
        match extract_fixed_data(buf, "_\r\n") {
            Ok(_) => Ok(RespNull),
            Err(e) => Err(e),
        }
    }

    fn expect_length(buf: &[u8]) -> (r: Result<usize, RespError>) {
        fixed_length(buf, 3)
    }
}

} // verus!
