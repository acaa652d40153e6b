//! Simple errors: one line of text that reports a failure.

use crate::resp::buffer::as_slice;
use crate::resp::decode::{consume, decode_simple_error, read_simple_error, RespDecode};
use crate::resp::encode::{push_line, RespEncode};
use crate::resp::error::RespError;
use crate::resp::length::{line_frame_len, line_length};
use crate::resp::marker::SIMPLE_ERROR;
use crate::resp::model::{frame_bytes, Frame, RespValue};
use bytes::BytesMut;
use vstd::prelude::*;

verus! {

/// A line of text that reports a failure.
#[derive(Debug, Clone, PartialEq, Eq, PartialOrd)]
pub struct SimpleError(pub String);

impl View for SimpleError {
    type V = Seq<char>;

    open spec fn view(&self) -> Seq<char> {
        self.0@
    }
}

impl RespValue for SimpleError {
    open spec fn frame(&self) -> Frame {
        Frame::Error(self@)
    }
}

impl SimpleError {
    /// A simple error with the given text.
    pub fn new(s: String) -> (r: SimpleError)
        ensures
            r@ == s@,
    {
        SimpleError(s)
    }
}

impl RespEncode for SimpleError {
    fn encode(self) -> (out: Vec<u8>) {
        let mut out = Vec::new();
        push_line(&mut out, SIMPLE_ERROR, self.0.as_str().as_bytes());
        assert(out@ =~= frame_bytes(self.frame()));
        out
    }
}

impl RespDecode for SimpleError {
    const PREFIX: &'static str = "-";

    open spec fn decoded(buf: Seq<u8>) -> Result<(Frame, nat), RespError> {
        decode_simple_error(buf)
    }

    open spec fn expected_length(buf: Seq<u8>) -> Result<nat, RespError> {
        line_frame_len(buf, SIMPLE_ERROR)
    }

    fn decode(buf: &mut BytesMut) -> (r: Result<Self, RespError>) {
        let r = read_simple_error(as_slice(buf));
        consume(buf, r)
    }

    fn expect_length(buf: &[u8]) -> (r: Result<usize, RespError>) {
        line_length(buf, SIMPLE_ERROR)
    }
}

impl From<&str> for SimpleError {
    fn from(s: &str) -> (r: SimpleError)
        ensures
            r@ == s@,
    {
        SimpleError(s.to_string())
    }
}

impl vstd::std_specs::convert::FromSpecImpl<&str> for SimpleError {
    open spec fn obeys_from_spec() -> bool {
        false
    }

    open spec fn from_spec(v: &str) -> SimpleError {
        arbitrary()
    }
}

impl std::ops::Deref for SimpleError {
    type Target = String;

    fn deref(&self) -> (r: &String)
        ensures
            r@ == self@,
    {
        &self.0
    }
}

} // verus!
