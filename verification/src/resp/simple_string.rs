//! Simple strings: one line of text.

use crate::resp::buffer::as_slice;
use crate::resp::decode::{consume, decode_simple_string, read_simple_string, RespDecode};
use crate::resp::encode::{push_line, RespEncode};
use crate::resp::error::RespError;
use crate::resp::length::{line_frame_len, line_length};
use crate::resp::marker::SIMPLE_STRING;
use crate::resp::model::{frame_bytes, Frame, RespValue};
use bytes::BytesMut;
use vstd::prelude::*;

verus! {

/// A line of text.
#[derive(Debug, Clone, PartialEq, Eq, PartialOrd)]
pub struct SimpleString(pub String);

impl View for SimpleString {
    type V = Seq<char>;

    open spec fn view(&self) -> Seq<char> {
        self.0@
    }
}

impl RespValue for SimpleString {
    open spec fn frame(&self) -> Frame {
        Frame::SimpleString(self@)
    }
}

impl SimpleString {
    /// A simple string with the given text.
    pub fn new(s: String) -> (r: SimpleString)
        ensures
            r@ == s@,
    {
        SimpleString(s)
    }
}

impl RespEncode for SimpleString {
    fn encode(self) -> (out: Vec<u8>) {
        let mut out = Vec::new();
        push_line(&mut out, SIMPLE_STRING, self.0.as_str().as_bytes());
        assert(out@ =~= frame_bytes(self.frame()));
        out
    }
}

impl RespDecode for SimpleString {
    const PREFIX: &'static str = "+";

    open spec fn decoded(buf: Seq<u8>) -> Result<(Frame, nat), RespError> {
        decode_simple_string(buf)
    }

    open spec fn expected_length(buf: Seq<u8>) -> Result<nat, RespError> {
        line_frame_len(buf, SIMPLE_STRING)
    }

    fn decode(buf: &mut BytesMut) -> (r: Result<Self, RespError>) {
        let r = read_simple_string(as_slice(buf));
        consume(buf, r)
    }

    fn expect_length(buf: &[u8]) -> (r: Result<usize, RespError>) {
        line_length(buf, SIMPLE_STRING)
    }
}

impl From<&str> for SimpleString {
    fn from(s: &str) -> (r: SimpleString)
        ensures
            r@ == s@,
    {
        SimpleString(s.to_string())
    }
}

impl vstd::std_specs::convert::FromSpecImpl<&str> for SimpleString {
    open spec fn obeys_from_spec() -> bool {
        false
    }

    open spec fn from_spec(v: &str) -> SimpleString {
        arbitrary()
    }
}

impl std::ops::Deref for SimpleString {
    type Target = String;

    fn deref(&self) -> (r: &String)
        ensures
            r@ == self@,
    {
        &self.0
    }
}

impl AsRef<str> for SimpleString {
    fn as_ref(&self) -> (r: &str)
        ensures
            r@ == self@,
    {
        self.0.as_str()
    }
}

} // verus!
