//! Bulk strings: bytes with their length in front, and the absent bulk
//! string.

use crate::resp::buffer::as_slice;
use crate::resp::decode::{
    consume, decode_bulk_string, decode_null_bulk_string, read_bulk_string, RespDecode,
};
use crate::resp::encode::{push_bytes, push_crlf, push_header, push_line, RespEncode};
use crate::resp::error::RespError;
use crate::resp::length::{
    bulk_len, bulk_length, fixed_frame_len, fixed_length, lemma_pattern_bytes,
};
use crate::resp::line::extract_fixed_data;
use crate::resp::marker::{BULK_STRING, MINUS, ONE};
use crate::resp::model::{frame_bytes, Frame, RespValue};
use bytes::BytesMut;
use vstd::prelude::*;
use vstd::slice::slice_to_vec;
use vstd::string::*;
use vstd::utf8::encode_utf8;

verus! {

/// A sequence of bytes, written with its length in front.
#[derive(Debug, Clone, PartialEq, Eq, PartialOrd)]
pub struct BulkString(pub Vec<u8>);

/// The bulk string that is absent.
#[derive(Debug, Clone, PartialEq, Eq, PartialOrd)]
pub struct RespNullBulkString;

impl View for BulkString {
    type V = Seq<u8>;

    open spec fn view(&self) -> Seq<u8> {
        self.0@
    }
}

impl RespValue for BulkString {
    open spec fn frame(&self) -> Frame {
        Frame::BulkString(self@)
    }
}

impl RespValue for RespNullBulkString {
    open spec fn frame(&self) -> Frame {
        Frame::NullBulkString
    }
}

impl BulkString {
    /// A bulk string that holds the given bytes.
    pub fn new(s: Vec<u8>) -> (r: BulkString)
        ensures
            r@ == s@,
    {
        BulkString(s)
    }
}

impl RespEncode for BulkString {
    fn encode(self) -> (out: Vec<u8>) {
        let mut out = Vec::with_capacity(self.0.len().saturating_add(16));
        push_header(&mut out, BULK_STRING, self.0.len());
        push_bytes(&mut out, self.0.as_slice());
        push_crlf(&mut out);
        assert(out@ =~= frame_bytes(self.frame()));
        out
    }
}

impl RespEncode for RespNullBulkString {
    fn encode(self) -> (out: Vec<u8>) {
        let mut out = Vec::new();
        let text: [u8; 2] = [MINUS, ONE];
        push_line(&mut out, BULK_STRING, text.as_slice());
        assert(text@ =~= seq![MINUS, ONE]);
        assert(out@ =~= frame_bytes(self.frame()));
        out
    }
}

impl RespDecode for BulkString {
    const PREFIX: &'static str = "$";

    open spec fn decoded(buf: Seq<u8>) -> Result<(Frame, nat), RespError> {
        decode_bulk_string(buf)
    }

    open spec fn expected_length(buf: Seq<u8>) -> Result<nat, RespError> {
        bulk_len(buf)
    }

    fn decode(buf: &mut BytesMut) -> (r: Result<Self, RespError>) {
        let r = read_bulk_string(as_slice(buf));
        consume(buf, r)
    }

    fn expect_length(buf: &[u8]) -> (r: Result<usize, RespError>) {
        bulk_length(buf)
    }
}

impl RespDecode for RespNullBulkString {
    const PREFIX: &'static str = "$";

    open spec fn decoded(buf: Seq<u8>) -> Result<(Frame, nat), RespError> {
        decode_null_bulk_string(buf)
    }

    open spec fn expected_length(buf: Seq<u8>) -> Result<nat, RespError> {
        fixed_frame_len(buf, 5)
    }

    fn decode(buf: &mut BytesMut) -> (r: Result<Self, RespError>) {
        proof {
            reveal(decode_null_bulk_string);
            lemma_pattern_bytes();
        }
        match extract_fixed_data(buf, "$-1\r\n") {
            Ok(_) => Ok(RespNullBulkString),
            Err(e) => Err(e),
        }
    }

    fn expect_length(buf: &[u8]) -> (r: Result<usize, RespError>) {
        fixed_length(buf, 5)
    }
}

impl From<&str> for BulkString {
    fn from(s: &str) -> (r: BulkString)
        ensures
            r@ == s.spec_bytes(),
    {
        BulkString(slice_to_vec(s.as_bytes()))
    }
}

impl vstd::std_specs::convert::FromSpecImpl<&str> for BulkString {
    open spec fn obeys_from_spec() -> bool {
        false
    }

    open spec fn from_spec(v: &str) -> BulkString {
        arbitrary()
    }
}

impl From<String> for BulkString {
    fn from(value: String) -> (r: BulkString)
        ensures
            r@ == encode_utf8(value@),
    {
        BulkString(slice_to_vec(value.as_str().as_bytes()))
    }
}

impl vstd::std_specs::convert::FromSpecImpl<String> for BulkString {
    open spec fn obeys_from_spec() -> bool {
        false
    }

    open spec fn from_spec(v: String) -> BulkString {
        arbitrary()
    }
}

impl From<&[u8]> for BulkString {
    fn from(s: &[u8]) -> (r: BulkString)
        ensures
            r@ == s@,
    {
        BulkString(slice_to_vec(s))
    }
}

impl vstd::std_specs::convert::FromSpecImpl<&[u8]> for BulkString {
    open spec fn obeys_from_spec() -> bool {
        false
    }

    open spec fn from_spec(v: &[u8]) -> BulkString {
        arbitrary()
    }
}

impl<const N: usize> From<&[u8; N]> for BulkString {
    fn from(s: &[u8; N]) -> (r: BulkString)
        ensures
            r@ == s@,
    {
        BulkString(slice_to_vec(s.as_slice()))
    }
}

impl<const N: usize> vstd::std_specs::convert::FromSpecImpl<&[u8; N]> for BulkString {
    open spec fn obeys_from_spec() -> bool {
        false
    }

    open spec fn from_spec(v: &[u8; N]) -> BulkString {
        arbitrary()
    }
}

impl std::ops::Deref for BulkString {
    type Target = Vec<u8>;

    fn deref(&self) -> (r: &Vec<u8>)
        ensures
            r@ == self@,
    {
        &self.0
    }
}

impl AsRef<[u8]> for BulkString {
    fn as_ref(&self) -> (r: &[u8])
        ensures
            r@ == self@,
    {
        self.0.as_slice()
    }
}

} // verus!
