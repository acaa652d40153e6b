//! The mathematical model of a frame and of its wire format.

use crate::resp::double::is_double_text;
use crate::resp::line::{crlf, crlf_at};
use crate::resp::map::keys_sorted;
use crate::resp::marker::{
    ARRAY, BOOLEAN, BULK_STRING, DOUBLE, FALSE, INTEGER, MINUS, NULL, ONE, RESP_MAP, RESP_SET,
    SIMPLE_ERROR, SIMPLE_STRING, TRUE,
};
use crate::resp::number::{decimal, signed_decimal};
use vstd::prelude::*;
use vstd::utf8::encode_utf8;

verus! {

/// A frame as a mathematical value: what the executable frame types stand
/// for, and what the encoding and decoding contracts speak of.
pub enum Frame {
    /// A line of text.
    SimpleString(Seq<char>),
    /// A line of text that reports an error.
    Error(Seq<char>),
    /// A signed 64-bit integer.
    Integer(i64),
    /// A sequence of bytes with its length in front.
    BulkString(Seq<u8>),
    /// The bulk string that is absent.
    NullBulkString,
    /// An ordered sequence of frames.
    Array(Seq<Frame>),
    /// The array that is absent.
    NullArray,
    /// The null value.
    Null,
    /// A truth value.
    Boolean(bool),
    /// A floating-point number, held as its decimal text.
    Double(Seq<u8>),
    /// Entries of a mapping from text keys to frames, in the order of their
    /// keys.
    RespMap(Seq<(Seq<char>, Frame)>),
    /// An ordered sequence of frames under the marker of a set.
    RespSet(Seq<Frame>),
}

/// A value that stands for one frame.
pub trait RespValue {
    /// The frame that the value stands for.
    spec fn frame(&self) -> Frame;
}

/// No line terminator starts within `text`.
pub open spec fn no_crlf(text: Seq<u8>) -> bool {
    forall|i: int| !crlf_at(text, i)
}

/// The frame is one that the wire format carries faithfully: text lines hold
/// no line terminator, a double is a floating-point literal, the entries of
/// a map are in the order of their keys, lengths and counts fit the machine,
/// and the members of an aggregate are such frames themselves.
pub open spec fn frame_wf(f: Frame) -> bool
    decreases f,
{
    match f {
        Frame::SimpleString(s) => no_crlf(encode_utf8(s)),
        Frame::Error(s) => no_crlf(encode_utf8(s)),
        Frame::BulkString(b) => b.len() <= usize::MAX,
        Frame::Double(t) => is_double_text(t),
        Frame::Array(a) => a.len() <= usize::MAX && forall|i: int|
            0 <= i < a.len() ==> frame_wf(#[trigger] a[i]),
        Frame::RespSet(a) => a.len() <= usize::MAX && forall|i: int|
            0 <= i < a.len() ==> frame_wf(#[trigger] a[i]),
        Frame::RespMap(m) => m.len() <= usize::MAX && keys_sorted(m) && forall|i: int|
            0 <= i < m.len() ==> no_crlf(encode_utf8((#[trigger] m[i]).0)) && frame_wf(m[i].1),
        _ => true,
    }
}

/// A header line or a text line: the marker byte, the text, a terminator.
pub open spec fn line(marker: u8, text: Seq<u8>) -> Seq<u8> {
    seq![marker] + text + crlf()
}

/// The bytes that a frame is written as.
pub open spec fn frame_bytes(f: Frame) -> Seq<u8>
    decreases f, 0int,
{
    match f {
        Frame::SimpleString(s) => line(SIMPLE_STRING, encode_utf8(s)),
        Frame::Error(s) => line(SIMPLE_ERROR, encode_utf8(s)),
        Frame::Integer(n) => line(INTEGER, signed_decimal(n as int)),
        Frame::BulkString(b) => line(BULK_STRING, decimal(b.len())) + b + crlf(),
        Frame::NullBulkString => line(BULK_STRING, seq![MINUS, ONE]),
        Frame::Array(a) => line(ARRAY, decimal(a.len())) + frames_bytes(a, 0),
        Frame::NullArray => line(ARRAY, seq![MINUS, ONE]),
        Frame::Null => line(NULL, Seq::empty()),
        Frame::Boolean(b) => line(BOOLEAN, seq![if b { TRUE } else { FALSE }]),
        Frame::Double(t) => line(DOUBLE, t),
        Frame::RespMap(m) => line(RESP_MAP, decimal(m.len())) + entries_bytes(m, 0),
        Frame::RespSet(a) => line(RESP_SET, decimal(a.len())) + frames_bytes(a, 0),
    }
}

/// The bytes of the frames of `fs` from index `i` on, one after the other.
pub open spec fn frames_bytes(fs: Seq<Frame>, i: nat) -> Seq<u8>
    decreases fs, fs.len() - i,
{
    if i >= fs.len() {
        Seq::empty()
    } else {
        frame_bytes(fs[i as int]) + frames_bytes(fs, i + 1)
    }
}

/// The bytes of the entries of a map from index `i` on: each key as a simple
/// string, then its value.
pub open spec fn entries_bytes(m: Seq<(Seq<char>, Frame)>, i: nat) -> Seq<u8>
    decreases m, m.len() - i,
{
    if i >= m.len() {
        Seq::empty()
    } else {
        line(SIMPLE_STRING, encode_utf8(m[i as int].0)) + frame_bytes(m[i as int].1)
            + entries_bytes(m, i + 1)
    }
}

} // verus!
