//! Decoding: what the bytes at the head of a buffer stand for.

use crate::resp::array::{RespArray, RespNullArray};
use crate::resp::buffer::{advance, as_slice, contents};
use crate::resp::bulk_string::{BulkString, RespNullBulkString};
use crate::resp::double::{is_double, is_double_text, RespDouble};
use crate::resp::error::RespError;
use crate::resp::frame::{
    frame_of, frames_of, lemma_frame_of_array, lemma_frame_of_map, lemma_frame_of_set, RespFrame,
};
use crate::resp::length::{
    false_bytes, frame_length, is_short_of, length_header, length_header_of, length_is,
    null_array_bytes, null_bulk_string_bytes, null_bytes, short_of, total_length, total_length_of,
    true_bytes,
};
use crate::resp::line::{
    extract_fixed_data, fixed_data, simple_frame_data, simple_frame_end, starts_with, CR, LF,
};
use crate::resp::map::{map_insert, map_of, RespMap};
use crate::resp::marker::{
    ARRAY, BOOLEAN, BULK_STRING, DOUBLE, FALSE, INTEGER, MINUS, NULL, ONE, RESP_MAP, RESP_SET,
    SIMPLE_ERROR, SIMPLE_STRING, TRUE,
};
use crate::resp::model::{Frame, RespValue};
use crate::resp::null::RespNull;
use crate::resp::number::{parse_i64, read_i64};
use crate::resp::set::RespSet;
use crate::resp::simple_error::SimpleError;
use crate::resp::simple_string::SimpleString;
use crate::resp::text::{string_from_utf8_lossy, text_of};
use bytes::BytesMut;
use vstd::prelude::*;
use vstd::slice::{slice_subrange, slice_to_vec};

verus! {

/// A simple string at the head of `buf`: its text, read permissively, and
/// its length.
#[verifier::opaque]
pub open spec fn decode_simple_string(buf: Seq<u8>) -> Result<(Frame, nat), RespError> {
    match simple_frame_end(buf, seq![SIMPLE_STRING]) {
        Err(e) => Err(e),
        Ok(end) => Ok((Frame::SimpleString(text_of(buf.subrange(1, end))), (end + 2) as nat)),
    }
}

/// A simple error at the head of `buf`.
#[verifier::opaque]
pub open spec fn decode_simple_error(buf: Seq<u8>) -> Result<(Frame, nat), RespError> {
    match simple_frame_end(buf, seq![SIMPLE_ERROR]) {
        Err(e) => Err(e),
        Ok(end) => Ok((Frame::Error(text_of(buf.subrange(1, end))), (end + 2) as nat)),
    }
}

/// An integer at the head of `buf`. A line whose text is no signed 64-bit
/// decimal number is a parse error, not an incomplete frame.
#[verifier::opaque]
pub open spec fn decode_integer(buf: Seq<u8>) -> Result<(Frame, nat), RespError> {
    match simple_frame_end(buf, seq![INTEGER]) {
        Err(e) => Err(e),
        Ok(end) => match parse_i64(buf.subrange(1, end)) {
            Some(v) => Ok((Frame::Integer(v), (end + 2) as nat)),
            None => Err(RespError::ParseIntError),
        },
    }
}

/// A double at the head of `buf`. A line whose text is no floating-point
/// literal is a parse error.
#[verifier::opaque]
pub open spec fn decode_double(buf: Seq<u8>) -> Result<(Frame, nat), RespError> {
    match simple_frame_end(buf, seq![DOUBLE]) {
        Err(e) => Err(e),
        Ok(end) => if is_double_text(buf.subrange(1, end)) {
            Ok((Frame::Double(buf.subrange(1, end)), (end + 2) as nat))
        } else {
            Err(RespError::ParseFloatError)
        },
    }
}

/// The null value at the head of `buf`.
#[verifier::opaque]
pub open spec fn decode_null(buf: Seq<u8>) -> Result<(Frame, nat), RespError> {
    match fixed_data(buf, null_bytes()) {
        Ok(_) => Ok((Frame::Null, 3)),
        Err(e) => Err(e),
    }
}

/// A truth value at the head of `buf`: exactly `t` or `f` and a terminator.
#[verifier::opaque]
pub open spec fn decode_boolean(buf: Seq<u8>) -> Result<(Frame, nat), RespError> {
    if buf.len() < 4 {
        Err(RespError::NotComplete)
    } else if true_bytes().is_prefix_of(buf) {
        Ok((Frame::Boolean(true), 4))
    } else if false_bytes().is_prefix_of(buf) {
        Ok((Frame::Boolean(false), 4))
    } else {
        Err(RespError::InvalidFrameType)
    }
}

/// The absent bulk string at the head of `buf`.
#[verifier::opaque]
pub open spec fn decode_null_bulk_string(buf: Seq<u8>) -> Result<(Frame, nat), RespError> {
    match fixed_data(buf, null_bulk_string_bytes()) {
        Ok(_) => Ok((Frame::NullBulkString, 5)),
        Err(e) => Err(e),
    }
}

/// The absent array at the head of `buf`.
#[verifier::opaque]
pub open spec fn decode_null_array(buf: Seq<u8>) -> Result<(Frame, nat), RespError> {
    match fixed_data(buf, null_array_bytes()) {
        Ok(_) => Ok((Frame::NullArray, 5)),
        Err(e) => Err(e),
    }
}

/// A bulk string at the head of `buf`: the declared number of bytes behind
/// the header line. The two bytes behind them are taken for the terminator
/// without being looked at.
#[verifier::opaque]
pub open spec fn decode_bulk_string(buf: Seq<u8>) -> Result<(Frame, nat), RespError> {
    match length_header(buf, seq![BULK_STRING]) {
        Err(e) => Err(e),
        Ok((end, n)) => if end + 2 + n + 2 <= buf.len() {
            Ok((Frame::BulkString(buf.subrange(end + 2, end + 2 + n)), (end + 2 + n + 2) as nat))
        } else {
            Err(RespError::NotComplete)
        },
    }
}

/// The frame at the head of `buf`, whatever its kind, and its length. An
/// empty buffer is not complete; an unknown marker is an invalid frame type.
/// Behind `$` and `*` the absent value is tried first, and a buffer that is
/// merely short of it is not complete.
#[verifier::opaque]
pub open spec fn decode_frame(buf: Seq<u8>) -> Result<(Frame, nat), RespError>
    decreases buf.len(), 2nat,
{
    if buf.len() == 0 {
        Err(RespError::NotComplete)
    } else if buf[0] == SIMPLE_STRING {
        decode_simple_string(buf)
    } else if buf[0] == SIMPLE_ERROR {
        decode_simple_error(buf)
    } else if buf[0] == INTEGER {
        decode_integer(buf)
    } else if buf[0] == BULK_STRING {
        if null_bulk_string_bytes().is_prefix_of(buf) {
            Ok((Frame::NullBulkString, 5))
        } else if short_of(buf, null_bulk_string_bytes()) {
            Err(RespError::NotComplete)
        } else {
            decode_bulk_string(buf)
        }
    } else if buf[0] == ARRAY {
        if null_array_bytes().is_prefix_of(buf) {
            Ok((Frame::NullArray, 5))
        } else if short_of(buf, null_array_bytes()) {
            Err(RespError::NotComplete)
        } else {
            decode_array(buf)
        }
    } else if buf[0] == NULL {
        decode_null(buf)
    } else if buf[0] == BOOLEAN {
        decode_boolean(buf)
    } else if buf[0] == DOUBLE {
        decode_double(buf)
    } else if buf[0] == RESP_MAP {
        decode_map(buf)
    } else if buf[0] == RESP_SET {
        decode_set(buf)
    } else {
        Err(RespError::InvalidFrameType)
    }
}

/// The members of an aggregate with the marker `prefix` at the head of
/// `buf`, and the length of the whole frame. The length of the whole is
/// found first, so that a missing member is reported as an incomplete frame
/// before any member is read.
pub open spec fn decode_members(buf: Seq<u8>, prefix: Seq<u8>) -> Result<
    (Seq<Frame>, nat),
    RespError,
>
    decreases buf.len(), 0nat,
{
    match length_header(buf, prefix) {
        Err(e) => Err(e),
        Ok((end, n)) => match total_length(buf, end, n, prefix) {
            Err(e) => Err(e),
            Ok(_) => {
                if 0 <= end && end + 2 <= buf.len() {
                    match decode_frames(buf.skip(end + 2), n) {
                        Err(e) => Err(e),
                        Ok((fs, m)) => Ok((fs, (end + 2 + m) as nat)),
                    }
                } else {
                    Err(RespError::NotComplete)
                }
            },
        },
    }
}

/// An array at the head of `buf`.
pub open spec fn decode_array(buf: Seq<u8>) -> Result<(Frame, nat), RespError>
    decreases buf.len(), 1nat,
{
    match decode_members(buf, seq![ARRAY]) {
        Err(e) => Err(e),
        Ok((fs, n)) => Ok((Frame::Array(fs), n)),
    }
}

/// A set at the head of `buf`.
pub open spec fn decode_set(buf: Seq<u8>) -> Result<(Frame, nat), RespError>
    decreases buf.len(), 1nat,
{
    match decode_members(buf, seq![RESP_SET]) {
        Err(e) => Err(e),
        Ok((fs, n)) => Ok((Frame::RespSet(fs), n)),
    }
}

/// A map at the head of `buf`: its entries, inserted in the order in which
/// they stand, so that they end up in the order of their keys.
pub open spec fn decode_map(buf: Seq<u8>) -> Result<(Frame, nat), RespError>
    decreases buf.len(), 1nat,
{
    match length_header(buf, seq![RESP_MAP]) {
        Err(e) => Err(e),
        Ok((end, n)) => match total_length(buf, end, n, seq![RESP_MAP]) {
            Err(e) => Err(e),
            Ok(_) => {
                if 0 <= end && end + 2 <= buf.len() {
                    match decode_entries(buf.skip(end + 2), n) {
                        Err(e) => Err(e),
                        Ok((pairs, m)) => Ok((Frame::RespMap(map_of(pairs)), (end + 2 + m) as nat)),
                    }
                } else {
                    Err(RespError::NotComplete)
                }
            },
        },
    }
}

/// `count` frames that stand one after the other at the head of `data`, and
/// their length together.
pub open spec fn decode_frames(data: Seq<u8>, count: nat) -> Result<(Seq<Frame>, nat), RespError>
    decreases data.len(), count + 3,
{
    if count == 0 {
        Ok((Seq::empty(), 0))
    } else {
        match decode_frame(data) {
            Err(e) => Err(e),
            Ok((f, n)) => if n <= data.len() {
                match decode_frames(data.skip(n as int), (count - 1) as nat) {
                    Err(e) => Err(e),
                    Ok((fs, m)) => Ok((seq![f] + fs, n + m)),
                }
            } else {
                Err(RespError::NotComplete)
            },
        }
    }
}

/// `count` map entries at the head of `data`, in the order in which they
/// stand, and their length together. A key that is no simple string fails
/// the whole.
pub open spec fn decode_entries(data: Seq<u8>, count: nat) -> Result<
    (Seq<(Seq<char>, Frame)>, nat),
    RespError,
>
    decreases data.len(), count + 3,
{
    if count == 0 {
        Ok((Seq::empty(), 0))
    } else {
        match decode_simple_string(data) {
            Err(e) => Err(e),
            Ok((key, k)) => if k <= data.len() {
                match decode_frame(data.skip(k as int)) {
                    Err(e) => Err(e),
                    Ok((value, v)) => if k + v <= data.len() {
                        match decode_entries(data.skip((k + v) as int), (count - 1) as nat) {
                            Err(e) => Err(e),
                            Ok((es, m)) => Ok(
                                (seq![(key->SimpleString_0, value)] + es, k + v + m),
                            ),
                        }
                    } else {
                        Err(RespError::NotComplete)
                    },
                }
            } else {
                Err(RespError::NotComplete)
            },
        }
    }
}

/// Whether the outcome `r` of reading a value from a buffer of `len` bytes
/// is what the model gives: the value stands for the frame of the model and
/// the length is the model's, or the error is the model's.
pub open spec fn read_is<T: RespValue>(
    model: Result<(Frame, nat), RespError>,
    len: nat,
    r: Result<(T, usize), RespError>,
) -> bool {
    match model {
        Ok((f, n)) => r is Ok && r->Ok_0.0.frame() == f && r->Ok_0.1 == n && n <= len,
        Err(e) => r is Err && r->Err_0 == e,
    }
}

/// Whether the outcome `r` of decoding from a buffer that held `before` and
/// now holds `after` is what the model gives. On success the value stands
/// for the frame of the model, and exactly the bytes of the frame have left
/// the head of the buffer. On any error the buffer is as it was.
pub open spec fn decode_is<T: RespValue>(
    model: Result<(Frame, nat), RespError>,
    before: Seq<u8>,
    after: Seq<u8>,
    r: Result<T, RespError>,
) -> bool {
    match model {
        Ok((f, n)) => r is Ok && r->Ok_0.frame() == f && n <= before.len() && after
            == before.skip(n as int),
        Err(e) => r is Err && r->Err_0 == e && after == before,
    }
}

/// A value that can be decoded from the head of a receive buffer.
pub trait RespDecode: RespValue + Sized {
    /// The marker byte of the kind, as text; empty where the kind has none
    /// of its own.
    const PREFIX: &'static str;

    /// What the bytes at the head of a buffer decode to: the frame and its
    /// length, or why there is none.
    spec fn decoded(buf: Seq<u8>) -> Result<(Frame, nat), RespError>;

    /// How many bytes the frame at the head of a buffer takes up.
    spec fn expected_length(buf: Seq<u8>) -> Result<nat, RespError>;

    /// Decodes one value from the head of the buffer and removes its bytes.
    /// The buffer changes only on success.
    fn decode(buf: &mut BytesMut) -> (r: Result<Self, RespError>)
        ensures
            decode_is(
                Self::decoded(contents(*old(buf))),
                contents(*old(buf)),
                contents(*final(buf)),
                r,
            ),
    ;

    /// The number of bytes that decoding will consume, found without
    /// decoding.
    fn expect_length(buf: &[u8]) -> (r: Result<usize, RespError>)
        ensures
            length_is(Self::expected_length(buf@), r),
    ;
}

/// Finishes a decoding: on success the bytes that were read leave the head
/// of the buffer; on an error the buffer stays as it is.
pub(crate) fn consume<T: RespValue>(
    buf: &mut BytesMut,
    r: Result<(T, usize), RespError>,
) -> (out: Result<T, RespError>)
    requires
        r matches Ok(read) ==> read.1 <= contents(*old(buf)).len(),
    ensures
        match r {
            Ok(read) => out == Ok::<T, RespError>(read.0) && contents(*final(buf)) == contents(
                *old(buf),
            ).skip(read.1 as int),
            Err(e) => out == Err::<T, RespError>(e) && contents(*final(buf)) == contents(
                *old(buf),
            ),
        },
{
    match r {
        Ok((v, n)) => {
            advance(buf, n);
            Ok(v)
        },
        Err(e) => Err(e),
    }
}

/// Reads a simple string from the head of `buf`.
pub fn read_simple_string(buf: &[u8]) -> (r: Result<(SimpleString, usize), RespError>)
    ensures
        read_is(decode_simple_string(buf@), buf@.len(), r),
{
    reveal(decode_simple_string);
    let prefix: [u8; 1] = [SIMPLE_STRING];
    assert(prefix@ =~= seq![SIMPLE_STRING]);
    match simple_frame_data(buf, prefix.as_slice()) {
        Err(e) => Err(e),
        Ok(end) => {
            let text = string_from_utf8_lossy(slice_subrange(buf, 1, end));
            Ok((SimpleString::new(text), end + 2))
        },
    }
}

/// Reads a simple error from the head of `buf`.
pub fn read_simple_error(buf: &[u8]) -> (r: Result<(SimpleError, usize), RespError>)
    ensures
        read_is(decode_simple_error(buf@), buf@.len(), r),
{
    reveal(decode_simple_error);
    let prefix: [u8; 1] = [SIMPLE_ERROR];
    assert(prefix@ =~= seq![SIMPLE_ERROR]);
    match simple_frame_data(buf, prefix.as_slice()) {
        Err(e) => Err(e),
        Ok(end) => {
            let text = string_from_utf8_lossy(slice_subrange(buf, 1, end));
            Ok((SimpleError::new(text), end + 2))
        },
    }
}

/// Reads an integer from the head of `buf`.
pub fn read_integer(buf: &[u8]) -> (r: Result<(i64, usize), RespError>)
    ensures
        read_is(decode_integer(buf@), buf@.len(), r),
{
    reveal(decode_integer);
    let prefix: [u8; 1] = [INTEGER];
    assert(prefix@ =~= seq![INTEGER]);
    match simple_frame_data(buf, prefix.as_slice()) {
        Err(e) => Err(e),
        Ok(end) => match read_i64(slice_subrange(buf, 1, end)) {
            Some(v) => Ok((v, end + 2)),
            None => Err(RespError::ParseIntError),
        },
    }
}

/// Reads a double from the head of `buf`.
pub fn read_double(buf: &[u8]) -> (r: Result<(RespDouble, usize), RespError>)
    ensures
        read_is(decode_double(buf@), buf@.len(), r),
{
    reveal(decode_double);
    let prefix: [u8; 1] = [DOUBLE];
    assert(prefix@ =~= seq![DOUBLE]);
    match simple_frame_data(buf, prefix.as_slice()) {
        Err(e) => Err(e),
        Ok(end) => {
            let text = slice_subrange(buf, 1, end);
            if is_double(text) {
                Ok((RespDouble(slice_to_vec(text)), end + 2))
            } else {
                Err(RespError::ParseFloatError)
            }
        },
    }
}

/// Reads a bulk string from the head of `buf`.
pub fn read_bulk_string(buf: &[u8]) -> (r: Result<(BulkString, usize), RespError>)
    ensures
        read_is(decode_bulk_string(buf@), buf@.len(), r),
{
    reveal(decode_bulk_string);
    let prefix: [u8; 1] = [BULK_STRING];
    assert(prefix@ =~= seq![BULK_STRING]);
    match length_header_of(buf, prefix.as_slice()) {
        Err(e) => Err(e),
        Ok((end, n)) => {
            let rest = buf.len() - (end + 2);
            if rest < 2 || rest - 2 < n {
                Err(RespError::NotComplete)
            } else {
                let data = slice_to_vec(slice_subrange(buf, end + 2, end + 2 + n));
                Ok((BulkString::new(data), end + 2 + n + 2))
            }
        },
    }
}

/// Reads the null value from the head of `buf`.
pub fn read_null(buf: &[u8]) -> (r: Result<(RespNull, usize), RespError>)
    ensures
        read_is(decode_null(buf@), buf@.len(), r),
{
    reveal(decode_null);
    let pattern: [u8; 3] = [NULL, CR, LF];
    assert(pattern@ =~= null_bytes());
    if buf.len() < 3 {
        Err(RespError::NotComplete)
    } else if !starts_with(buf, pattern.as_slice()) {
        Err(RespError::InvalidFrameType)
    } else {
        Ok((RespNull, 3))
    }
}

/// Reads a truth value from the head of `buf`.
pub fn read_boolean(buf: &[u8]) -> (r: Result<(bool, usize), RespError>)
    ensures
        read_is(decode_boolean(buf@), buf@.len(), r),
{
    reveal(decode_boolean);
    let yes: [u8; 4] = [BOOLEAN, TRUE, CR, LF];
    let no: [u8; 4] = [BOOLEAN, FALSE, CR, LF];
    assert(yes@ =~= true_bytes());
    assert(no@ =~= false_bytes());
    if buf.len() < 4 {
        Err(RespError::NotComplete)
    } else if starts_with(buf, yes.as_slice()) {
        Ok((true, 4))
    } else if starts_with(buf, no.as_slice()) {
        Ok((false, 4))
    } else {
        Err(RespError::InvalidFrameType)
    }
}

/// Reads the frame at the head of `buf`, whatever its kind.
pub fn read_frame(buf: &[u8]) -> (r: Result<(RespFrame, usize), RespError>)
    ensures
        read_is(decode_frame(buf@), buf@.len(), r),
    decreases buf@.len(), 3nat,
{
    reveal(decode_frame);
    if buf.len() == 0 {
        return Err(RespError::NotComplete);
    }
    let marker = buf[0];
    if marker == SIMPLE_STRING || marker == SIMPLE_ERROR || marker == INTEGER || marker == DOUBLE
    {
        read_line_frame(buf)
    } else if marker == NULL || marker == BOOLEAN {
        read_fixed_frame(buf)
    } else if marker == BULK_STRING {
        read_bulk_frame(buf)
    } else if marker == ARRAY {
        read_array_frame(buf)
    } else if marker == RESP_SET {
        read_set_frame(buf)
    } else if marker == RESP_MAP {
        read_map_frame(buf)
    } else {
        Err(RespError::InvalidFrameType)
    }
}

/// Reads a frame that is one line of text: a simple string, a simple error,
/// an integer or a double.
fn read_line_frame(buf: &[u8]) -> (r: Result<(RespFrame, usize), RespError>)
    requires
        buf@.len() > 0,
        buf@[0] == SIMPLE_STRING || buf@[0] == SIMPLE_ERROR || buf@[0] == INTEGER || buf@[0]
            == DOUBLE,
    ensures
        read_is(decode_frame(buf@), buf@.len(), r),
{
    reveal(decode_frame);
    let marker = buf[0];
    if marker == SIMPLE_STRING {
        match read_simple_string(buf) {
            Ok((v, n)) => Ok((RespFrame::SimpleString(v), n)),
            Err(e) => Err(e),
        }
    } else if marker == SIMPLE_ERROR {
        match read_simple_error(buf) {
            Ok((v, n)) => Ok((RespFrame::Error(v), n)),
            Err(e) => Err(e),
        }
    } else if marker == INTEGER {
        match read_integer(buf) {
            Ok((v, n)) => Ok((RespFrame::Integer(v), n)),
            Err(e) => Err(e),
        }
    } else {
        match read_double(buf) {
            Ok((v, n)) => Ok((RespFrame::Double(v), n)),
            Err(e) => Err(e),
        }
    }
}

/// Reads a frame of a fixed pattern: the null value or a truth value.
fn read_fixed_frame(buf: &[u8]) -> (r: Result<(RespFrame, usize), RespError>)
    requires
        buf@.len() > 0,
        buf@[0] == NULL || buf@[0] == BOOLEAN,
    ensures
        read_is(decode_frame(buf@), buf@.len(), r),
{
    reveal(decode_frame);
    if buf[0] == NULL {
        match read_null(buf) {
            Ok((v, n)) => Ok((RespFrame::Null(v), n)),
            Err(e) => Err(e),
        }
    } else {
        match read_boolean(buf) {
            Ok((v, n)) => Ok((RespFrame::Boolean(v), n)),
            Err(e) => Err(e),
        }
    }
}

/// Reads a frame behind the marker of a bulk string: the absent bulk string
/// is tried first.
fn read_bulk_frame(buf: &[u8]) -> (r: Result<(RespFrame, usize), RespError>)
    requires
        buf@.len() > 0,
        buf@[0] == BULK_STRING,
    ensures
        read_is(decode_frame(buf@), buf@.len(), r),
{
    reveal(decode_frame);
    let null: [u8; 5] = [BULK_STRING, MINUS, ONE, CR, LF];
    assert(null@ =~= null_bulk_string_bytes());
    if starts_with(buf, null.as_slice()) {
        Ok((RespFrame::NullBulkString(RespNullBulkString), 5))
    } else if is_short_of(buf, null.as_slice()) {
        Err(RespError::NotComplete)
    } else {
        match read_bulk_string(buf) {
            Ok((v, n)) => Ok((RespFrame::BulkString(v), n)),
            Err(e) => Err(e),
        }
    }
}

/// Reads a frame behind the marker of an array: the absent array is tried
/// first.
fn read_array_frame(buf: &[u8]) -> (r: Result<(RespFrame, usize), RespError>)
    requires
        buf@.len() > 0,
        buf@[0] == ARRAY,
    ensures
        read_is(decode_frame(buf@), buf@.len(), r),
    decreases buf@.len(), 2nat,
{
    reveal(decode_frame);
    let null: [u8; 5] = [ARRAY, MINUS, ONE, CR, LF];
    assert(null@ =~= null_array_bytes());
    if starts_with(buf, null.as_slice()) {
        Ok((RespFrame::NullArray(RespNullArray), 5))
    } else if is_short_of(buf, null.as_slice()) {
        Err(RespError::NotComplete)
    } else {
        match read_members(buf, ARRAY) {
            Ok((v, n)) => {
                proof {
                    lemma_frame_of_array(RespArray(v));
                }
                Ok((RespFrame::Array(RespArray(v)), n))
            },
            Err(e) => Err(e),
        }
    }
}

/// Reads a set.
fn read_set_frame(buf: &[u8]) -> (r: Result<(RespFrame, usize), RespError>)
    requires
        buf@.len() > 0,
        buf@[0] == RESP_SET,
    ensures
        read_is(decode_frame(buf@), buf@.len(), r),
    decreases buf@.len(), 2nat,
{
    reveal(decode_frame);
    match read_members(buf, RESP_SET) {
        Ok((v, n)) => {
            proof {
                lemma_frame_of_set(RespSet(v));
            }
            Ok((RespFrame::RespSet(RespSet(v)), n))
        },
        Err(e) => Err(e),
    }
}

/// Reads a map.
fn read_map_frame(buf: &[u8]) -> (r: Result<(RespFrame, usize), RespError>)
    requires
        buf@.len() > 0,
        buf@[0] == RESP_MAP,
    ensures
        read_is(decode_frame(buf@), buf@.len(), r),
    decreases buf@.len(), 2nat,
{
    reveal(decode_frame);
    match read_entries(buf) {
        Ok((v, n)) => {
            proof {
                lemma_frame_of_map(v);
            }
            Ok((RespFrame::RespMap(v), n))
        },
        Err(e) => Err(e),
    }
}

/// Joins the frames read so far, `d` bytes long, with the outcome of reading
/// the frames that follow them.
pub open spec fn with_frames(
    acc: Seq<Frame>,
    d: int,
    rest: Result<(Seq<Frame>, nat), RespError>,
) -> Result<(Seq<Frame>, nat), RespError> {
    match rest {
        Ok((fs, m)) => Ok((acc + fs, (d + m) as nat)),
        Err(e) => Err(e),
    }
}

/// Joins the entries read so far, `d` bytes long, with the outcome of
/// reading the entries that follow them.
pub open spec fn with_entries(
    acc: Seq<(Seq<char>, Frame)>,
    d: int,
    rest: Result<(Seq<(Seq<char>, Frame)>, nat), RespError>,
) -> Result<(Seq<(Seq<char>, Frame)>, nat), RespError> {
    match rest {
        Ok((es, m)) => Ok((acc + es, (d + m) as nat)),
        Err(e) => Err(e),
    }
}

/// One more frame read: the frames from `data` on are the frame at its head
/// and the frames behind it.
pub proof fn lemma_decode_frames_step(data: Seq<u8>, count: nat)
    requires
        count > 0,
    ensures
        decode_frames(data, count) == match decode_frame(data) {
            Err(e) => Err::<(Seq<Frame>, nat), RespError>(e),
            Ok((f, n)) => if n <= data.len() {
                with_frames(
                    seq![f],
                    n as int,
                    decode_frames(data.skip(n as int), (count - 1) as nat),
                )
            } else {
                Err(RespError::NotComplete)
            },
        },
{
    reveal(decode_frame);
}

/// One more entry read: the entries from `data` on are the entry at its
/// head and the entries behind it.
pub proof fn lemma_decode_entries_step(data: Seq<u8>, count: nat)
    requires
        count > 0,
    ensures
        decode_entries(data, count) == match decode_simple_string(data) {
            Err(e) => Err::<(Seq<(Seq<char>, Frame)>, nat), RespError>(e),
            Ok((key, k)) => if k <= data.len() {
                match decode_frame(data.skip(k as int)) {
                    Err(e) => Err(e),
                    Ok((value, v)) => if k + v <= data.len() {
                        with_entries(
                            seq![(key->SimpleString_0, value)],
                            (k + v) as int,
                            decode_entries(data.skip((k + v) as int), (count - 1) as nat),
                        )
                    } else {
                        Err(RespError::NotComplete)
                    },
                }
            } else {
                Err(RespError::NotComplete)
            },
        },
{
    reveal(decode_frame);
}

/// Joining is associative: one frame more among those read so far.
pub proof fn lemma_with_frames_push(
    acc: Seq<Frame>,
    d: int,
    f: Frame,
    n: int,
    rest: Result<(Seq<Frame>, nat), RespError>,
)
    requires
        0 <= d,
        0 <= n,
    ensures
        with_frames(acc, d, with_frames(seq![f], n, rest)) == with_frames(acc.push(f), d + n, rest),
{
    if rest is Ok {
        assert(acc + (seq![f] + rest->Ok_0.0) =~= acc.push(f) + rest->Ok_0.0);
    }
}

/// Joining is associative: one entry more among those read so far.
pub proof fn lemma_with_entries_push(
    acc: Seq<(Seq<char>, Frame)>,
    d: int,
    entry: (Seq<char>, Frame),
    n: int,
    rest: Result<(Seq<(Seq<char>, Frame)>, nat), RespError>,
)
    requires
        0 <= d,
        0 <= n,
    ensures
        with_entries(acc, d, with_entries(seq![entry], n, rest)) == with_entries(
            acc.push(entry),
            d + n,
            rest,
        ),
{
    if rest is Ok {
        assert(acc + (seq![entry] + rest->Ok_0.0) =~= acc.push(entry) + rest->Ok_0.0);
    }
}

/// Reads the members of an aggregate with the marker `marker`, which is that
/// of an array or a set, from the head of `buf`. The length of the whole is
/// found before any member is read.
pub fn read_members(buf: &[u8], marker: u8) -> (r: Result<(Vec<RespFrame>, usize), RespError>)
    requires
        marker == ARRAY || marker == RESP_SET,
    ensures
        match decode_members(buf@, seq![marker]) {
            Ok((fs, n)) => r is Ok && frames_of(r->Ok_0.0@) == fs && r->Ok_0.1 == n && n
                <= buf.len(),
            Err(e) => r is Err && r->Err_0 == e,
        },
    decreases buf@.len(), 1nat,
{
    let prefix: [u8; 1] = [marker];
    assert(prefix@ =~= seq![marker]);
    let (end, count) = match length_header_of(buf, prefix.as_slice()) {
        Err(e) => {
            return Err(e);
        },
        Ok(header) => header,
    };
    match total_length_of(buf, end, count, prefix.as_slice()) {
        Err(e) => {
            return Err(e);
        },
        Ok(_) => {},
    }
    let ghost whole = decode_frames(buf@.skip(end + 2), count as nat);
    let ghost model = decode_members(buf@, seq![marker]);
    assert(model == match whole {
        Err(e) => Err::<(Seq<Frame>, nat), RespError>(e),
        Ok((fs, m)) => Ok((fs, (end + 2 + m) as nat)),
    });
    let mut frames: Vec<RespFrame> = Vec::new();
    let mut pos: usize = end + 2;
    let mut i: usize = 0;
    proof {
        let rest = decode_frames(buf@.skip(pos as int), count as nat);
        if rest is Ok {
            assert(frames_of(frames@) + rest->Ok_0.0 =~= rest->Ok_0.0);
        }
    }
    while i < count
        invariant
            i <= count,
            1 <= end,
            end + 2 <= pos <= buf.len(),
            model == decode_members(buf@, seq![marker]),
            model == match whole {
                Err(e) => Err::<(Seq<Frame>, nat), RespError>(e),
                Ok((fs, m)) => Ok((fs, (end + 2 + m) as nat)),
            },
            whole == with_frames(
                frames_of(frames@),
                pos - (end + 2),
                decode_frames(buf@.skip(pos as int), (count - i) as nat),
            ),
        decreases count - i,
    {
        let data = slice_subrange(buf, pos, buf.len());
        let ghost acc = frames_of(frames@);
        proof {
            assert(data@ =~= buf@.skip(pos as int));
            lemma_decode_frames_step(data@, (count - i) as nat);
        }
        match read_frame(data) {
            Err(e) => {
                return Err(e);
            },
            Ok((f, n)) => {
                proof {
                    let rest = decode_frames(data@.skip(n as int), (count - i - 1) as nat);
                    assert(data@.skip(n as int) =~= buf@.skip(pos + n));
                    assert(frames_of(frames@.push(f)) =~= acc.push(frame_of(f)));
                    lemma_with_frames_push(acc, pos - (end + 2), frame_of(f), n as int, rest);
                }
                frames.push(f);
                pos = pos + n;
                i = i + 1;
            },
        }
    }
    proof {
        assert(frames_of(frames@) + Seq::<Frame>::empty() =~= frames_of(frames@));
    }
    Ok((frames, pos))
}

/// Reads a map from the head of `buf`: its entries, inserted in the order in
/// which they stand. The length of the whole is found before any entry is
/// read.
pub fn read_entries(buf: &[u8]) -> (r: Result<(RespMap, usize), RespError>)
    ensures
        read_is(decode_map(buf@), buf@.len(), r),
    decreases buf@.len(), 1nat,
{
    let prefix: [u8; 1] = [RESP_MAP];
    assert(prefix@ =~= seq![RESP_MAP]);
    let (end, count) = match length_header_of(buf, prefix.as_slice()) {
        Err(e) => {
            return Err(e);
        },
        Ok(header) => header,
    };
    match total_length_of(buf, end, count, prefix.as_slice()) {
        Err(e) => {
            return Err(e);
        },
        Ok(_) => {},
    }
    let ghost whole = decode_entries(buf@.skip(end + 2), count as nat);
    let ghost model = decode_map(buf@);
    assert(model == match whole {
        Err(e) => Err::<(Frame, nat), RespError>(e),
        Ok((pairs, m)) => Ok((Frame::RespMap(map_of(pairs)), (end + 2 + m) as nat)),
    });
    let ghost mut pairs: Seq<(Seq<char>, Frame)> = Seq::empty();
    let mut map = RespMap::new();
    let mut pos: usize = end + 2;
    let mut i: usize = 0;
    proof {
        let rest = decode_entries(buf@.skip(pos as int), count as nat);
        if rest is Ok {
            assert(pairs + rest->Ok_0.0 =~= rest->Ok_0.0);
        }
    }
    while i < count
        invariant
            i <= count,
            1 <= end,
            end + 2 <= pos <= buf.len(),
            map@ == map_of(pairs),
            model == decode_map(buf@),
            model == match whole {
                Err(e) => Err::<(Frame, nat), RespError>(e),
                Ok((pairs, m)) => Ok((Frame::RespMap(map_of(pairs)), (end + 2 + m) as nat)),
            },
            whole == with_entries(
                pairs,
                pos - (end + 2),
                decode_entries(buf@.skip(pos as int), (count - i) as nat),
            ),
        decreases count - i,
    {
        let data = slice_subrange(buf, pos, buf.len());
        proof {
            assert(data@ =~= buf@.skip(pos as int));
            lemma_decode_entries_step(data@, (count - i) as nat);
        }
        let (key, k) = match read_simple_string(data) {
            Err(e) => {
                return Err(e);
            },
            Ok(key) => key,
        };
        let rest = slice_subrange(buf, pos + k, buf.len());
        proof {
            assert(rest@ =~= data@.skip(k as int));
        }
        match read_frame(rest) {
            Err(e) => {
                return Err(e);
            },
            Ok((value, v)) => {
                proof {
                    let entry = (key@, frame_of(value));
                    let after = decode_entries(
                        data@.skip((k + v) as int),
                        (count - i - 1) as nat,
                    );
                    assert(data@.skip((k + v) as int) =~= buf@.skip(pos + k + v));
                    assert(pairs.push(entry).drop_last() =~= pairs);
                    assert(map_of(pairs.push(entry)) == map_insert(
                        map_of(pairs),
                        entry.0,
                        entry.1,
                    )) by {
                        reveal(map_of);
                    }
                    lemma_with_entries_push(pairs, pos - (end + 2), entry, (k + v) as int, after);
                    pairs = pairs.push(entry);
                }
                map.insert(key.0, value);
                pos = pos + k + v;
                i = i + 1;
            },
        }
    }
    proof {
        assert(pairs + Seq::<(Seq<char>, Frame)>::empty() =~= pairs);
    }
    Ok((map, pos))
}

} // verus!

verus! {

impl RespDecode for RespFrame {
    const PREFIX: &'static str = "";

    open spec fn decoded(buf: Seq<u8>) -> Result<(Frame, nat), RespError> {
        decode_frame(buf)
    }

    open spec fn expected_length(buf: Seq<u8>) -> Result<nat, RespError> {
        crate::resp::length::frame_len(buf)
    }

    fn decode(buf: &mut BytesMut) -> (r: Result<Self, RespError>) {
        let r = read_frame(as_slice(buf));
        consume(buf, r)
    }

    fn expect_length(buf: &[u8]) -> (r: Result<usize, RespError>) {
        frame_length(buf)
    }
}

impl RespDecode for i64 {
    const PREFIX: &'static str = ":";

    open spec fn decoded(buf: Seq<u8>) -> Result<(Frame, nat), RespError> {
        decode_integer(buf)
    }

    open spec fn expected_length(buf: Seq<u8>) -> Result<nat, RespError> {
        crate::resp::length::line_frame_len(buf, INTEGER)
    }

    fn decode(buf: &mut BytesMut) -> (r: Result<Self, RespError>) {
        let r = read_integer(as_slice(buf));
        consume(buf, r)
    }

    fn expect_length(buf: &[u8]) -> (r: Result<usize, RespError>) {
        crate::resp::length::line_length(buf, INTEGER)
    }
}

impl RespDecode for bool {
    const PREFIX: &'static str = "#";

    open spec fn decoded(buf: Seq<u8>) -> Result<(Frame, nat), RespError> {
        decode_boolean(buf)
    }

    open spec fn expected_length(buf: Seq<u8>) -> Result<nat, RespError> {
        crate::resp::length::fixed_frame_len(buf, 4)
    }

    fn decode(buf: &mut BytesMut) -> (r: Result<Self, RespError>) {
        proof {
            reveal(decode_boolean);
            crate::resp::length::lemma_pattern_bytes();
        }
        match extract_fixed_data(buf, "#t\r\n") {
            Ok(_) => Ok(true),
            Err(RespError::NotComplete) => Err(RespError::NotComplete),
            Err(_) => match extract_fixed_data(buf, "#f\r\n") {
                Ok(_) => Ok(false),
                Err(e) => Err(e),
            },
        }
    }

    fn expect_length(buf: &[u8]) -> (r: Result<usize, RespError>) {
        crate::resp::length::fixed_length(buf, 4)
    }
}

} // verus!
