//! The frame: one protocol value of any kind.

use crate::resp::array::{RespArray, RespNullArray};
use crate::resp::bulk_string::{BulkString, RespNullBulkString};
use crate::resp::double::RespDouble;
use crate::resp::map::RespMap;
use crate::resp::model::{Frame, RespValue};
use crate::resp::null::RespNull;
use crate::resp::set::RespSet;
use crate::resp::simple_error::SimpleError;
use crate::resp::simple_string::SimpleString;
use vstd::prelude::*;
use vstd::slice::slice_to_vec;

verus! {

/// One protocol value. The variants are all the kinds of frame there are.
#[derive(Debug, PartialEq, PartialOrd)]
pub enum RespFrame {
    /// A line of text.
    SimpleString(SimpleString),
    /// A line of text that reports an error.
    Error(SimpleError),
    /// A signed 64-bit integer.
    Integer(i64),
    /// A sequence of bytes with its length in front.
    BulkString(BulkString),
    /// The bulk string that is absent.
    NullBulkString(RespNullBulkString),
    /// An ordered sequence of frames.
    Array(RespArray),
    /// The array that is absent.
    NullArray(RespNullArray),
    /// The null value.
    Null(RespNull),
    /// A truth value.
    Boolean(bool),
    /// A floating-point number, held as its decimal text.
    Double(RespDouble),
    /// A mapping from text keys to frames.
    RespMap(RespMap),
    /// An ordered sequence of frames under the marker of a set.
    RespSet(RespSet),
}

/// The mathematical value of a frame.
pub open spec fn frame_of(f: RespFrame) -> Frame
    decreases f,
{
    match f {
        RespFrame::SimpleString(s) => Frame::SimpleString(s.0@),
        RespFrame::Error(s) => Frame::Error(s.0@),
        RespFrame::Integer(n) => Frame::Integer(n),
        RespFrame::BulkString(b) => Frame::BulkString(b.0@),
        RespFrame::NullBulkString(_) => Frame::NullBulkString,
        RespFrame::Array(a) => Frame::Array(
            Seq::new(
                a.0@.len(),
                |i: int|
                    if 0 <= i < a.0@.len() {
                        frame_of(a.0@[i])
                    } else {
                        Frame::Null
                    },
            ),
        ),
        RespFrame::NullArray(_) => Frame::NullArray,
        RespFrame::Null(_) => Frame::Null,
        RespFrame::Boolean(b) => Frame::Boolean(b),
        RespFrame::Double(d) => Frame::Double(d.0@),
        RespFrame::RespMap(m) => Frame::RespMap(
            Seq::new(
                m.0@.len(),
                |i: int|
                    if 0 <= i < m.0@.len() {
                        (m.0@[i].0@, frame_of(m.0@[i].1))
                    } else {
                        (Seq::empty(), Frame::Null)
                    },
            ),
        ),
        RespFrame::RespSet(a) => Frame::RespSet(
            Seq::new(
                a.0@.len(),
                |i: int|
                    if 0 <= i < a.0@.len() {
                        frame_of(a.0@[i])
                    } else {
                        Frame::Null
                    },
            ),
        ),
    }
}

/// The mathematical values of a sequence of frames.
pub open spec fn frames_of(fs: Seq<RespFrame>) -> Seq<Frame> {
    Seq::new(fs.len(), |i: int| frame_of(fs[i]))
}

/// The mathematical values of the entries of a map.
pub open spec fn entries_of(es: Seq<(String, RespFrame)>) -> Seq<(Seq<char>, Frame)> {
    Seq::new(es.len(), |i: int| (es[i].0@, frame_of(es[i].1)))
}

impl RespValue for RespFrame {
    open spec fn frame(&self) -> Frame {
        frame_of(*self)
    }
}

impl RespValue for i64 {
    open spec fn frame(&self) -> Frame {
        Frame::Integer(*self)
    }
}

impl RespValue for bool {
    open spec fn frame(&self) -> Frame {
        Frame::Boolean(*self)
    }
}

/// The value of an array is the values of its members.
pub proof fn lemma_frame_of_array(a: RespArray)
    ensures
        frame_of(RespFrame::Array(a)) == Frame::Array(a@),
{
    assert(frame_of(RespFrame::Array(a))->Array_0 =~= frames_of(a.0@));
}

/// The value of a set is the values of its members.
pub proof fn lemma_frame_of_set(a: RespSet)
    ensures
        frame_of(RespFrame::RespSet(a)) == Frame::RespSet(a@),
{
    assert(frame_of(RespFrame::RespSet(a))->RespSet_0 =~= frames_of(a.0@));
}

/// The value of a map is the values of its entries.
pub proof fn lemma_frame_of_map(m: RespMap)
    ensures
        frame_of(RespFrame::RespMap(m)) == Frame::RespMap(m@),
{
    assert(frame_of(RespFrame::RespMap(m))->RespMap_0 =~= entries_of(m.0@));
}

impl From<SimpleString> for RespFrame {
    fn from(v: SimpleString) -> (r: RespFrame) {
        RespFrame::SimpleString(v)
    }
}

impl vstd::std_specs::convert::FromSpecImpl<SimpleString> for RespFrame {
    open spec fn obeys_from_spec() -> bool {
        true
    }

    open spec fn from_spec(v: SimpleString) -> RespFrame {
        RespFrame::SimpleString(v)
    }
}

impl From<SimpleError> for RespFrame {
    fn from(v: SimpleError) -> (r: RespFrame) {
        RespFrame::Error(v)
    }
}

impl vstd::std_specs::convert::FromSpecImpl<SimpleError> for RespFrame {
    open spec fn obeys_from_spec() -> bool {
        true
    }

    open spec fn from_spec(v: SimpleError) -> RespFrame {
        RespFrame::Error(v)
    }
}

impl From<i64> for RespFrame {
    fn from(v: i64) -> (r: RespFrame) {
        RespFrame::Integer(v)
    }
}

impl vstd::std_specs::convert::FromSpecImpl<i64> for RespFrame {
    open spec fn obeys_from_spec() -> bool {
        true
    }

    open spec fn from_spec(v: i64) -> RespFrame {
        RespFrame::Integer(v)
    }
}

impl From<BulkString> for RespFrame {
    fn from(v: BulkString) -> (r: RespFrame) {
        RespFrame::BulkString(v)
    }
}

impl vstd::std_specs::convert::FromSpecImpl<BulkString> for RespFrame {
    open spec fn obeys_from_spec() -> bool {
        true
    }

    open spec fn from_spec(v: BulkString) -> RespFrame {
        RespFrame::BulkString(v)
    }
}

impl From<RespNullBulkString> for RespFrame {
    fn from(v: RespNullBulkString) -> (r: RespFrame) {
        RespFrame::NullBulkString(v)
    }
}

impl vstd::std_specs::convert::FromSpecImpl<RespNullBulkString> for RespFrame {
    open spec fn obeys_from_spec() -> bool {
        true
    }

    open spec fn from_spec(v: RespNullBulkString) -> RespFrame {
        RespFrame::NullBulkString(v)
    }
}

impl From<RespArray> for RespFrame {
    fn from(v: RespArray) -> (r: RespFrame) {
        RespFrame::Array(v)
    }
}

impl vstd::std_specs::convert::FromSpecImpl<RespArray> for RespFrame {
    open spec fn obeys_from_spec() -> bool {
        true
    }

    open spec fn from_spec(v: RespArray) -> RespFrame {
        RespFrame::Array(v)
    }
}

impl From<RespNullArray> for RespFrame {
    fn from(v: RespNullArray) -> (r: RespFrame) {
        RespFrame::NullArray(v)
    }
}

impl vstd::std_specs::convert::FromSpecImpl<RespNullArray> for RespFrame {
    open spec fn obeys_from_spec() -> bool {
        true
    }

    open spec fn from_spec(v: RespNullArray) -> RespFrame {
        RespFrame::NullArray(v)
    }
}

impl From<RespNull> for RespFrame {
    fn from(v: RespNull) -> (r: RespFrame) {
        RespFrame::Null(v)
    }
}

impl vstd::std_specs::convert::FromSpecImpl<RespNull> for RespFrame {
    open spec fn obeys_from_spec() -> bool {
        true
    }

    open spec fn from_spec(v: RespNull) -> RespFrame {
        RespFrame::Null(v)
    }
}

impl From<bool> for RespFrame {
    fn from(v: bool) -> (r: RespFrame) {
        RespFrame::Boolean(v)
    }
}

impl vstd::std_specs::convert::FromSpecImpl<bool> for RespFrame {
    open spec fn obeys_from_spec() -> bool {
        true
    }

    open spec fn from_spec(v: bool) -> RespFrame {
        RespFrame::Boolean(v)
    }
}

impl From<RespDouble> for RespFrame {
    fn from(v: RespDouble) -> (r: RespFrame) {
        RespFrame::Double(v)
    }
}

impl vstd::std_specs::convert::FromSpecImpl<RespDouble> for RespFrame {
    open spec fn obeys_from_spec() -> bool {
        true
    }

    open spec fn from_spec(v: RespDouble) -> RespFrame {
        RespFrame::Double(v)
    }
}

impl From<RespMap> for RespFrame {
    fn from(v: RespMap) -> (r: RespFrame) {
        RespFrame::RespMap(v)
    }
}

impl vstd::std_specs::convert::FromSpecImpl<RespMap> for RespFrame {
    open spec fn obeys_from_spec() -> bool {
        true
    }

    open spec fn from_spec(v: RespMap) -> RespFrame {
        RespFrame::RespMap(v)
    }
}

impl From<RespSet> for RespFrame {
    fn from(v: RespSet) -> (r: RespFrame) {
        RespFrame::RespSet(v)
    }
}

impl vstd::std_specs::convert::FromSpecImpl<RespSet> for RespFrame {
    open spec fn obeys_from_spec() -> bool {
        true
    }

    open spec fn from_spec(v: RespSet) -> RespFrame {
        RespFrame::RespSet(v)
    }
}

impl From<&str> for RespFrame {
    fn from(s: &str) -> (r: RespFrame)
        ensures
            frame_of(r) == Frame::SimpleString(s@),
    {
        RespFrame::SimpleString(SimpleString(s.to_string()))
    }
}

impl vstd::std_specs::convert::FromSpecImpl<&str> for RespFrame {
    open spec fn obeys_from_spec() -> bool {
        false
    }

    open spec fn from_spec(v: &str) -> RespFrame {
        arbitrary()
    }
}

impl From<&[u8]> for RespFrame {
    fn from(s: &[u8]) -> (r: RespFrame)
        ensures
            frame_of(r) == Frame::BulkString(s@),
    {
        RespFrame::BulkString(BulkString(slice_to_vec(s)))
    }
}

impl vstd::std_specs::convert::FromSpecImpl<&[u8]> for RespFrame {
    open spec fn obeys_from_spec() -> bool {
        false
    }

    open spec fn from_spec(v: &[u8]) -> RespFrame {
        arbitrary()
    }
}

impl<const N: usize> From<&[u8; N]> for RespFrame {
    fn from(s: &[u8; N]) -> (r: RespFrame)
        ensures
            frame_of(r) == Frame::BulkString(s@),
    {
        RespFrame::BulkString(BulkString(slice_to_vec(s.as_slice())))
    }
}

impl<const N: usize> vstd::std_specs::convert::FromSpecImpl<&[u8; N]> for RespFrame {
    open spec fn obeys_from_spec() -> bool {
        false
    }

    open spec fn from_spec(v: &[u8; N]) -> RespFrame {
        arbitrary()
    }
}

/// A copy of the frame `f`.
pub fn clone_frame(f: &RespFrame) -> (r: RespFrame)
    ensures
        frame_of(r) == frame_of(*f),
    decreases f,
{
    match f {
        RespFrame::SimpleString(s) => RespFrame::SimpleString(SimpleString(s.0.clone())),
        RespFrame::Error(s) => RespFrame::Error(SimpleError(s.0.clone())),
        RespFrame::Integer(n) => RespFrame::Integer(*n),
        RespFrame::BulkString(b) => RespFrame::BulkString(BulkString(slice_to_vec(b.0.as_slice()))),
        RespFrame::NullBulkString(_) => RespFrame::NullBulkString(RespNullBulkString),
        RespFrame::Array(a) => {
            let copy = clone_frames(&a.0);
            proof {
                lemma_frame_of_array(*a);
                lemma_frame_of_array(RespArray(copy));
            }
            RespFrame::Array(RespArray(copy))
        },
        RespFrame::NullArray(_) => RespFrame::NullArray(RespNullArray),
        RespFrame::Null(_) => RespFrame::Null(RespNull),
        RespFrame::Boolean(b) => RespFrame::Boolean(*b),
        RespFrame::Double(d) => RespFrame::Double(RespDouble(slice_to_vec(d.0.as_slice()))),
        RespFrame::RespMap(m) => {
            let copy = clone_entries(&m.0);
            proof {
                lemma_frame_of_map(*m);
                lemma_frame_of_map(RespMap(copy));
            }
            RespFrame::RespMap(RespMap(copy))
        },
        RespFrame::RespSet(a) => {
            let copy = clone_frames(&a.0);
            proof {
                lemma_frame_of_set(*a);
                lemma_frame_of_set(RespSet(copy));
            }
            RespFrame::RespSet(RespSet(copy))
        },
    }
}

/// A copy of the frames `fs`.
pub fn clone_frames(fs: &Vec<RespFrame>) -> (r: Vec<RespFrame>)
    ensures
        frames_of(r@) == frames_of(fs@),
    decreases fs,
{
    let mut copy: Vec<RespFrame> = Vec::new();
    let mut i: usize = 0;
    while i < fs.len()
        invariant
            i <= fs.len(),
            copy@.len() == i,
            forall|j: int| 0 <= j < i ==> frame_of(copy@[j]) == frame_of(fs@[j]),
        decreases fs.len() - i,
    {
        let f = clone_frame(&fs[i]);
        copy.push(f);
        i += 1;
    }
    assert(frames_of(copy@) =~= frames_of(fs@));
    copy
}

/// A copy of the entries `es`.
pub fn clone_entries(es: &Vec<(String, RespFrame)>) -> (r: Vec<(String, RespFrame)>)
    ensures
        entries_of(r@) == entries_of(es@),
    decreases es,
{
    let mut copy: Vec<(String, RespFrame)> = Vec::new();
    let mut i: usize = 0;
    while i < es.len()
        invariant
            i <= es.len(),
            copy@.len() == i,
            forall|j: int|
                0 <= j < i ==> copy@[j].0@ == es@[j].0@ && frame_of(copy@[j].1) == frame_of(
                    es@[j].1,
                ),
        decreases es.len() - i,
    {
        let key = es[i].0.clone();
        let value = clone_frame(&es[i].1);
        copy.push((key, value));
        i += 1;
    }
    assert(entries_of(copy@) =~= entries_of(es@));
    copy
}

impl Clone for RespFrame {
    fn clone(&self) -> (r: RespFrame)
        ensures
            frame_of(r) == frame_of(*self),
    {
        clone_frame(self)
    }
}

} // verus!
