//! Line terminators: where the header line of a frame ends.

use crate::resp::buffer::{advance, as_slice, contents};
use crate::resp::error::RespError;
use bytes::BytesMut;
use vstd::prelude::*;
use vstd::string::*;

verus! {

/// Carriage return, the first byte of a line terminator.
pub const CR: u8 = 13;

/// Line feed, the second byte of a line terminator.
pub const LF: u8 = 10;

/// The two bytes of a line terminator.
pub open spec fn crlf() -> Seq<u8> {
    seq![CR, LF]
}

/// A line terminator starts at index `i` of `buf`.
pub open spec fn crlf_at(buf: Seq<u8>, i: int) -> bool {
    0 <= i && i + 1 < buf.len() && buf[i] == CR && buf[i + 1] == LF
}

/// How many line terminators start at an index from `lo` up to, not
/// including, `hi`.
pub open spec fn crlf_count(buf: Seq<u8>, lo: int, hi: int) -> nat
    decreases hi - lo,
{
    if hi <= lo {
        0
    } else {
        crlf_count(buf, lo, hi - 1) + if crlf_at(buf, hi - 1) {
            1nat
        } else {
            0nat
        }
    }
}

/// The `nth` line terminator of `buf`, counted from one and searched from
/// index 1 on (index 0 holds the marker byte), starts at index `i`.
pub open spec fn is_nth_crlf(buf: Seq<u8>, nth: nat, i: int) -> bool {
    1 <= i && crlf_at(buf, i) && crlf_count(buf, 1, i) + 1 == nth
}

/// The first index at or after `i` where a line terminator starts.
pub open spec fn crlf_from(buf: Seq<u8>, i: int) -> Option<int>
    decreases buf.len() - i,
{
    if i + 1 >= buf.len() {
        None
    } else if crlf_at(buf, i) {
        Some(i)
    } else {
        crlf_from(buf, i + 1)
    }
}

/// Where the header line of the frame at the head of `buf` ends: the index of
/// the first line terminator that starts after the marker byte.
pub open spec fn line_end(buf: Seq<u8>) -> Option<int> {
    crlf_from(buf, 1)
}

/// `crlf_from` finds a terminator, the first one, whenever there is one.
pub proof fn lemma_crlf_from(buf: Seq<u8>, i: int)
    requires
        0 <= i,
    ensures
        match crlf_from(buf, i) {
            Some(e) => i <= e && crlf_at(buf, e) && forall|j: int| i <= j < e ==> !crlf_at(buf, j),
            None => forall|j: int| i <= j ==> !crlf_at(buf, j),
        },
    decreases buf.len() - i,
{
    if i + 1 < buf.len() && !crlf_at(buf, i) {
        lemma_crlf_from(buf, i + 1);
    }
}

/// A position `e` that starts a terminator, with none between `i` and `e`, is
/// what `crlf_from` finds.
pub proof fn lemma_crlf_from_is(buf: Seq<u8>, i: int, e: int)
    requires
        0 <= i <= e,
        crlf_at(buf, e),
        forall|j: int| i <= j < e ==> !crlf_at(buf, j),
    ensures
        crlf_from(buf, i) == Some(e),
{
    lemma_crlf_from(buf, i);
}

/// Without a terminator at or after `i`, `crlf_from` finds none.
pub proof fn lemma_crlf_from_none(buf: Seq<u8>, i: int)
    requires
        0 <= i,
        forall|j: int| i <= j ==> !crlf_at(buf, j),
    ensures
        crlf_from(buf, i) is None,
{
    lemma_crlf_from(buf, i);
}

/// The header line of a frame with the marker `prefix`: the index where its
/// terminator starts. A buffer of fewer than three bytes cannot hold a line;
/// after that the marker is checked, and only then the terminator is sought.
pub open spec fn simple_frame_end(buf: Seq<u8>, prefix: Seq<u8>) -> Result<int, RespError> {
    if buf.len() < 3 {
        Err(RespError::NotComplete)
    } else if !prefix.is_prefix_of(buf) {
        Err(RespError::InvalidFrameType)
    } else {
        match line_end(buf) {
            Some(e) => Ok(e),
            None => Err(RespError::NotComplete),
        }
    }
}

/// Finds the `nth` line terminator of `buf`, counted from one. The search
/// starts at index 1, behind the marker byte. The result is the index of the
/// terminator's first byte.
pub fn find_crlf(buf: &[u8], nth: usize) -> (r: Option<usize>)
    ensures
        match r {
            Some(i) => is_nth_crlf(buf@, nth as nat, i as int),
            None => forall|i: int| !is_nth_crlf(buf@, nth as nat, i),
        },
        nth == 1 ==> match r {
            Some(i) => line_end(buf@) == Some(i as int),
            None => line_end(buf@) is None,
        },
{
    if buf.len() < 2 {
        return None;
    }
    let mut count: usize = 0;
    let mut i: usize = 1;
    while i < buf.len() - 1
        invariant
            1 <= i <= buf.len() - 1,
            count == crlf_count(buf@, 1, i as int),
            count <= i,
            count < nth || nth == 0,
            forall|j: int| 1 <= j < i ==> !is_nth_crlf(buf@, nth as nat, j),
            nth == 1 ==> crlf_from(buf@, 1) == crlf_from(buf@, i as int),
        decreases buf.len() - i,
    {
        if buf[i] == CR && buf[i + 1] == LF {
            count += 1;
            if count == nth {
                return Some(i);
            }
        }
        i += 1;
    }
    None
}

/// `buf` begins with the bytes of `pat`.
pub fn starts_with(buf: &[u8], pat: &[u8]) -> (r: bool)
    ensures
        r == pat@.is_prefix_of(buf@),
{
    if pat.len() > buf.len() {
        return false;
    }
    let mut i: usize = 0;
    while i < pat.len()
        invariant
            i <= pat.len() <= buf.len(),
            forall|j: int| 0 <= j < i ==> pat@[j] == buf@[j],
        decreases pat.len() - i,
    {
        if buf[i] != pat[i] {
            assert(buf@.subrange(0, pat@.len() as int)[i as int] == buf@[i as int]);
            return false;
        }
        i += 1;
    }
    assert(pat@ =~= buf@.subrange(0, pat@.len() as int));
    true
}

/// Locates the terminator of the header line of a frame whose marker is the
/// bytes `prefix`.
pub fn simple_frame_data(buf: &[u8], prefix: &[u8]) -> (r: Result<usize, RespError>)
    ensures
        match simple_frame_end(buf@, prefix@) {
            Ok(e) => r == Ok::<usize, RespError>(e as usize) && 1 <= e && e + 2 <= buf.len(),
            Err(e) => r == Err::<usize, RespError>(e),
        },
{
    if buf.len() < 3 {
        return Err(RespError::NotComplete);
    }
    if !starts_with(buf, prefix) {
        return Err(RespError::InvalidFrameType);
    }
    match find_crlf(buf, 1) {
        Some(end) => Ok(end),
        None => Err(RespError::NotComplete),
    }
}

/// Locates the terminator of the header line of a frame with the marker
/// `prefix`, without consuming anything.
pub fn extract_simple_frame_data(buf: &[u8], prefix: &str) -> (r: Result<usize, RespError>)
    ensures
        match simple_frame_end(buf@, prefix.spec_bytes()) {
            Ok(e) => r == Ok::<usize, RespError>(e as usize) && 1 <= e && e + 2 <= buf.len(),
            Err(e) => r == Err::<usize, RespError>(e),
        },
{
    simple_frame_data(buf, prefix.as_bytes())
}

/// Removes the fixed pattern `expect` from the head of the buffer. A buffer
/// shorter than the pattern is not complete; one that begins otherwise holds
/// another kind of frame. The buffer changes only on success.
pub fn extract_fixed_data(buf: &mut BytesMut, expect: &str) -> (r: Result<(), RespError>)
    ensures
        r == fixed_data(contents(*old(buf)), expect.spec_bytes()),
        r is Ok ==> contents(*final(buf)) == contents(*old(buf)).skip(
            expect.spec_bytes().len() as int,
        ),
        r is Err ==> contents(*final(buf)) == contents(*old(buf)),
{
    let pat = expect.as_bytes();
    let data = as_slice(buf);
    if data.len() < pat.len() {
        return Err(RespError::NotComplete);
    }
    if !starts_with(data, pat) {
        return Err(RespError::InvalidFrameType);
    }
    advance(buf, pat.len());
    Ok(())
}

/// Whether `buf` begins with the fixed pattern `expect`, as
/// `extract_fixed_data` judges it.
pub open spec fn fixed_data(buf: Seq<u8>, expect: Seq<u8>) -> Result<(), RespError> {
    if buf.len() < expect.len() {
        Err(RespError::NotComplete)
    } else if !expect.is_prefix_of(buf) {
        Err(RespError::InvalidFrameType)
    } else {
        Ok(())
    }
}

} // verus!
