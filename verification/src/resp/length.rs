//! Lengths: how many bytes the frame at the head of a buffer takes up, found
//! without reading what the frame holds.

use crate::resp::error::RespError;
use crate::resp::line::{simple_frame_data, simple_frame_end, starts_with, CR, LF};
use crate::resp::marker::{
    ARRAY, BOOLEAN, BULK_STRING, DOUBLE, FALSE, INTEGER, MINUS, NULL, ONE, RESP_MAP, RESP_SET,
    SIMPLE_ERROR, SIMPLE_STRING, TRUE,
};
use crate::resp::number::{parse_usize, read_usize};
use vstd::prelude::*;
use vstd::slice::slice_subrange;
use vstd::string::*;

verus! {

/// The bytes of the null value.
pub open spec fn null_bytes() -> Seq<u8> {
    seq![NULL, CR, LF]
}

/// The bytes of the truth value true.
pub open spec fn true_bytes() -> Seq<u8> {
    seq![BOOLEAN, TRUE, CR, LF]
}

/// The bytes of the truth value false.
pub open spec fn false_bytes() -> Seq<u8> {
    seq![BOOLEAN, FALSE, CR, LF]
}

/// The bytes of the absent bulk string.
pub open spec fn null_bulk_string_bytes() -> Seq<u8> {
    seq![BULK_STRING, MINUS, ONE, CR, LF]
}

/// The bytes of the absent array.
pub open spec fn null_array_bytes() -> Seq<u8> {
    seq![ARRAY, MINUS, ONE, CR, LF]
}

/// The fixed patterns, written as text, are the bytes that the model names.
pub proof fn lemma_pattern_bytes()
    ensures
        "_\r\n".spec_bytes() == null_bytes(),
        "#t\r\n".spec_bytes() == true_bytes(),
        "#f\r\n".spec_bytes() == false_bytes(),
        "$-1\r\n".spec_bytes() == null_bulk_string_bytes(),
        "*-1\r\n".spec_bytes() == null_array_bytes(),
{
    reveal_strlit("_\r\n");
    reveal_strlit("#t\r\n");
    reveal_strlit("#f\r\n");
    reveal_strlit("$-1\r\n");
    reveal_strlit("*-1\r\n");
    is_ascii_spec_bytes("_\r\n");
    is_ascii_spec_bytes("#t\r\n");
    is_ascii_spec_bytes("#f\r\n");
    is_ascii_spec_bytes("$-1\r\n");
    is_ascii_spec_bytes("*-1\r\n");
    assert("_\r\n".spec_bytes() =~= null_bytes());
    assert("#t\r\n".spec_bytes() =~= true_bytes());
    assert("#f\r\n".spec_bytes() =~= false_bytes());
    assert("$-1\r\n".spec_bytes() =~= null_bulk_string_bytes());
    assert("*-1\r\n".spec_bytes() =~= null_array_bytes());
}

/// `buf` is merely short of `pattern`: it is a beginning of the pattern and
/// not yet all of it.
pub open spec fn short_of(buf: Seq<u8>, pattern: Seq<u8>) -> bool {
    buf.len() < pattern.len() && buf.is_prefix_of(pattern)
}

/// The text of a length header: what stands between the marker, `skip` bytes
/// long, and the terminator at `end`.
pub open spec fn header_text(buf: Seq<u8>, skip: int, end: int) -> Seq<u8> {
    if 0 <= skip <= end <= buf.len() {
        buf.subrange(skip, end)
    } else {
        Seq::empty()
    }
}

/// The header line of a sized frame with the marker `prefix`: where its
/// terminator starts, and the length or count that it declares.
#[verifier::opaque]
pub open spec fn length_header(buf: Seq<u8>, prefix: Seq<u8>) -> Result<(int, nat), RespError> {
    match simple_frame_end(buf, prefix) {
        Err(e) => Err(e),
        Ok(end) => match parse_usize(header_text(buf, prefix.len() as int, end)) {
            Some(n) => Ok((end, n as nat)),
            None => Err(RespError::InvalidFrameLength),
        },
    }
}

/// The length of a frame that is one line: through its terminator.
pub open spec fn line_frame_len(buf: Seq<u8>, marker: u8) -> Result<nat, RespError> {
    match simple_frame_end(buf, seq![marker]) {
        Ok(end) => Ok((end + 2) as nat),
        Err(e) => Err(e),
    }
}

/// The length of a frame of the fixed length `n`, once the buffer holds it.
pub open spec fn fixed_frame_len(buf: Seq<u8>, n: nat) -> Result<nat, RespError> {
    if buf.len() >= n {
        Ok(n)
    } else {
        Err(RespError::NotComplete)
    }
}

/// The length of a bulk string: the header line, the declared number of
/// bytes, and two bytes for the terminator, once the buffer holds them all.
pub open spec fn bulk_len(buf: Seq<u8>) -> Result<nat, RespError> {
    match length_header(buf, seq![BULK_STRING]) {
        Err(e) => Err(e),
        Ok((end, n)) => if end + 2 + n + 2 <= buf.len() {
            Ok((end + 2 + n + 2) as nat)
        } else {
            Err(RespError::NotComplete)
        },
    }
}

/// The length of the frame at the head of `buf`, whatever its kind: the
/// number of bytes that decoding it will consume. `NotComplete` asks for
/// more bytes; an unknown marker asks for them too, since the length of
/// such a frame cannot be told.
#[verifier::opaque]
pub open spec fn frame_len(buf: Seq<u8>) -> Result<nat, RespError>
    decreases buf.len(), 3nat,
{
    if buf.len() == 0 {
        Err(RespError::NotComplete)
    } else if buf[0] == SIMPLE_STRING || buf[0] == SIMPLE_ERROR || buf[0] == INTEGER || buf[0]
        == DOUBLE {
        line_frame_len(buf, buf[0])
    } else if buf[0] == NULL {
        fixed_frame_len(buf, 3)
    } else if buf[0] == BOOLEAN {
        fixed_frame_len(buf, 4)
    } else if buf[0] == BULK_STRING {
        if null_bulk_string_bytes().is_prefix_of(buf) {
            Ok(5)
        } else if short_of(buf, null_bulk_string_bytes()) {
            Err(RespError::NotComplete)
        } else {
            bulk_len(buf)
        }
    } else if buf[0] == ARRAY {
        if null_array_bytes().is_prefix_of(buf) {
            Ok(5)
        } else if short_of(buf, null_array_bytes()) {
            Err(RespError::NotComplete)
        } else {
            aggregate_len(buf, seq![ARRAY])
        }
    } else if buf[0] == RESP_SET {
        aggregate_len(buf, seq![RESP_SET])
    } else if buf[0] == RESP_MAP {
        aggregate_len(buf, seq![RESP_MAP])
    } else {
        Err(RespError::NotComplete)
    }
}

/// The length of an aggregate frame with the marker `prefix`: its header
/// line and all the members that the header declares.
pub open spec fn aggregate_len(buf: Seq<u8>, prefix: Seq<u8>) -> Result<nat, RespError>
    decreases buf.len(), 2nat,
{
    match length_header(buf, prefix) {
        Err(e) => Err(e),
        Ok((end, n)) => total_length(buf, end, n, prefix),
    }
}

/// The length of a frame whose header line ends at `end` and declares `len`:
/// for an array or a set, the header and `len` frames; for a map, the header
/// and `len` pairs of a simple string and a frame; for any other marker, the
/// declared length and a terminator.
pub open spec fn total_length(buf: Seq<u8>, end: int, len: nat, prefix: Seq<u8>) -> Result<
    nat,
    RespError,
>
    decreases buf.len(), 1nat,
{
    if prefix == seq![ARRAY] || prefix == seq![RESP_SET] {
        if 0 <= end && end + 2 <= buf.len() {
            match frames_len(buf.skip(end + 2), len) {
                Ok(m) => Ok((end + 2 + m) as nat),
                Err(e) => Err(e),
            }
        } else {
            Err(RespError::NotComplete)
        }
    } else if prefix == seq![RESP_MAP] {
        if 0 <= end && end + 2 <= buf.len() {
            match entries_len(buf.skip(end + 2), len) {
                Ok(m) => Ok((end + 2 + m) as nat),
                Err(e) => Err(e),
            }
        } else {
            Err(RespError::NotComplete)
        }
    } else {
        Ok(len + 2)
    }
}

/// The length of `count` frames that stand one after the other at the head
/// of `data`. Each frame lies within the data that is there.
pub open spec fn frames_len(data: Seq<u8>, count: nat) -> Result<nat, RespError>
    decreases data.len(), count + 4,
{
    if count == 0 {
        Ok(0)
    } else {
        match frame_len(data) {
            Err(e) => Err(e),
            Ok(n) => if n <= data.len() {
                match frames_len(data.skip(n as int), (count - 1) as nat) {
                    Ok(m) => Ok(n + m),
                    Err(e) => Err(e),
                }
            } else {
                Err(RespError::NotComplete)
            },
        }
    }
}

/// The length of `count` map entries at the head of `data`: each a simple
/// string, the key, and then a frame of any kind, the value.
pub open spec fn entries_len(data: Seq<u8>, count: nat) -> Result<nat, RespError>
    decreases data.len(), count + 4,
{
    if count == 0 {
        Ok(0)
    } else {
        match line_frame_len(data, SIMPLE_STRING) {
            Err(e) => Err(e),
            Ok(k) => if k <= data.len() {
                match frame_len(data.skip(k as int)) {
                    Err(e) => Err(e),
                    Ok(v) => if k + v <= data.len() {
                        match entries_len(data.skip((k + v) as int), (count - 1) as nat) {
                            Ok(m) => Ok(k + v + m),
                            Err(e) => Err(e),
                        }
                    } else {
                        Err(RespError::NotComplete)
                    },
                }
            } else {
                Err(RespError::NotComplete)
            },
        }
    }
}

/// Whether a length that was computed is the length that the model gives.
pub open spec fn length_is(model: Result<nat, RespError>, r: Result<usize, RespError>) -> bool {
    match model {
        Ok(n) => r == Ok::<usize, RespError>(n as usize),
        Err(e) => r == Err::<usize, RespError>(e),
    }
}

/// Reads the header line of a sized frame whose marker is the bytes
/// `prefix`.
pub fn length_header_of(buf: &[u8], prefix: &[u8]) -> (r: Result<(usize, usize), RespError>)
    ensures
        match length_header(buf@, prefix@) {
            Ok((end, n)) => r == Ok::<(usize, usize), RespError>((end as usize, n as usize)) && 1
                <= end && end + 2 <= buf.len() && n <= usize::MAX,
            Err(e) => r == Err::<(usize, usize), RespError>(e),
        },
{
    reveal(length_header);
    let end = match simple_frame_data(buf, prefix) {
        Ok(end) => end,
        Err(e) => {
            return Err(e);
        },
    };
    let text = if prefix.len() <= end {
        slice_subrange(buf, prefix.len(), end)
    } else {
        slice_subrange(buf, 0, 0)
    };
    assert(text@ =~= header_text(buf@, prefix@.len() as int, end as int));
    match read_usize(text) {
        Some(n) => Ok((end, n)),
        None => Err(RespError::InvalidFrameLength),
    }
}

/// Reads the header line of a sized frame with the marker `prefix`: where
/// its terminator starts, and the length or count that it declares.
pub fn parse_length(buf: &[u8], prefix: &str) -> (r: Result<(usize, usize), RespError>)
    ensures
        match length_header(buf@, prefix.spec_bytes()) {
            Ok((end, n)) => r == Ok::<(usize, usize), RespError>((end as usize, n as usize)) && 1
                <= end && end + 2 <= buf.len() && n <= usize::MAX,
            Err(e) => r == Err::<(usize, usize), RespError>(e),
        },
{
    length_header_of(buf, prefix.as_bytes())
}

/// The length of a frame that is one line with the marker `marker`.
pub fn line_length(buf: &[u8], marker: u8) -> (r: Result<usize, RespError>)
    ensures
        length_is(line_frame_len(buf@, marker), r),
        line_frame_len(buf@, marker) matches Ok(n) ==> 3 <= n <= buf.len(),
{
    let prefix: [u8; 1] = [marker];
    assert(prefix@ =~= seq![marker]);
    match simple_frame_data(buf, prefix.as_slice()) {
        Ok(end) => Ok(end + 2),
        Err(e) => Err(e),
    }
}

/// The length of a frame of the fixed length `n`.
pub fn fixed_length(buf: &[u8], n: usize) -> (r: Result<usize, RespError>)
    ensures
        length_is(fixed_frame_len(buf@, n as nat), r),
{
    if buf.len() >= n {
        Ok(n)
    } else {
        Err(RespError::NotComplete)
    }
}

/// The length of a bulk string at the head of `buf`.
pub fn bulk_length(buf: &[u8]) -> (r: Result<usize, RespError>)
    ensures
        length_is(bulk_len(buf@), r),
        bulk_len(buf@) matches Ok(n) ==> 5 <= n <= buf.len(),
{
    let prefix: [u8; 1] = [BULK_STRING];
    assert(prefix@ =~= seq![BULK_STRING]);
    match length_header_of(buf, prefix.as_slice()) {
        Err(e) => Err(e),
        Ok((end, n)) => {
            let rest = buf.len() - (end + 2);
            if rest < 2 || rest - 2 < n {
                Err(RespError::NotComplete)
            } else {
                Ok(end + 2 + n + 2)
            }
        },
    }
}

/// Whether the buffer is merely short of `pattern`.
pub fn is_short_of(buf: &[u8], pattern: &[u8]) -> (r: bool)
    ensures
        r == short_of(buf@, pattern@),
{
    buf.len() < pattern.len() && starts_with(pattern, buf)
}

/// The length of the frame at the head of `buf`, whatever its kind.
pub fn frame_length(buf: &[u8]) -> (r: Result<usize, RespError>)
    ensures
        length_is(frame_len(buf@), r),
        frame_len(buf@) matches Ok(n) ==> 3 <= n <= buf.len(),
    decreases buf.len(), 3nat,
{
    reveal(frame_len);
    if buf.len() == 0 {
        return Err(RespError::NotComplete);
    }
    let marker = buf[0];
    if marker == SIMPLE_STRING || marker == SIMPLE_ERROR || marker == INTEGER || marker == DOUBLE
    {
        line_length(buf, marker)
    } else if marker == NULL {
        fixed_length(buf, 3)
    } else if marker == BOOLEAN {
        fixed_length(buf, 4)
    } else if marker == BULK_STRING {
        let null: [u8; 5] = [BULK_STRING, MINUS, ONE, CR, LF];
        assert(null@ =~= null_bulk_string_bytes());
        if starts_with(buf, null.as_slice()) {
            Ok(5)
        } else if is_short_of(buf, null.as_slice()) {
            Err(RespError::NotComplete)
        } else {
            bulk_length(buf)
        }
    } else if marker == ARRAY {
        let null: [u8; 5] = [ARRAY, MINUS, ONE, CR, LF];
        assert(null@ =~= null_array_bytes());
        if starts_with(buf, null.as_slice()) {
            Ok(5)
        } else if is_short_of(buf, null.as_slice()) {
            Err(RespError::NotComplete)
        } else {
            aggregate_length(buf, ARRAY)
        }
    } else if marker == RESP_SET {
        aggregate_length(buf, RESP_SET)
    } else if marker == RESP_MAP {
        aggregate_length(buf, RESP_MAP)
    } else {
        Err(RespError::NotComplete)
    }
}

/// The length of an aggregate frame with the marker `marker`, which is that
/// of an array, a set or a map.
pub fn aggregate_length(buf: &[u8], marker: u8) -> (r: Result<usize, RespError>)
    requires
        marker == ARRAY || marker == RESP_SET || marker == RESP_MAP,
    ensures
        length_is(aggregate_len(buf@, seq![marker]), r),
        aggregate_len(buf@, seq![marker]) matches Ok(n) ==> 3 <= n <= buf.len(),
    decreases buf.len(), 2nat,
{
    let prefix: [u8; 1] = [marker];
    assert(prefix@ =~= seq![marker]);
    match length_header_of(buf, prefix.as_slice()) {
        Err(e) => Err(e),
        Ok((end, n)) => total_length_of(buf, end, n, prefix.as_slice()),
    }
}

/// The marker is that of an array, a set or a map.
pub open spec fn is_aggregate_marker(prefix: Seq<u8>) -> bool {
    prefix == seq![ARRAY] || prefix == seq![RESP_SET] || prefix == seq![RESP_MAP]
}

/// The length of a frame whose header line ends at `end` and declares `len`,
/// for a marker given as bytes.
pub fn total_length_of(buf: &[u8], end: usize, len: usize, prefix: &[u8]) -> (r: Result<
    usize,
    RespError,
>)
    requires
        is_aggregate_marker(prefix@) || len + 2 <= usize::MAX,
    ensures
        length_is(total_length(buf@, end as int, len as nat, prefix@), r),
        is_aggregate_marker(prefix@) ==> (total_length(
            buf@,
            end as int,
            len as nat,
            prefix@,
        ) matches Ok(n) ==> end + 2 <= n <= buf.len()),
    decreases buf.len(), 1nat,
{
    let members = prefix.len() == 1 && (prefix[0] == ARRAY || prefix[0] == RESP_SET);
    let entries = prefix.len() == 1 && prefix[0] == RESP_MAP;
    proof {
        if members || entries {
            assert(prefix@ =~= seq![prefix@[0]]);
        }
        if prefix@ == seq![ARRAY] || prefix@ == seq![RESP_SET] || prefix@ == seq![RESP_MAP] {
            assert(prefix@.len() == 1);
        }
    }
    if !members && !entries {
        return Ok(len + 2);
    }
    if end > buf.len() || buf.len() - end < 2 {
        return Err(RespError::NotComplete);
    }
    if members {
        frames_length(buf, end + 2, len)
    } else {
        entries_length(buf, end + 2, len)
    }
}

/// One more frame measured: the length of the frames from `data` on is that
/// of the frame at its head and of the frames behind it.
pub proof fn lemma_frames_len_step(data: Seq<u8>, count: nat)
    requires
        count > 0,
    ensures
        frames_len(data, count) == match frame_len(data) {
            Err(e) => Err::<nat, RespError>(e),
            Ok(n) => if n <= data.len() {
                match frames_len(data.skip(n as int), (count - 1) as nat) {
                    Ok(m) => Ok(n + m),
                    Err(e) => Err(e),
                }
            } else {
                Err(RespError::NotComplete)
            },
        },
{
    reveal(frame_len);
}

/// One more entry measured: the length of the entries from `data` on is that
/// of the key at its head, of the value behind it and of the entries behind
/// them.
pub proof fn lemma_entries_len_step(data: Seq<u8>, count: nat)
    requires
        count > 0,
    ensures
        entries_len(data, count) == match line_frame_len(data, SIMPLE_STRING) {
            Err(e) => Err::<nat, RespError>(e),
            Ok(k) => if k <= data.len() {
                match frame_len(data.skip(k as int)) {
                    Err(e) => Err(e),
                    Ok(v) => if k + v <= data.len() {
                        match entries_len(data.skip((k + v) as int), (count - 1) as nat) {
                            Ok(m) => Ok(k + v + m),
                            Err(e) => Err(e),
                        }
                    } else {
                        Err(RespError::NotComplete)
                    },
                }
            } else {
                Err(RespError::NotComplete)
            },
        },
{
    reveal(frame_len);
}

/// The frames of `buf` from `start` on: where `count` of them end.
fn frames_length(buf: &[u8], start: usize, count: usize) -> (r: Result<usize, RespError>)
    requires
        start <= buf.len(),
    ensures
        match frames_len(buf@.skip(start as int), count as nat) {
            Ok(m) => r == Ok::<usize, RespError>((start + m) as usize) && start + m <= buf.len(),
            Err(e) => r == Err::<usize, RespError>(e),
        },
    decreases buf.len() - start, 4nat,
{
    let ghost whole = frames_len(buf@.skip(start as int), count as nat);
    let mut pos: usize = start;
    let mut i: usize = 0;
    while i < count
        invariant
            i <= count,
            start <= pos <= buf.len(),
            whole == frames_len(buf@.skip(start as int), count as nat),
            whole == match frames_len(buf@.skip(pos as int), (count - i) as nat) {
                Ok(m) => Ok::<nat, RespError>((pos - start + m) as nat),
                Err(e) => Err::<nat, RespError>(e),
            },
        decreases count - i,
    {
        let data = slice_subrange(buf, pos, buf.len());
        proof {
            assert(data@ =~= buf@.skip(pos as int));
            lemma_frames_len_step(data@, (count - i) as nat);
        }
        match frame_length(data) {
            Err(e) => {
                return Err(e);
            },
            Ok(n) => {
                assert(data@.skip(n as int) =~= buf@.skip(pos + n));
                pos = pos + n;
                i = i + 1;
            },
        }
    }
    Ok(pos)
}

/// The map entries of `buf` from `start` on: where `count` of them end.
fn entries_length(buf: &[u8], start: usize, count: usize) -> (r: Result<usize, RespError>)
    requires
        start <= buf.len(),
    ensures
        match entries_len(buf@.skip(start as int), count as nat) {
            Ok(m) => r == Ok::<usize, RespError>((start + m) as usize) && start + m <= buf.len(),
            Err(e) => r == Err::<usize, RespError>(e),
        },
    decreases buf.len() - start, 4nat,
{
    let ghost whole = entries_len(buf@.skip(start as int), count as nat);
    let mut pos: usize = start;
    let mut i: usize = 0;
    while i < count
        invariant
            i <= count,
            start <= pos <= buf.len(),
            whole == entries_len(buf@.skip(start as int), count as nat),
            whole == match entries_len(buf@.skip(pos as int), (count - i) as nat) {
                Ok(m) => Ok::<nat, RespError>((pos - start + m) as nat),
                Err(e) => Err::<nat, RespError>(e),
            },
        decreases count - i,
    {
        let data = slice_subrange(buf, pos, buf.len());
        proof {
            assert(data@ =~= buf@.skip(pos as int));
            lemma_entries_len_step(data@, (count - i) as nat);
        }
        let k = match line_length(data, SIMPLE_STRING) {
            Err(e) => {
                return Err(e);
            },
            Ok(k) => k,
        };
        let rest = slice_subrange(buf, pos + k, buf.len());
        assert(rest@ =~= data@.skip(k as int));
        match frame_length(rest) {
            Err(e) => {
                return Err(e);
            },
            Ok(v) => {
                assert(data@.skip((k + v) as int) =~= buf@.skip(pos + k + v));
                pos = pos + k + v;
                i = i + 1;
            },
        }
    }
    Ok(pos)
}

/// The length of a frame whose header line ends at `end` and declares `len`:
/// for an array or a set, the header and `len` frames; for a map, the header
/// and `len` pairs of a key and a value; for any other marker, the declared
/// length and a terminator. The members are measured, not read.
pub fn calc_total_length(buf: &[u8], end: usize, len: usize, prefix: &str) -> (r: Result<
    usize,
    RespError,
>)
    requires
        is_aggregate_marker(prefix.spec_bytes()) || len + 2 <= usize::MAX,
    ensures
        length_is(total_length(buf@, end as int, len as nat, prefix.spec_bytes()), r),
{
    total_length_of(buf, end, len, prefix.as_bytes())
}

} // verus!
