//! More bytes behind a frame: why a verdict other than "not complete" is
//! final.

use crate::resp::decode::{
    decode_array, decode_boolean, decode_bulk_string, decode_double, decode_entries, decode_frame,
    decode_frames, decode_integer, decode_map, decode_members, decode_null, decode_set,
    decode_simple_error, decode_simple_string, lemma_decode_entries_step, lemma_decode_frames_step,
};
use crate::resp::error::RespError;
use crate::resp::laws::{lemma_total_length_entries, lemma_total_length_members};
use crate::resp::length::{
    aggregate_len, bulk_len, entries_len, false_bytes, fixed_frame_len, frame_len, frames_len,
    header_text, lemma_entries_len_step, lemma_frames_len_step, length_header, line_frame_len,
    null_array_bytes, null_bulk_string_bytes, null_bytes, short_of, total_length, true_bytes,
};
use crate::resp::line::{
    crlf_at, fixed_data, lemma_crlf_from, lemma_crlf_from_is, line_end, simple_frame_end,
};
use crate::resp::marker::{
    ARRAY, BOOLEAN, BULK_STRING, DOUBLE, INTEGER, NULL, RESP_MAP, RESP_SET, SIMPLE_ERROR,
    SIMPLE_STRING,
};
use crate::resp::model::Frame;
use vstd::prelude::*;

verus! {

/// A header line that has its terminator keeps it when more bytes arrive,
/// and a line with another marker keeps that marker.
pub proof fn lemma_simple_frame_end_extend(buf: Seq<u8>, more: Seq<u8>, marker: u8)
    requires
        simple_frame_end(buf, seq![marker]) != Err::<int, RespError>(RespError::NotComplete),
    ensures
        simple_frame_end(buf + more, seq![marker]) == simple_frame_end(buf, seq![marker]),
        simple_frame_end(buf, seq![marker]) matches Ok(end) ==> 1 <= end && end + 2 <= buf.len(),
{
    let long = buf + more;
    let prefix = seq![marker];
    assert(long.subrange(0, 1) =~= buf.subrange(0, 1));
    if prefix.is_prefix_of(buf) {
        lemma_crlf_from(buf, 1);
        let e = line_end(buf)->Some_0;
        assert(crlf_at(long, e));
        assert forall|j: int| 1 <= j < e implies !crlf_at(long, j) by {
            if crlf_at(long, j) {
                assert(crlf_at(buf, j));
            }
        }
        lemma_crlf_from_is(long, 1, e);
    }
}

/// A length header that was read, or that cannot be read, stays as it is
/// when more bytes arrive.
pub proof fn lemma_length_header_extend(buf: Seq<u8>, more: Seq<u8>, marker: u8)
    requires
        length_header(buf, seq![marker]) != Err::<(int, nat), RespError>(RespError::NotComplete),
    ensures
        length_header(buf + more, seq![marker]) == length_header(buf, seq![marker]),
        length_header(buf, seq![marker]) matches Ok((end, n)) ==> 1 <= end && end + 2
            <= buf.len(),
{
    reveal(length_header);
    lemma_simple_frame_end_extend(buf, more, marker);
    match simple_frame_end(buf, seq![marker]) {
        Ok(end) => {
            assert(header_text(buf + more, 1, end) =~= header_text(buf, 1, end));
        },
        Err(_) => {},
    }
}

/// Whether the outcome for `long` is that for `short`, unless the shorter
/// buffer was not complete.
pub open spec fn is_final<T>(short: Result<T, RespError>, long: Result<T, RespError>) -> bool {
    short != Err::<T, RespError>(RespError::NotComplete) ==> long == short
}

/// A frame of one line that decoded, or that failed for good, does the same
/// when more bytes arrive; so does its length.
pub proof fn lemma_line_extend(buf: Seq<u8>, more: Seq<u8>, marker: u8)
    ensures
        is_final(line_frame_len(buf, marker), line_frame_len(buf + more, marker)),
        marker == SIMPLE_STRING ==> is_final(
            decode_simple_string(buf),
            decode_simple_string(buf + more),
        ),
        marker == SIMPLE_ERROR ==> is_final(
            decode_simple_error(buf),
            decode_simple_error(buf + more),
        ),
        marker == INTEGER ==> is_final(decode_integer(buf), decode_integer(buf + more)),
        marker == DOUBLE ==> is_final(decode_double(buf), decode_double(buf + more)),
{
    reveal(decode_simple_string);
    reveal(decode_simple_error);
    reveal(decode_integer);
    reveal(decode_double);
    if simple_frame_end(buf, seq![marker]) != Err::<int, RespError>(RespError::NotComplete) {
        lemma_simple_frame_end_extend(buf, more, marker);
        match simple_frame_end(buf, seq![marker]) {
            Ok(end) => {
                assert((buf + more).subrange(1, end) =~= buf.subrange(1, end));
            },
            Err(_) => {},
        }
    }
}

/// A buffer that is as long as a fixed pattern begins with it, or does not,
/// whatever bytes arrive behind it.
pub proof fn lemma_fixed_extend(buf: Seq<u8>, more: Seq<u8>, pattern: Seq<u8>)
    requires
        buf.len() >= pattern.len(),
    ensures
        fixed_data(buf + more, pattern) == fixed_data(buf, pattern),
        pattern.is_prefix_of(buf + more) == pattern.is_prefix_of(buf),
{
    assert((buf + more).subrange(0, pattern.len() as int) =~= buf.subrange(
        0,
        pattern.len() as int,
    ));
}

/// A buffer that is neither an absent value nor a beginning of one is
/// neither when more bytes arrive; one that is an absent value stays it.
pub proof fn lemma_null_check_extend(buf: Seq<u8>, more: Seq<u8>, pattern: Seq<u8>)
    ensures
        pattern.is_prefix_of(buf) ==> pattern.is_prefix_of(buf + more),
        !pattern.is_prefix_of(buf) && !short_of(buf, pattern) ==> !pattern.is_prefix_of(
            buf + more,
        ) && !short_of(buf + more, pattern),
{
    let long = buf + more;
    if buf.len() >= pattern.len() {
        lemma_fixed_extend(buf, more, pattern);
    } else if !short_of(buf, pattern) {
        let head = pattern.subrange(0, buf.len() as int);
        if forall|j: int| 0 <= j < buf.len() ==> buf[j] == head[j] {
            assert(buf =~= head);
        }
        let j = choose|j: int| 0 <= j < buf.len() && buf[j] != head[j];
        assert(long[j] == buf[j]);
        if pattern.is_prefix_of(long) {
            assert(long.subrange(0, pattern.len() as int)[j] == pattern[j]);
        }
        if short_of(long, pattern) {
            assert(pattern.subrange(0, long.len() as int)[j] == long[j]);
        }
    }
}

/// A bulk string that decoded, or that failed for good, does the same when
/// more bytes arrive; so does its length.
pub proof fn lemma_bulk_extend(buf: Seq<u8>, more: Seq<u8>)
    ensures
        is_final(bulk_len(buf), bulk_len(buf + more)),
        is_final(decode_bulk_string(buf), decode_bulk_string(buf + more)),
{
    reveal(decode_bulk_string);
    if length_header(buf, seq![BULK_STRING]) != Err::<(int, nat), RespError>(
        RespError::NotComplete,
    ) {
        lemma_length_header_extend(buf, more, BULK_STRING);
        match length_header(buf, seq![BULK_STRING]) {
            Ok((end, n)) => {
                if end + 2 + n + 2 <= buf.len() {
                    assert((buf + more).subrange(end + 2, end + 2 + n) =~= buf.subrange(
                        end + 2,
                        end + 2 + n,
                    ));
                }
            },
            Err(_) => {},
        }
    }
}

/// A frame of a fixed pattern that decoded, or that failed for good, does
/// the same when more bytes arrive.
pub proof fn lemma_fixed_frame_extend(buf: Seq<u8>, more: Seq<u8>)
    ensures
        is_final(decode_null(buf), decode_null(buf + more)),
        is_final(decode_boolean(buf), decode_boolean(buf + more)),
        is_final(fixed_frame_len(buf, 3), fixed_frame_len(buf + more, 3)),
        is_final(fixed_frame_len(buf, 4), fixed_frame_len(buf + more, 4)),
{
    reveal(decode_null);
    reveal(decode_boolean);
    if buf.len() >= 3 {
        lemma_fixed_extend(buf, more, null_bytes());
    }
    if buf.len() >= 4 {
        lemma_fixed_extend(buf, more, true_bytes());
        lemma_fixed_extend(buf, more, false_bytes());
    }
}

/// A verdict is final: once the head of a buffer measures as a frame or
/// decodes to one, or fails for any reason but want of bytes, it gives the
/// same however many bytes arrive behind it. Only "not complete" can turn
/// into something else.
pub proof fn lemma_verdict_is_final(buf: Seq<u8>, more: Seq<u8>)
    ensures
        is_final(frame_len(buf), frame_len(buf + more)),
        is_final(decode_frame(buf), decode_frame(buf + more)),
    decreases buf.len(), 3nat,
{
    reveal(frame_len);
    reveal(decode_frame);
    if buf.len() > 0 {
        let marker = buf[0];
        let long = buf + more;
        assert(long[0] == marker);
        if marker == SIMPLE_STRING || marker == SIMPLE_ERROR || marker == INTEGER || marker
            == DOUBLE {
            lemma_line_extend(buf, more, marker);
        } else if marker == NULL || marker == BOOLEAN {
            lemma_fixed_frame_extend(buf, more);
        } else if marker == BULK_STRING {
            lemma_null_check_extend(buf, more, null_bulk_string_bytes());
            lemma_bulk_extend(buf, more);
        } else if marker == ARRAY {
            lemma_null_check_extend(buf, more, null_array_bytes());
            lemma_array_extend(buf, more);
        } else if marker == RESP_SET {
            lemma_set_extend(buf, more);
        } else if marker == RESP_MAP {
            lemma_map_extend(buf, more);
        }
    }
}

/// The length of an array, a set or a map behind a header that was read is
/// final, once that of its members is.
pub proof fn lemma_total_length_extend(buf: Seq<u8>, more: Seq<u8>, end: int, n: nat, marker: u8)
    requires
        marker == ARRAY || marker == RESP_SET || marker == RESP_MAP,
        1 <= end,
        end + 2 <= buf.len(),
        marker != RESP_MAP ==> is_final(
            frames_len(buf.skip(end + 2), n),
            frames_len(buf.skip(end + 2) + more, n),
        ),
        marker == RESP_MAP ==> is_final(
            entries_len(buf.skip(end + 2), n),
            entries_len(buf.skip(end + 2) + more, n),
        ),
    ensures
        is_final(
            total_length(buf, end, n, seq![marker]),
            total_length(buf + more, end, n, seq![marker]),
        ),
        (buf + more).skip(end + 2) == buf.skip(end + 2) + more,
{
    let long = buf + more;
    assert(long.skip(end + 2) =~= buf.skip(end + 2) + more);
    if marker == RESP_MAP {
        lemma_total_length_entries(buf, end, n);
        lemma_total_length_entries(long, end, n);
    } else {
        lemma_total_length_members(buf, end, n, marker);
        lemma_total_length_members(long, end, n, marker);
    }
}

/// The verdict on an array or a set is final.
pub proof fn lemma_members_extend(buf: Seq<u8>, more: Seq<u8>, marker: u8)
    requires
        marker == ARRAY || marker == RESP_SET,
    ensures
        is_final(aggregate_len(buf, seq![marker]), aggregate_len(buf + more, seq![marker])),
        is_final(decode_members(buf, seq![marker]), decode_members(buf + more, seq![marker])),
    decreases buf.len(), 1nat,
{
    let header = length_header(buf, seq![marker]);
    if header != Err::<(int, nat), RespError>(RespError::NotComplete) {
        lemma_length_header_extend(buf, more, marker);
        if header is Ok {
            let end = header->Ok_0.0;
            let n = header->Ok_0.1;
            lemma_frames_extend(buf.skip(end + 2), more, n);
            lemma_total_length_extend(buf, more, end, n, marker);
        }
    }
}

/// The verdict on an array is final.
pub proof fn lemma_array_extend(buf: Seq<u8>, more: Seq<u8>)
    ensures
        is_final(aggregate_len(buf, seq![ARRAY]), aggregate_len(buf + more, seq![ARRAY])),
        is_final(decode_array(buf), decode_array(buf + more)),
    decreases buf.len(), 2nat,
{
    lemma_members_extend(buf, more, ARRAY);
}

/// The verdict on a set is final.
pub proof fn lemma_set_extend(buf: Seq<u8>, more: Seq<u8>)
    ensures
        is_final(aggregate_len(buf, seq![RESP_SET]), aggregate_len(buf + more, seq![RESP_SET])),
        is_final(decode_set(buf), decode_set(buf + more)),
    decreases buf.len(), 2nat,
{
    lemma_members_extend(buf, more, RESP_SET);
}

/// The verdict on a map is final.
pub proof fn lemma_map_extend(buf: Seq<u8>, more: Seq<u8>)
    ensures
        is_final(aggregate_len(buf, seq![RESP_MAP]), aggregate_len(buf + more, seq![RESP_MAP])),
        is_final(decode_map(buf), decode_map(buf + more)),
    decreases buf.len(), 1nat,
{
    let header = length_header(buf, seq![RESP_MAP]);
    if header != Err::<(int, nat), RespError>(RespError::NotComplete) {
        lemma_length_header_extend(buf, more, RESP_MAP);
        if header is Ok {
            let end = header->Ok_0.0;
            let n = header->Ok_0.1;
            lemma_entries_extend(buf.skip(end + 2), more, n);
            lemma_total_length_extend(buf, more, end, n, RESP_MAP);
        }
    }
}

/// The verdict on frames that stand one after the other is final.
pub proof fn lemma_frames_extend(data: Seq<u8>, more: Seq<u8>, count: nat)
    ensures
        is_final(frames_len(data, count), frames_len(data + more, count)),
        is_final(decode_frames(data, count), decode_frames(data + more, count)),
    decreases data.len(), count + 4,
{
    if count > 0 {
        let long = data + more;
        lemma_frames_len_step(data, count);
        lemma_frames_len_step(long, count);
        lemma_decode_frames_step(data, count);
        lemma_decode_frames_step(long, count);
        lemma_verdict_is_final(data, more);
        match frame_len(data) {
            Ok(n) => {
                if n <= data.len() {
                    assert(long.skip(n as int) =~= data.skip(n as int) + more);
                    lemma_frames_extend(data.skip(n as int), more, (count - 1) as nat);
                }
            },
            Err(_) => {},
        }
        match decode_frame(data) {
            Ok((_, n)) => {
                if n <= data.len() {
                    assert(long.skip(n as int) =~= data.skip(n as int) + more);
                    lemma_frames_extend(data.skip(n as int), more, (count - 1) as nat);
                }
            },
            Err(_) => {},
        }
    }
}

/// The verdict on map entries that stand one after the other is final.
pub proof fn lemma_entries_extend(data: Seq<u8>, more: Seq<u8>, count: nat)
    ensures
        is_final(entries_len(data, count), entries_len(data + more, count)),
        is_final(decode_entries(data, count), decode_entries(data + more, count)),
    decreases data.len(), count + 4,
{
    if count > 0 {
        let long = data + more;
        lemma_entries_len_step(data, count);
        lemma_entries_len_step(long, count);
        lemma_decode_entries_step(data, count);
        lemma_decode_entries_step(long, count);
        lemma_line_extend(data, more, SIMPLE_STRING);
        reveal(decode_simple_string);
        match line_frame_len(data, SIMPLE_STRING) {
            Ok(k) => {
                if k <= data.len() {
                    let rest = data.skip(k as int);
                    assert(long.skip(k as int) =~= rest + more);
                    lemma_verdict_is_final(rest, more);
                    match frame_len(rest) {
                        Ok(v) => {
                            if k + v <= data.len() {
                                assert(long.skip((k + v) as int) =~= data.skip((k + v) as int)
                                    + more);
                                lemma_entries_extend(
                                    data.skip((k + v) as int),
                                    more,
                                    (count - 1) as nat,
                                );
                            }
                        },
                        Err(_) => {},
                    }
                    match decode_frame(rest) {
                        Ok((_, v)) => {
                            if k + v <= data.len() {
                                assert(long.skip((k + v) as int) =~= data.skip((k + v) as int)
                                    + more);
                                lemma_entries_extend(
                                    data.skip((k + v) as int),
                                    more,
                                    (count - 1) as nat,
                                );
                            }
                        },
                        Err(_) => {},
                    }
                }
            },
            Err(_) => {},
        }
    }
}

} // verus!
