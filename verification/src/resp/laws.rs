//! Laws of the codec: what holds of encoding, measuring and decoding taken
//! together.

use crate::resp::decode::{
    decode_array, decode_boolean, decode_bulk_string, decode_double, decode_entries, decode_frame,
    decode_frames, decode_integer, decode_map, decode_members, decode_null, decode_set,
    decode_simple_error, decode_simple_string, lemma_decode_entries_step, lemma_decode_frames_step,
};
use crate::resp::double::{digits_end, is_double_text, is_sign, is_word};
use crate::resp::error::RespError;
use crate::resp::length::{
    aggregate_len, bulk_len, entries_len, false_bytes, fixed_frame_len, frame_len, frames_len,
    header_text, lemma_entries_len_step, lemma_frames_len_step, length_header, line_frame_len,
    null_array_bytes, null_bulk_string_bytes, null_bytes, short_of, total_length, true_bytes,
};
use crate::resp::line::{
    crlf, crlf_at, lemma_crlf_from_is, lemma_crlf_from_none, line_end, simple_frame_end, CR,
};
use crate::resp::map::{entry_rank, keys_sorted, lemma_entry_rank, map_of};
use crate::resp::marker::{
    ARRAY, BOOLEAN, BULK_STRING, DOUBLE, INTEGER, NULL, RESP_MAP, RESP_SET, SIMPLE_ERROR,
    SIMPLE_STRING,
};
use crate::resp::model::{entries_bytes, frame_bytes, frame_wf, frames_bytes, line, no_crlf, Frame};
use crate::resp::number::{
    all_digits, decimal, is_digit, lemma_decimal, lemma_parse_decimal, lemma_parse_signed_decimal,
    signed_decimal,
};
use crate::resp::text::{key_lt, lemma_text_of_utf8, lower};
use vstd::prelude::*;
use vstd::string::*;
use vstd::utf8::encode_utf8;

verus! {

/// A line ends where its own terminator starts, whatever follows it, as long
/// as its text holds no terminator.
pub proof fn lemma_line_end(marker: u8, text: Seq<u8>, rest: Seq<u8>)
    requires
        no_crlf(text),
    ensures
        ({
            let buf = line(marker, text) + rest;
            &&& buf.len() == text.len() + 3 + rest.len()
            &&& buf[0] == marker
            &&& line_end(buf) == Some(text.len() + 1int)
            &&& simple_frame_end(buf, seq![marker]) == Ok::<int, RespError>(text.len() + 1int)
            &&& buf.subrange(1, text.len() + 1int) == text
            &&& buf.skip(text.len() + 3int) == rest
        }),
{
    let buf = line(marker, text) + rest;
    let e: int = text.len() + 1int;
    assert(crlf_at(buf, e));
    assert forall|j: int| 1 <= j < e implies !crlf_at(buf, j) by {
        if crlf_at(buf, j) {
            if j + 1 < e {
                assert(text[j - 1] == buf[j] && text[j] == buf[j + 1]);
                assert(crlf_at(text, j - 1));
            }
        }
    }
    lemma_crlf_from_is(buf, 1, e);
    assert(seq![marker] =~= buf.subrange(0, 1));
    assert(buf.subrange(1, text.len() + 1int) =~= text);
    assert(buf.skip(text.len() + 3int) =~= rest);
}

/// A line that is cut short anywhere is not complete.
pub proof fn lemma_line_cut(marker: u8, text: Seq<u8>, rest: Seq<u8>, k: int)
    requires
        no_crlf(text),
        1 <= k < text.len() + 3,
    ensures
        ({
            let cut = (line(marker, text) + rest).take(k);
            &&& cut.len() == k
            &&& cut[0] == marker
            &&& simple_frame_end(cut, seq![marker]) == Err::<int, RespError>(
                RespError::NotComplete,
            )
        }),
{
    let buf = line(marker, text) + rest;
    let cut = buf.take(k);
    if k >= 3 {
        assert forall|j: int| 1 <= j implies !crlf_at(cut, j) by {
            if crlf_at(cut, j) {
                if j + 1 < text.len() + 1 {
                    assert(text[j - 1] == cut[j] && text[j] == cut[j + 1]);
                    assert(crlf_at(text, j - 1));
                }
            }
        }
        lemma_crlf_from_none(cut, 1);
    }
}

/// Decimal digits hold no line terminator.
pub proof fn lemma_digits_no_crlf(s: Seq<u8>)
    requires
        all_digits(s),
    ensures
        no_crlf(s),
{
    assert forall|i: int| !crlf_at(s, i) by {
        if crlf_at(s, i) {
            assert(is_digit(s[i]));
        }
    }
}

/// The text of an integer holds no line terminator.
pub proof fn lemma_signed_decimal_no_crlf(n: int)
    ensures
        no_crlf(signed_decimal(n)),
{
    lemma_parse_signed_decimal(n);
    let s = signed_decimal(n);
    assert forall|i: int| !crlf_at(s, i) by {
        if crlf_at(s, i) {
            if i >= 1 {
                assert(s.skip(1)[i - 1] == s[i]);
                assert(is_digit(s.skip(1)[i - 1]));
            }
        }
    }
}

/// The run of digits that starts at `i` holds digits only and ends within
/// the text.
pub proof fn lemma_digits_end(s: Seq<u8>, i: int)
    requires
        0 <= i <= s.len(),
    ensures
        i <= digits_end(s, i) <= s.len(),
        forall|j: int| i <= j < digits_end(s, i) ==> is_digit(s[j]),
    decreases s.len() - i,
{
    if i < s.len() && is_digit(s[i]) {
        lemma_digits_end(s, i + 1);
    }
}

/// A floating-point literal holds no carriage return, and so no line
/// terminator.
pub proof fn lemma_double_text_no_crlf(s: Seq<u8>)
    requires
        is_double_text(s),
    ensures
        no_crlf(s),
{
    let i: int = if s.len() > 0 && is_sign(s[0]) {
        1
    } else {
        0
    };
    let inf = "inf".spec_bytes();
    let infinity = "infinity".spec_bytes();
    let nan = "nan".spec_bytes();
    reveal_strlit("inf");
    reveal_strlit("infinity");
    reveal_strlit("nan");
    is_ascii_spec_bytes("inf");
    is_ascii_spec_bytes("infinity");
    is_ascii_spec_bytes("nan");
    assert forall|p: int| 0 <= p < s.len() implies s[p] != CR by {
        if p >= i {
            if is_word(s, i, inf) {
                assert(lower(s[i + (p - i)]) == inf[p - i]);
            } else if is_word(s, i, infinity) {
                assert(lower(s[i + (p - i)]) == infinity[p - i]);
            } else if is_word(s, i, nan) {
                assert(lower(s[i + (p - i)]) == nan[p - i]);
            } else {
                let a = digits_end(s, i);
                lemma_digits_end(s, i);
                let b = if a < s.len() && s[a] == 46 {
                    digits_end(s, a + 1)
                } else {
                    a
                };
                if a < s.len() && s[a] == 46 {
                    lemma_digits_end(s, a + 1);
                }
                if b < s.len() {
                    let c = if b + 1 < s.len() && is_sign(s[b + 1]) {
                        b + 2
                    } else {
                        b + 1
                    };
                    lemma_digits_end(s, c);
                }
            }
        }
    }
    assert forall|q: int| !crlf_at(s, q) by {
        if crlf_at(s, q) {
            assert(s[q] != CR);
        }
    }
}

/// The bytes of `f`, followed by anything, measure and decode as `f` and
/// nothing more.
pub open spec fn reads_back(f: Frame, rest: Seq<u8>) -> bool {
    let buf = frame_bytes(f) + rest;
    &&& frame_len(buf) == Ok::<nat, RespError>(frame_bytes(f).len())
    &&& decode_frame(buf) == Ok::<(Frame, nat), RespError>((f, frame_bytes(f).len()))
}

/// A header line with a decimal count is not taken for an absent value, nor
/// for a beginning of one.
pub proof fn lemma_header_not_null(marker: u8, n: nat, rest: Seq<u8>)
    ensures
        ({
            let buf = line(marker, decimal(n)) + rest;
            &&& !null_bulk_string_bytes().is_prefix_of(buf)
            &&& !null_array_bytes().is_prefix_of(buf)
            &&& !short_of(buf, null_bulk_string_bytes())
            &&& !short_of(buf, null_array_bytes())
        }),
{
    let buf = line(marker, decimal(n)) + rest;
    lemma_decimal(n);
    assert(buf[1] == decimal(n)[0]);
    assert(is_digit(decimal(n)[0]));
    let a = null_bulk_string_bytes();
    let b = null_array_bytes();
    if a.is_prefix_of(buf) {
        assert(buf.subrange(0, 5)[1] == a[1]);
    }
    if b.is_prefix_of(buf) {
        assert(buf.subrange(0, 5)[1] == b[1]);
    }
    if short_of(buf, a) {
        assert(a.subrange(0, buf.len() as int)[1] == buf[1]);
    }
    if short_of(buf, b) {
        assert(b.subrange(0, buf.len() as int)[1] == buf[1]);
    }
}

/// The header line of a sized frame reads back as the count it was written
/// with.
pub proof fn lemma_header_reads_back(marker: u8, n: nat, rest: Seq<u8>)
    requires
        n <= usize::MAX,
    ensures
        ({
            let buf = line(marker, decimal(n)) + rest;
            &&& length_header(buf, seq![marker]) == Ok::<(int, nat), RespError>(
                (decimal(n).len() + 1int, n),
            )
            &&& buf.skip(decimal(n).len() + 3int) == rest
            &&& buf.len() == decimal(n).len() + 3 + rest.len()
            &&& buf[0] == marker
        }),
{
    reveal(length_header);
    let text = decimal(n);
    lemma_decimal(n);
    lemma_digits_no_crlf(text);
    lemma_line_end(marker, text, rest);
    lemma_parse_decimal(n);
    let buf = line(marker, text) + rest;
    assert(header_text(buf, 1, text.len() + 1int) == text);
}

/// A simple string, measured and decoded as such, reads back.
pub proof fn lemma_simple_string_line(s: Seq<char>, rest: Seq<u8>)
    requires
        no_crlf(encode_utf8(s)),
    ensures
        ({
            let bytes = line(SIMPLE_STRING, encode_utf8(s));
            let buf = bytes + rest;
            &&& buf[0] == SIMPLE_STRING
            &&& line_frame_len(buf, SIMPLE_STRING) == Ok::<nat, RespError>(bytes.len())
            &&& decode_simple_string(buf) == Ok::<(Frame, nat), RespError>(
                (Frame::SimpleString(s), bytes.len()),
            )
        }),
{
    reveal(decode_simple_string);
    lemma_line_end(SIMPLE_STRING, encode_utf8(s), rest);
    lemma_text_of_utf8(s);
}

/// A simple string and a simple error read back.
pub proof fn lemma_text_reads_back(f: Frame, rest: Seq<u8>)
    requires
        frame_wf(f),
        f is SimpleString || f is Error,
    ensures
        reads_back(f, rest),
{
    reveal(frame_len);
    reveal(decode_frame);
    reveal(decode_simple_string);
    reveal(decode_simple_error);
    match f {
        Frame::SimpleString(s) => {
            lemma_line_end(SIMPLE_STRING, encode_utf8(s), rest);
            lemma_text_of_utf8(s);
        },
        Frame::Error(s) => {
            lemma_line_end(SIMPLE_ERROR, encode_utf8(s), rest);
            lemma_text_of_utf8(s);
        },
        _ => {},
    }
}

/// An integer and a double read back.
pub proof fn lemma_number_reads_back(f: Frame, rest: Seq<u8>)
    requires
        frame_wf(f),
        f is Integer || f is Double,
    ensures
        reads_back(f, rest),
{
    reveal(frame_len);
    reveal(decode_frame);
    reveal(decode_integer);
    reveal(decode_double);
    match f {
        Frame::Integer(n) => {
            lemma_signed_decimal_no_crlf(n as int);
            lemma_line_end(INTEGER, signed_decimal(n as int), rest);
            lemma_parse_signed_decimal(n as int);
        },
        Frame::Double(t) => {
            lemma_double_text_no_crlf(t);
            lemma_line_end(DOUBLE, t, rest);
        },
        _ => {},
    }
}

/// The null value reads back.
pub proof fn lemma_null_reads_back(rest: Seq<u8>)
    ensures
        reads_back(Frame::Null, rest),
{
    reveal(frame_len);
    reveal(decode_frame);
    reveal(decode_null);
    let buf = frame_bytes(Frame::Null) + rest;
    assert(frame_bytes(Frame::Null) =~= null_bytes());
    assert(buf.subrange(0, 3) =~= null_bytes());
    assert(buf[0] == NULL);
}

/// A truth value reads back.
pub proof fn lemma_boolean_reads_back(b: bool, rest: Seq<u8>)
    ensures
        reads_back(Frame::Boolean(b), rest),
{
    reveal(frame_len);
    reveal(decode_frame);
    reveal(decode_boolean);
    let f = Frame::Boolean(b);
    let buf = frame_bytes(f) + rest;
    assert(buf[0] == BOOLEAN);
    if b {
        assert(frame_bytes(f) =~= true_bytes());
        assert(buf.subrange(0, 4) =~= true_bytes());
    } else {
        assert(frame_bytes(f) =~= false_bytes());
        assert(buf.subrange(0, 4) =~= false_bytes());
        if true_bytes().is_prefix_of(buf) {
            assert(buf.subrange(0, 4)[1] == true_bytes()[1]);
        }
    }
}

/// The absent bulk string reads back.
pub proof fn lemma_null_bulk_reads_back(rest: Seq<u8>)
    ensures
        reads_back(Frame::NullBulkString, rest),
{
    reveal(frame_len);
    reveal(decode_frame);
    let buf = frame_bytes(Frame::NullBulkString) + rest;
    assert(frame_bytes(Frame::NullBulkString) =~= null_bulk_string_bytes());
    assert(buf.subrange(0, 5) =~= null_bulk_string_bytes());
    assert(buf[0] == BULK_STRING);
}

/// The absent array reads back.
pub proof fn lemma_null_array_reads_back(rest: Seq<u8>)
    ensures
        reads_back(Frame::NullArray, rest),
{
    reveal(frame_len);
    reveal(decode_frame);
    let buf = frame_bytes(Frame::NullArray) + rest;
    assert(frame_bytes(Frame::NullArray) =~= null_array_bytes());
    assert(buf.subrange(0, 5) =~= null_array_bytes());
    assert(buf[0] == ARRAY);
}

/// A bulk string reads back.
pub proof fn lemma_bulk_reads_back(b: Seq<u8>, rest: Seq<u8>)
    requires
        b.len() <= usize::MAX,
    ensures
        reads_back(Frame::BulkString(b), rest),
{
    reveal(frame_len);
    reveal(decode_frame);
    reveal(decode_bulk_string);
    let f = Frame::BulkString(b);
    let buf = frame_bytes(f) + rest;
    let tail = b + crlf() + rest;
    assert(buf =~= line(BULK_STRING, decimal(b.len())) + tail);
    lemma_header_not_null(BULK_STRING, b.len(), tail);
    lemma_header_reads_back(BULK_STRING, b.len(), tail);
    let end = decimal(b.len()).len() + 1int;
    assert(buf.subrange(end + 2, end + 2 + b.len()) =~= b);
}

/// Inserting, one after the other, entries that stand in the order of their
/// keys gives those entries.
pub proof fn lemma_map_of_sorted(m: Seq<(Seq<char>, Frame)>)
    requires
        keys_sorted(m),
    ensures
        map_of(m) == m,
    decreases m.len(),
{
    reveal(map_of);
    if m.len() > 0 {
        let d = m.drop_last();
        let k = m.last().0;
        lemma_map_of_sorted(d);
        lemma_entry_rank(d, k, 0);
        let r = entry_rank(d, k, 0);
        if r < d.len() {
            assert(d[r].0 == m[r].0);
            assert(key_lt(m[r].0, m[m.len() - 1].0));
        }
        assert(d.insert(d.len() as int, m.last()) =~= m);
    } else {
        assert(m =~= Seq::empty());
    }
}

/// The length of an array or a set behind its header line is that of its
/// members, once the buffer holds the header line.
pub proof fn lemma_total_length_members(buf: Seq<u8>, end: int, n: nat, marker: u8)
    requires
        marker == ARRAY || marker == RESP_SET,
        0 <= end,
        end + 2 <= buf.len(),
    ensures
        total_length(buf, end, n, seq![marker]) == match frames_len(buf.skip(end + 2), n) {
            Ok(m) => Ok::<nat, RespError>((end + 2 + m) as nat),
            Err(e) => Err(e),
        },
{
    if marker == ARRAY {
        assert(seq![marker] == seq![ARRAY]);
    } else {
        assert(seq![marker] == seq![RESP_SET]);
    }
}

/// The length of a map behind its header line is that of its entries, once
/// the buffer holds the header line.
pub proof fn lemma_total_length_entries(buf: Seq<u8>, end: int, n: nat)
    requires
        0 <= end,
        end + 2 <= buf.len(),
    ensures
        total_length(buf, end, n, seq![RESP_MAP]) == match entries_len(buf.skip(end + 2), n) {
            Ok(m) => Ok::<nat, RespError>((end + 2 + m) as nat),
            Err(e) => Err(e),
        },
{
    assert(seq![RESP_MAP][0] != seq![ARRAY][0] && seq![RESP_MAP][0] != seq![RESP_SET][0]);
}

/// What measuring and decoding make of an array or a set whose header line
/// is whole: the header, and then what they make of the members behind it.
pub proof fn lemma_members_behind_header(marker: u8, n: nat, tail: Seq<u8>)
    requires
        marker == ARRAY || marker == RESP_SET,
        n <= usize::MAX,
    ensures
        ({
            let head = line(marker, decimal(n));
            let buf = head + tail;
            &&& aggregate_len(buf, seq![marker]) == match frames_len(tail, n) {
                Ok(m) => Ok::<nat, RespError>(head.len() + m),
                Err(e) => Err(e),
            }
            &&& decode_members(buf, seq![marker]) == match frames_len(tail, n) {
                Err(e) => Err::<(Seq<Frame>, nat), RespError>(e),
                Ok(_) => match decode_frames(tail, n) {
                    Ok((fs, m)) => Ok((fs, head.len() + m)),
                    Err(e) => Err(e),
                },
            }
        }),
{
    let head = line(marker, decimal(n));
    let buf = head + tail;
    lemma_header_reads_back(marker, n, tail);
    let end: int = head.len() - 2;
    assert(length_header(buf, seq![marker]) == Ok::<(int, nat), RespError>((end, n)));
    assert(buf.skip(end + 2) == tail);
    lemma_total_length_members(buf, end, n, marker);
}

/// What measuring and decoding make of a map whose header line is whole:
/// the header, and then what they make of the entries behind it.
pub proof fn lemma_entries_behind_header(n: nat, tail: Seq<u8>)
    requires
        n <= usize::MAX,
    ensures
        ({
            let head = line(RESP_MAP, decimal(n));
            let buf = head + tail;
            &&& aggregate_len(buf, seq![RESP_MAP]) == match entries_len(tail, n) {
                Ok(m) => Ok::<nat, RespError>(head.len() + m),
                Err(e) => Err(e),
            }
            &&& decode_map(buf) == match entries_len(tail, n) {
                Err(e) => Err::<(Frame, nat), RespError>(e),
                Ok(_) => match decode_entries(tail, n) {
                    Ok((pairs, m)) => Ok((Frame::RespMap(map_of(pairs)), head.len() + m)),
                    Err(e) => Err(e),
                },
            }
        }),
{
    let head = line(RESP_MAP, decimal(n));
    let buf = head + tail;
    lemma_header_reads_back(RESP_MAP, n, tail);
    let end: int = head.len() - 2;
    assert(length_header(buf, seq![RESP_MAP]) == Ok::<(int, nat), RespError>((end, n)));
    assert(buf.skip(end + 2) == tail);
    lemma_total_length_entries(buf, end, n);
}

/// A map reads back, once its entries do.
pub proof fn lemma_map_reads_back(m: Seq<(Seq<char>, Frame)>, rest: Seq<u8>)
    requires
        m.len() <= usize::MAX,
        map_of(m) == m,
        entries_len(entries_bytes(m, 0) + rest, m.len()) == Ok::<nat, RespError>(
            entries_bytes(m, 0).len(),
        ),
        decode_entries(entries_bytes(m, 0) + rest, m.len()) == Ok::<
            (Seq<(Seq<char>, Frame)>, nat),
            RespError,
        >((m, entries_bytes(m, 0).len())),
    ensures
        reads_back(Frame::RespMap(m), rest),
{
    let head = line(RESP_MAP, decimal(m.len()));
    let tail = entries_bytes(m, 0) + rest;
    let buf = frame_bytes(Frame::RespMap(m)) + rest;
    assert(buf =~= head + tail);
    lemma_entries_behind_header(m.len(), tail);
    assert(buf[0] == RESP_MAP);
    assert(frame_len(buf) == aggregate_len(buf, seq![RESP_MAP])) by {
        reveal(frame_len);
    }
    assert(decode_frame(buf) == decode_map(buf)) by {
        reveal(decode_frame);
    }
}

/// An array reads back, once its members do.
pub proof fn lemma_array_reads_back(a: Seq<Frame>, rest: Seq<u8>)
    requires
        a.len() <= usize::MAX,
        frames_len(frames_bytes(a, 0) + rest, a.len()) == Ok::<nat, RespError>(
            frames_bytes(a, 0).len(),
        ),
        decode_frames(frames_bytes(a, 0) + rest, a.len()) == Ok::<(Seq<Frame>, nat), RespError>(
            (a, frames_bytes(a, 0).len()),
        ),
    ensures
        reads_back(Frame::Array(a), rest),
{
    let head = line(ARRAY, decimal(a.len()));
    let tail = frames_bytes(a, 0) + rest;
    let buf = frame_bytes(Frame::Array(a)) + rest;
    assert(buf =~= head + tail);
    lemma_members_behind_header(ARRAY, a.len(), tail);
    lemma_header_not_null(ARRAY, a.len(), tail);
    assert(buf[0] == ARRAY);
    assert(frame_len(buf) == aggregate_len(buf, seq![ARRAY])) by {
        reveal(frame_len);
    }
    assert(decode_frame(buf) == decode_array(buf)) by {
        reveal(decode_frame);
    }
}

/// A set reads back, once its members do.
pub proof fn lemma_set_reads_back(a: Seq<Frame>, rest: Seq<u8>)
    requires
        a.len() <= usize::MAX,
        frames_len(frames_bytes(a, 0) + rest, a.len()) == Ok::<nat, RespError>(
            frames_bytes(a, 0).len(),
        ),
        decode_frames(frames_bytes(a, 0) + rest, a.len()) == Ok::<(Seq<Frame>, nat), RespError>(
            (a, frames_bytes(a, 0).len()),
        ),
    ensures
        reads_back(Frame::RespSet(a), rest),
{
    let head = line(RESP_SET, decimal(a.len()));
    let tail = frames_bytes(a, 0) + rest;
    let buf = frame_bytes(Frame::RespSet(a)) + rest;
    assert(buf =~= head + tail);
    lemma_members_behind_header(RESP_SET, a.len(), tail);
    assert(buf[0] == RESP_SET);
    assert(frame_len(buf) == aggregate_len(buf, seq![RESP_SET])) by {
        reveal(frame_len);
    }
    assert(decode_frame(buf) == decode_set(buf)) by {
        reveal(decode_frame);
    }
}

/// Every frame of `fs` is one that the wire format carries faithfully.
pub open spec fn frames_wf(fs: Seq<Frame>) -> bool {
    forall|i: int| 0 <= i < fs.len() ==> frame_wf(#[trigger] fs[i])
}

/// Every entry of `m` has a key without a line terminator and a value that
/// the wire format carries faithfully.
pub open spec fn entries_wf(m: Seq<(Seq<char>, Frame)>) -> bool {
    forall|i: int|
        0 <= i < m.len() ==> no_crlf(encode_utf8((#[trigger] m[i]).0)) && frame_wf(m[i].1)
}

/// Round trip: the bytes that a frame is written as, followed by any bytes
/// at all, measure as long as they are and decode to that very frame, with
/// exactly those bytes consumed.
pub proof fn lemma_round_trip(f: Frame, rest: Seq<u8>)
    requires
        frame_wf(f),
    ensures
        reads_back(f, rest),
    decreases f, 0int,
{
    match f {
        Frame::SimpleString(_) => lemma_text_reads_back(f, rest),
        Frame::Error(_) => lemma_text_reads_back(f, rest),
        Frame::Integer(_) => lemma_number_reads_back(f, rest),
        Frame::Double(_) => lemma_number_reads_back(f, rest),
        Frame::BulkString(b) => lemma_bulk_reads_back(b, rest),
        Frame::NullBulkString => lemma_null_bulk_reads_back(rest),
        Frame::NullArray => lemma_null_array_reads_back(rest),
        Frame::Null => lemma_null_reads_back(rest),
        Frame::Boolean(b) => lemma_boolean_reads_back(b, rest),
        Frame::Array(a) => {
            lemma_frames_round_trip(a, 0, rest);
            assert(a.skip(0) =~= a);
            lemma_array_reads_back(a, rest);
        },
        Frame::RespSet(a) => {
            lemma_frames_round_trip(a, 0, rest);
            assert(a.skip(0) =~= a);
            lemma_set_reads_back(a, rest);
        },
        Frame::RespMap(m) => {
            lemma_entries_round_trip(m, 0, rest);
            assert(m.skip(0) =~= m);
            lemma_map_of_sorted(m);
            lemma_map_reads_back(m, rest);
        },
    }
}

/// The frames of `fs` from index `i` on, written one after the other and
/// followed by any bytes at all, measure and decode as those frames.
pub proof fn lemma_frames_round_trip(fs: Seq<Frame>, i: nat, rest: Seq<u8>)
    requires
        i <= fs.len(),
        frames_wf(fs),
    ensures
        frames_len(frames_bytes(fs, i) + rest, (fs.len() - i) as nat) == Ok::<nat, RespError>(
            frames_bytes(fs, i).len(),
        ),
        decode_frames(frames_bytes(fs, i) + rest, (fs.len() - i) as nat) == Ok::<
            (Seq<Frame>, nat),
            RespError,
        >((fs.skip(i as int), frames_bytes(fs, i).len())),
    decreases fs, fs.len() - i,
{
    if i < fs.len() {
        let head = frame_bytes(fs[i as int]);
        let tail = frames_bytes(fs, i + 1);
        let data = frames_bytes(fs, i) + rest;
        let count = (fs.len() - i) as nat;
        assert(data =~= head + (tail + rest));
        lemma_round_trip(fs[i as int], tail + rest);
        assert(data.skip(head.len() as int) =~= tail + rest);
        lemma_frames_round_trip(fs, i + 1, rest);
        lemma_frames_len_step(data, count);
        lemma_decode_frames_step(data, count);
        assert(seq![fs[i as int]] + fs.skip(i + 1int) =~= fs.skip(i as int));
    } else {
        assert(fs.skip(i as int) =~= Seq::<Frame>::empty());
    }
}

/// The entries of `m` from index `i` on, written one after the other and
/// followed by any bytes at all, measure and decode as those entries.
pub proof fn lemma_entries_round_trip(m: Seq<(Seq<char>, Frame)>, i: nat, rest: Seq<u8>)
    requires
        i <= m.len(),
        entries_wf(m),
    ensures
        entries_len(entries_bytes(m, i) + rest, (m.len() - i) as nat) == Ok::<nat, RespError>(
            entries_bytes(m, i).len(),
        ),
        decode_entries(entries_bytes(m, i) + rest, (m.len() - i) as nat) == Ok::<
            (Seq<(Seq<char>, Frame)>, nat),
            RespError,
        >((m.skip(i as int), entries_bytes(m, i).len())),
    decreases m, m.len() - i,
{
    if i < m.len() {
        let key = line(SIMPLE_STRING, encode_utf8(m[i as int].0));
        let value = frame_bytes(m[i as int].1);
        let tail = entries_bytes(m, i + 1);
        let data = entries_bytes(m, i) + rest;
        let count = (m.len() - i) as nat;
        assert(data =~= key + (value + (tail + rest)));
        lemma_simple_string_line(m[i as int].0, value + (tail + rest));
        assert(data.skip(key.len() as int) =~= value + (tail + rest));
        lemma_round_trip(m[i as int].1, tail + rest);
        assert(data.skip((key.len() + value.len()) as int) =~= tail + rest);
        lemma_entries_round_trip(m, i + 1, rest);
        lemma_entries_len_step(data, count);
        lemma_decode_entries_step(data, count);
        assert(seq![m[i as int]] + m.skip(i + 1int) =~= m.skip(i as int));
    } else {
        assert(m.skip(i as int) =~= Seq::<(Seq<char>, Frame)>::empty());
    }
}

/// What decoding makes of a buffer that was measured as `len`: a frame of
/// exactly that length, or an error that more bytes would not mend.
pub open spec fn decodes_as_measured(
    len: Result<nat, RespError>,
    r: Result<(Frame, nat), RespError>,
) -> bool {
    len matches Ok(n) ==> match r {
        Ok((_, m)) => m == n,
        Err(e) => e != RespError::NotComplete,
    }
}

/// What measuring makes of a buffer that decoded: the length that decoding
/// consumed.
pub open spec fn measures_as_decoded(
    r: Result<(Frame, nat), RespError>,
    len: Result<nat, RespError>,
) -> bool {
    r matches Ok((_, n)) ==> len == Ok::<nat, RespError>(n)
}

/// Measuring and decoding agree on the frames that are one line.
pub proof fn lemma_line_agrees(buf: Seq<u8>)
    ensures
        measures_as_decoded(decode_simple_string(buf), line_frame_len(buf, SIMPLE_STRING)),
        measures_as_decoded(decode_simple_error(buf), line_frame_len(buf, SIMPLE_ERROR)),
        measures_as_decoded(decode_integer(buf), line_frame_len(buf, INTEGER)),
        measures_as_decoded(decode_double(buf), line_frame_len(buf, DOUBLE)),
        decodes_as_measured(line_frame_len(buf, SIMPLE_STRING), decode_simple_string(buf)),
        decodes_as_measured(line_frame_len(buf, SIMPLE_ERROR), decode_simple_error(buf)),
        decodes_as_measured(line_frame_len(buf, INTEGER), decode_integer(buf)),
        decodes_as_measured(line_frame_len(buf, DOUBLE), decode_double(buf)),
        line_frame_len(buf, SIMPLE_STRING) is Ok ==> decode_simple_string(buf) is Ok,
{
    reveal(decode_simple_string);
    reveal(decode_simple_error);
    reveal(decode_integer);
    reveal(decode_double);
}

/// Measuring and decoding agree on the frames of a fixed pattern and on
/// bulk strings.
pub proof fn lemma_fixed_agrees(buf: Seq<u8>)
    ensures
        measures_as_decoded(decode_null(buf), fixed_frame_len(buf, 3)),
        measures_as_decoded(decode_boolean(buf), fixed_frame_len(buf, 4)),
        measures_as_decoded(decode_bulk_string(buf), bulk_len(buf)),
        decodes_as_measured(fixed_frame_len(buf, 3), decode_null(buf)),
        decodes_as_measured(fixed_frame_len(buf, 4), decode_boolean(buf)),
        decodes_as_measured(bulk_len(buf), decode_bulk_string(buf)),
{
    reveal(decode_null);
    reveal(decode_boolean);
    reveal(decode_bulk_string);
}

/// Probe and decode agree: whenever the frame at the head of a buffer
/// decodes, measuring the buffer gives the number of bytes that decoding
/// consumes; and whenever the buffer measures as a whole frame, decoding
/// consumes that number of bytes or fails for good, never for want of bytes.
pub proof fn lemma_probe_agrees(buf: Seq<u8>)
    ensures
        measures_as_decoded(decode_frame(buf), frame_len(buf)),
        decodes_as_measured(frame_len(buf), decode_frame(buf)),
    decreases buf.len(), 2nat,
{
    reveal(frame_len);
    reveal(decode_frame);
    if buf.len() > 0 {
        let marker = buf[0];
        if marker == SIMPLE_STRING || marker == SIMPLE_ERROR || marker == INTEGER || marker
            == DOUBLE {
            lemma_line_agrees(buf);
        } else if marker == NULL || marker == BOOLEAN || marker == BULK_STRING {
            lemma_fixed_agrees(buf);
        } else if marker == ARRAY {
            lemma_members_agree(buf, ARRAY);
        } else if marker == RESP_SET {
            lemma_members_agree(buf, RESP_SET);
        } else if marker == RESP_MAP {
            lemma_map_agrees(buf);
        }
    }
}

/// Measuring and decoding agree on arrays and sets.
pub proof fn lemma_members_agree(buf: Seq<u8>, marker: u8)
    requires
        marker == ARRAY || marker == RESP_SET,
    ensures
        decode_members(buf, seq![marker]) matches Ok((fs, n)) ==> aggregate_len(buf, seq![marker])
            == Ok::<nat, RespError>(n),
        aggregate_len(buf, seq![marker]) matches Ok(n) ==> match decode_members(
            buf,
            seq![marker],
        ) {
            Ok((_, m)) => m == n,
            Err(e) => e != RespError::NotComplete,
        },
    decreases buf.len(), 1nat,
{
    match length_header(buf, seq![marker]) {
        Ok((end, n)) => {
            if 0 <= end && end + 2 <= buf.len() {
                lemma_frames_agree(buf.skip(end + 2), n);
            }
        },
        Err(_) => {},
    }
}

/// Measuring and decoding agree on maps.
pub proof fn lemma_map_agrees(buf: Seq<u8>)
    ensures
        measures_as_decoded(decode_map(buf), aggregate_len(buf, seq![RESP_MAP])),
        decodes_as_measured(aggregate_len(buf, seq![RESP_MAP]), decode_map(buf)),
    decreases buf.len(), 1nat,
{
    assert(seq![RESP_MAP][0] != seq![ARRAY][0] && seq![RESP_MAP][0] != seq![RESP_SET][0]);
    match length_header(buf, seq![RESP_MAP]) {
        Ok((end, n)) => {
            if 0 <= end && end + 2 <= buf.len() {
                lemma_entries_agree(buf.skip(end + 2), n);
            }
        },
        Err(_) => {},
    }
}

/// Measuring and decoding agree on frames that stand one after the other.
pub proof fn lemma_frames_agree(data: Seq<u8>, count: nat)
    ensures
        decode_frames(data, count) matches Ok((fs, n)) ==> frames_len(data, count) == Ok::<
            nat,
            RespError,
        >(n),
        frames_len(data, count) matches Ok(n) ==> match decode_frames(data, count) {
            Ok((_, m)) => m == n,
            Err(e) => e != RespError::NotComplete,
        },
    decreases data.len(), count + 3,
{
    if count > 0 {
        lemma_frames_len_step(data, count);
        lemma_decode_frames_step(data, count);
        lemma_probe_agrees(data);
        match frame_len(data) {
            Ok(n) => {
                if n <= data.len() {
                    lemma_frames_agree(data.skip(n as int), (count - 1) as nat);
                }
            },
            Err(_) => {},
        }
    }
}

/// Measuring and decoding agree on map entries that stand one after the
/// other.
pub proof fn lemma_entries_agree(data: Seq<u8>, count: nat)
    ensures
        decode_entries(data, count) matches Ok((es, n)) ==> entries_len(data, count) == Ok::<
            nat,
            RespError,
        >(n),
        entries_len(data, count) matches Ok(n) ==> match decode_entries(data, count) {
            Ok((_, m)) => m == n,
            Err(e) => e != RespError::NotComplete,
        },
    decreases data.len(), count + 3,
{
    if count > 0 {
        lemma_entries_len_step(data, count);
        lemma_decode_entries_step(data, count);
        lemma_line_agrees(data);
        match line_frame_len(data, SIMPLE_STRING) {
            Ok(k) => {
                if k <= data.len() {
                    lemma_probe_agrees(data.skip(k as int));
                    match frame_len(data.skip(k as int)) {
                        Ok(v) => {
                            if k + v <= data.len() {
                                lemma_entries_agree(
                                    data.skip((k + v) as int),
                                    (count - 1) as nat,
                                );
                            }
                        },
                        Err(_) => {},
                    }
                }
            },
            Err(_) => {},
        }
    }
}

/// The first `k` bytes of what `f` is written as neither measure nor decode:
/// both ask for more bytes.
pub open spec fn cut_is_incomplete(f: Frame, k: int) -> bool {
    let cut = frame_bytes(f).take(k);
    &&& frame_len(cut) == Err::<nat, RespError>(RespError::NotComplete)
    &&& decode_frame(cut) == Err::<(Frame, nat), RespError>(RespError::NotComplete)
}

/// An empty buffer asks for more bytes.
pub proof fn lemma_empty_incomplete(f: Frame)
    ensures
        cut_is_incomplete(f, 0),
{
    reveal(frame_len);
    reveal(decode_frame);
}

/// A frame that is one line, cut short, asks for more bytes.
pub proof fn lemma_line_frame_cut(f: Frame, k: int)
    requires
        frame_wf(f),
        f is SimpleString || f is Error || f is Integer || f is Double,
        1 <= k < frame_bytes(f).len(),
    ensures
        cut_is_incomplete(f, k),
{
    reveal(frame_len);
    reveal(decode_frame);
    reveal(decode_simple_string);
    reveal(decode_simple_error);
    reveal(decode_integer);
    reveal(decode_double);
    let none = Seq::<u8>::empty();
    match f {
        Frame::SimpleString(s) => {
            assert(line(SIMPLE_STRING, encode_utf8(s)) + none =~= frame_bytes(f));
            lemma_line_cut(SIMPLE_STRING, encode_utf8(s), none, k);
        },
        Frame::Error(s) => {
            assert(line(SIMPLE_ERROR, encode_utf8(s)) + none =~= frame_bytes(f));
            lemma_line_cut(SIMPLE_ERROR, encode_utf8(s), none, k);
        },
        Frame::Integer(n) => {
            lemma_signed_decimal_no_crlf(n as int);
            assert(line(INTEGER, signed_decimal(n as int)) + none =~= frame_bytes(f));
            lemma_line_cut(INTEGER, signed_decimal(n as int), none, k);
        },
        Frame::Double(t) => {
            lemma_double_text_no_crlf(t);
            assert(line(DOUBLE, t) + none =~= frame_bytes(f));
            lemma_line_cut(DOUBLE, t, none, k);
        },
        _ => {},
    }
}

/// The null value and a truth value, cut short, ask for more bytes.
pub proof fn lemma_fixed_frame_cut(f: Frame, k: int)
    requires
        f is Null || f is Boolean,
        1 <= k < frame_bytes(f).len(),
    ensures
        cut_is_incomplete(f, k),
{
    reveal(frame_len);
    reveal(decode_frame);
    reveal(decode_null);
    reveal(decode_boolean);
    let cut = frame_bytes(f).take(k);
    assert(cut[0] == frame_bytes(f)[0]);
}

/// An absent value, cut short, asks for more bytes.
pub proof fn lemma_null_frame_cut(f: Frame, k: int)
    requires
        f is NullBulkString || f is NullArray,
        1 <= k < frame_bytes(f).len(),
    ensures
        cut_is_incomplete(f, k),
{
    reveal(frame_len);
    reveal(decode_frame);
    let cut = frame_bytes(f).take(k);
    assert(cut[0] == frame_bytes(f)[0]);
    if f is NullBulkString {
        assert(frame_bytes(f) =~= null_bulk_string_bytes());
        assert(cut =~= null_bulk_string_bytes().subrange(0, k));
    } else {
        assert(frame_bytes(f) =~= null_array_bytes());
        assert(cut =~= null_array_bytes().subrange(0, k));
    }
}

/// A sized frame that is cut short within its header line asks for more
/// bytes.
pub proof fn lemma_header_cut(marker: u8, n: nat, body: Seq<u8>, k: int)
    requires
        1 <= k < decimal(n).len() + 3,
    ensures
        ({
            let cut = (line(marker, decimal(n)) + body).take(k);
            &&& cut.len() == k
            &&& cut[0] == marker
            &&& length_header(cut, seq![marker]) == Err::<(int, nat), RespError>(
                RespError::NotComplete,
            )
        }),
{
    reveal(length_header);
    lemma_decimal(n);
    lemma_digits_no_crlf(decimal(n));
    lemma_line_cut(marker, decimal(n), body, k);
}

/// A sized frame that is cut short behind its first two bytes is not taken
/// for an absent value, nor for a beginning of one; cut short behind its
/// first byte, it is a beginning of the absent value with the same marker.
pub proof fn lemma_cut_not_null(marker: u8, n: nat, body: Seq<u8>, k: int)
    requires
        1 <= k <= decimal(n).len() + 3 + body.len(),
    ensures
        ({
            let cut = (line(marker, decimal(n)) + body).take(k);
            &&& !null_bulk_string_bytes().is_prefix_of(cut)
            &&& !null_array_bytes().is_prefix_of(cut)
            &&& k >= 2 ==> !short_of(cut, null_bulk_string_bytes()) && !short_of(
                cut,
                null_array_bytes(),
            )
            &&& k == 1 && marker == BULK_STRING ==> short_of(cut, null_bulk_string_bytes())
            &&& k == 1 && marker == ARRAY ==> short_of(cut, null_array_bytes())
        }),
{
    let cut = (line(marker, decimal(n)) + body).take(k);
    let a = null_bulk_string_bytes();
    let b = null_array_bytes();
    lemma_decimal(n);
    if k >= 2 {
        assert(cut[1] == decimal(n)[0]);
        assert(is_digit(decimal(n)[0]));
        if a.is_prefix_of(cut) {
            assert(cut.subrange(0, 5)[1] == a[1]);
        }
        if b.is_prefix_of(cut) {
            assert(cut.subrange(0, 5)[1] == b[1]);
        }
        if short_of(cut, a) {
            assert(a.subrange(0, cut.len() as int)[1] == cut[1]);
        }
        if short_of(cut, b) {
            assert(b.subrange(0, cut.len() as int)[1] == cut[1]);
        }
    } else {
        if marker == BULK_STRING {
            assert(cut =~= a.subrange(0, 1));
        }
        if marker == ARRAY {
            assert(cut =~= b.subrange(0, 1));
        }
    }
}

/// A bulk string, cut short, asks for more bytes.
pub proof fn lemma_bulk_cut(b: Seq<u8>, k: int)
    requires
        b.len() <= usize::MAX,
        1 <= k < frame_bytes(Frame::BulkString(b)).len(),
    ensures
        cut_is_incomplete(Frame::BulkString(b), k),
{
    let f = Frame::BulkString(b);
    let head = line(BULK_STRING, decimal(b.len()));
    let body = b + crlf();
    assert(frame_bytes(f) =~= head + body);
    let cut = frame_bytes(f).take(k);
    lemma_cut_not_null(BULK_STRING, b.len(), body, k);
    assert(cut[0] == BULK_STRING);
    if k < head.len() {
        lemma_header_cut(BULK_STRING, b.len(), body, k);
    } else {
        let rest = body.take(k - head.len());
        assert(cut =~= head + rest);
        lemma_header_reads_back(BULK_STRING, b.len(), rest);
    }
    assert(bulk_len(cut) == Err::<nat, RespError>(RespError::NotComplete));
    assert(decode_bulk_string(cut) == Err::<(Frame, nat), RespError>(RespError::NotComplete)) by {
        reveal(decode_bulk_string);
    }
    assert(frame_len(cut) == Err::<nat, RespError>(RespError::NotComplete)) by {
        reveal(frame_len);
    }
    assert(decode_frame(cut) == Err::<(Frame, nat), RespError>(RespError::NotComplete)) by {
        reveal(decode_frame);
    }
}

/// The members of an array or a set that is cut short ask for more bytes,
/// once the members cut short do.
pub proof fn lemma_members_cut(marker: u8, a: Seq<Frame>, k: int)
    requires
        marker == ARRAY || marker == RESP_SET,
        a.len() <= usize::MAX,
        1 <= k < decimal(a.len()).len() + 3 + frames_bytes(a, 0).len(),
        ({
            let j = k - (decimal(a.len()).len() + 3);
            0 <= j ==> frames_len(frames_bytes(a, 0).take(j), a.len()) == Err::<nat, RespError>(
                RespError::NotComplete,
            )
        }),
    ensures
        ({
            let cut = (line(marker, decimal(a.len())) + frames_bytes(a, 0)).take(k);
            &&& cut[0] == marker
            &&& aggregate_len(cut, seq![marker]) == Err::<nat, RespError>(RespError::NotComplete)
            &&& decode_members(cut, seq![marker]) == Err::<(Seq<Frame>, nat), RespError>(
                RespError::NotComplete,
            )
        }),
{
    let head = line(marker, decimal(a.len()));
    let body = frames_bytes(a, 0);
    let cut = (head + body).take(k);
    if k < head.len() {
        lemma_header_cut(marker, a.len(), body, k);
    } else {
        let rest = body.take(k - head.len());
        assert(cut =~= head + rest);
        lemma_members_behind_header(marker, a.len(), rest);
    }
}

/// An array, cut short, asks for more bytes, once its members cut short do.
pub proof fn lemma_array_cut(a: Seq<Frame>, k: int)
    requires
        a.len() <= usize::MAX,
        1 <= k < frame_bytes(Frame::Array(a)).len(),
        ({
            let j = k - (decimal(a.len()).len() + 3);
            0 <= j ==> frames_len(frames_bytes(a, 0).take(j), a.len()) == Err::<nat, RespError>(
                RespError::NotComplete,
            )
        }),
    ensures
        cut_is_incomplete(Frame::Array(a), k),
{
    let f = Frame::Array(a);
    let head = line(ARRAY, decimal(a.len()));
    let body = frames_bytes(a, 0);
    assert(frame_bytes(f) =~= head + body);
    let cut = frame_bytes(f).take(k);
    lemma_cut_not_null(ARRAY, a.len(), body, k);
    lemma_members_cut(ARRAY, a, k);
    assert(frame_len(cut) == Err::<nat, RespError>(RespError::NotComplete)) by {
        reveal(frame_len);
    }
    assert(decode_frame(cut) == Err::<(Frame, nat), RespError>(RespError::NotComplete)) by {
        reveal(decode_frame);
    }
}

/// A set, cut short, asks for more bytes, once its members cut short do.
pub proof fn lemma_set_cut(a: Seq<Frame>, k: int)
    requires
        a.len() <= usize::MAX,
        1 <= k < frame_bytes(Frame::RespSet(a)).len(),
        ({
            let j = k - (decimal(a.len()).len() + 3);
            0 <= j ==> frames_len(frames_bytes(a, 0).take(j), a.len()) == Err::<nat, RespError>(
                RespError::NotComplete,
            )
        }),
    ensures
        cut_is_incomplete(Frame::RespSet(a), k),
{
    let f = Frame::RespSet(a);
    let head = line(RESP_SET, decimal(a.len()));
    let body = frames_bytes(a, 0);
    assert(frame_bytes(f) =~= head + body);
    let cut = frame_bytes(f).take(k);
    lemma_members_cut(RESP_SET, a, k);
    assert(frame_len(cut) == Err::<nat, RespError>(RespError::NotComplete)) by {
        reveal(frame_len);
    }
    assert(decode_frame(cut) == Err::<(Frame, nat), RespError>(RespError::NotComplete)) by {
        reveal(decode_frame);
    }
}

/// A map, cut short, asks for more bytes, once its entries cut short do.
pub proof fn lemma_map_cut(m: Seq<(Seq<char>, Frame)>, k: int)
    requires
        m.len() <= usize::MAX,
        1 <= k < frame_bytes(Frame::RespMap(m)).len(),
        ({
            let j = k - (decimal(m.len()).len() + 3);
            0 <= j ==> entries_len(entries_bytes(m, 0).take(j), m.len()) == Err::<nat, RespError>(
                RespError::NotComplete,
            )
        }),
    ensures
        cut_is_incomplete(Frame::RespMap(m), k),
{
    let f = Frame::RespMap(m);
    let head = line(RESP_MAP, decimal(m.len()));
    let body = entries_bytes(m, 0);
    assert(frame_bytes(f) =~= head + body);
    let cut = frame_bytes(f).take(k);
    if k < head.len() {
        lemma_header_cut(RESP_MAP, m.len(), body, k);
        assert(aggregate_len(cut, seq![RESP_MAP]) == Err::<nat, RespError>(
            RespError::NotComplete,
        ));
        assert(decode_map(cut) == Err::<(Frame, nat), RespError>(RespError::NotComplete));
    } else {
        let rest = body.take(k - head.len());
        assert(cut =~= head + rest);
        lemma_entries_behind_header(m.len(), rest);
    }
    assert(cut[0] == RESP_MAP);
    assert(frame_len(cut) == Err::<nat, RespError>(RespError::NotComplete)) by {
        reveal(frame_len);
    }
    assert(decode_frame(cut) == Err::<(Frame, nat), RespError>(RespError::NotComplete)) by {
        reveal(decode_frame);
    }
}

/// Atomicity on incompleteness: any proper beginning of what a frame is
/// written as measures and decodes as not complete. Decoding leaves the
/// buffer as it is on every error, so such a buffer is never changed.
pub proof fn lemma_cut_short(f: Frame, k: int)
    requires
        frame_wf(f),
        0 <= k < frame_bytes(f).len(),
    ensures
        cut_is_incomplete(f, k),
    decreases f, 0int,
{
    if k == 0 {
        lemma_empty_incomplete(f);
    } else {
        match f {
            Frame::SimpleString(_) => lemma_line_frame_cut(f, k),
            Frame::Error(_) => lemma_line_frame_cut(f, k),
            Frame::Integer(_) => lemma_line_frame_cut(f, k),
            Frame::Double(_) => lemma_line_frame_cut(f, k),
            Frame::Null => lemma_fixed_frame_cut(f, k),
            Frame::Boolean(_) => lemma_fixed_frame_cut(f, k),
            Frame::NullBulkString => lemma_null_frame_cut(f, k),
            Frame::NullArray => lemma_null_frame_cut(f, k),
            Frame::BulkString(b) => lemma_bulk_cut(b, k),
            Frame::Array(a) => {
                let j = k - (decimal(a.len()).len() + 3);
                if 0 <= j {
                    lemma_frames_cut(a, 0, j);
                }
                lemma_array_cut(a, k);
            },
            Frame::RespSet(a) => {
                let j = k - (decimal(a.len()).len() + 3);
                if 0 <= j {
                    lemma_frames_cut(a, 0, j);
                }
                lemma_set_cut(a, k);
            },
            Frame::RespMap(m) => {
                let j = k - (decimal(m.len()).len() + 3);
                if 0 <= j {
                    lemma_entries_cut(m, 0, j);
                }
                lemma_map_cut(m, k);
            },
        }
    }
}

/// Frames written one after the other and cut short ask for more bytes: the
/// count that was declared is not yet there.
pub proof fn lemma_frames_cut(fs: Seq<Frame>, i: nat, j: int)
    requires
        i <= fs.len(),
        frames_wf(fs),
        0 <= j < frames_bytes(fs, i).len(),
    ensures
        frames_len(frames_bytes(fs, i).take(j), (fs.len() - i) as nat) == Err::<nat, RespError>(
            RespError::NotComplete,
        ),
    decreases fs, fs.len() - i,
{
    let head = frame_bytes(fs[i as int]);
    let tail = frames_bytes(fs, i + 1);
    let data = frames_bytes(fs, i).take(j);
    let count = (fs.len() - i) as nat;
    lemma_frames_len_step(data, count);
    if j < head.len() {
        assert(data =~= head.take(j));
        lemma_cut_short(fs[i as int], j);
    } else {
        let rest = tail.take(j - head.len());
        assert(data =~= head + rest);
        lemma_round_trip(fs[i as int], rest);
        assert(data.skip(head.len() as int) =~= rest);
        lemma_frames_cut(fs, i + 1, j - head.len());
    }
}

/// Map entries written one after the other and cut short ask for more
/// bytes.
pub proof fn lemma_entries_cut(m: Seq<(Seq<char>, Frame)>, i: nat, j: int)
    requires
        i <= m.len(),
        entries_wf(m),
        0 <= j < entries_bytes(m, i).len(),
    ensures
        entries_len(entries_bytes(m, i).take(j), (m.len() - i) as nat) == Err::<nat, RespError>(
            RespError::NotComplete,
        ),
    decreases m, m.len() - i,
{
    let text = encode_utf8(m[i as int].0);
    let key = line(SIMPLE_STRING, text);
    let value = frame_bytes(m[i as int].1);
    let tail = entries_bytes(m, i + 1);
    let data = entries_bytes(m, i).take(j);
    let count = (m.len() - i) as nat;
    lemma_entries_len_step(data, count);
    assert(entries_bytes(m, i) =~= key + (value + tail));
    if j == 0 {
    } else if j < key.len() {
        lemma_line_cut(SIMPLE_STRING, text, value + tail, j);
    } else {
        let after_key = (value + tail).take(j - key.len());
        assert(data =~= key + after_key);
        lemma_simple_string_line(m[i as int].0, after_key);
        assert(data.skip(key.len() as int) =~= after_key);
        if j - key.len() < value.len() {
            assert(after_key =~= value.take(j - key.len()));
            lemma_cut_short(m[i as int].1, j - key.len());
        } else {
            let rest = tail.take(j - key.len() - value.len());
            assert(after_key =~= value + rest);
            lemma_round_trip(m[i as int].1, rest);
            assert(data.skip((key.len() + value.len()) as int) =~= rest);
            lemma_entries_cut(m, i + 1, j - key.len() - value.len());
        }
    }
}

/// The bytes of some frames are the bytes of all but the last, and then
/// the bytes of the last.
pub proof fn lemma_frames_bytes_last(a: Seq<Frame>, i: nat)
    requires
        i < a.len(),
    ensures
        frames_bytes(a, i) == frames_bytes(a.drop_last(), i) + frame_bytes(a.last()),
    decreases a.len() - i,
{
    let d = a.drop_last();
    if i + 1 < a.len() {
        lemma_frames_bytes_last(a, i + 1);
        assert(d[i as int] == a[i as int]);
        assert(frames_bytes(a, i) =~= frames_bytes(d, i) + frame_bytes(a.last()));
    } else {
        assert(frames_bytes(a, i + 1) =~= Seq::<u8>::empty());
        assert(frames_bytes(d, i) =~= Seq::<u8>::empty());
        assert(a[i as int] == a.last());
        assert(frames_bytes(a, i) =~= frames_bytes(d, i) + frame_bytes(a.last()));
    }
}

/// Recursive incompleteness: an array that declares as many members as `a`
/// has, in a buffer that holds all of them but the last and only a proper
/// beginning of the last, is not complete. It is no error of any other
/// kind, whatever the members are.
pub proof fn lemma_partial_last_member(a: Seq<Frame>, k: int)
    requires
        frame_wf(Frame::Array(a)),
        a.len() > 0,
        0 <= k < frame_bytes(a.last()).len(),
    ensures
        ({
            let buf = line(ARRAY, decimal(a.len())) + frames_bytes(a.drop_last(), 0) + frame_bytes(
                a.last(),
            ).take(k);
            &&& frame_len(buf) == Err::<nat, RespError>(RespError::NotComplete)
            &&& decode_frame(buf) == Err::<(Frame, nat), RespError>(RespError::NotComplete)
        }),
{
    let f = Frame::Array(a);
    let head = line(ARRAY, decimal(a.len()));
    let front = frames_bytes(a.drop_last(), 0);
    let last = frame_bytes(a.last());
    let buf = head + front + last.take(k);
    lemma_frames_bytes_last(a, 0);
    let cut: int = head.len() + front.len() + k;
    assert(frame_bytes(f) =~= head + front + last);
    assert(buf =~= frame_bytes(f).take(cut));
    lemma_cut_short(f, cut);
}

} // verus!
