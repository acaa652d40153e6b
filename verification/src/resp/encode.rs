//! Encoding: from a frame to the bytes that stand for it on the wire.

use crate::resp::frame::{entries_of, frame_of, frames_of, RespFrame};
use crate::resp::line::{crlf, CR, LF};
use crate::resp::marker::{
    ARRAY, BOOLEAN, BULK_STRING, DOUBLE, FALSE, INTEGER, MINUS, NULL, ONE, RESP_MAP, RESP_SET,
    SIMPLE_ERROR, SIMPLE_STRING, TRUE,
};
use crate::resp::model::{entries_bytes, frame_bytes, frames_bytes, line, RespValue};
use crate::resp::number::{decimal, push_decimal, push_signed_decimal, signed_decimal};
use vstd::prelude::*;
use vstd::string::*;

verus! {

/// The capacity that the output of an aggregate frame starts with.
pub const BUF_CAP: usize = 4096;

/// A value that can be written as a frame. Encoding never fails.
pub trait RespEncode: RespValue + Sized {
    /// The bytes of the frame that the value stands for.
    fn encode(self) -> (out: Vec<u8>)
        ensures
            out@ == frame_bytes(self.frame()),
    ;
}

/// Appends `bytes` to `out`.
pub fn push_bytes(out: &mut Vec<u8>, bytes: &[u8])
    ensures
        final(out)@ == old(out)@ + bytes@,
{
    let mut i: usize = 0;
    while i < bytes.len()
        invariant
            i <= bytes.len(),
            out@ == old(out)@ + bytes@.take(i as int),
        decreases bytes.len() - i,
    {
        out.push(bytes[i]);
        assert(bytes@.take(i + 1) =~= bytes@.take(i as int).push(bytes@[i as int]));
        i += 1;
    }
    assert(bytes@.take(bytes@.len() as int) =~= bytes@);
}

/// Appends a line terminator to `out`.
pub fn push_crlf(out: &mut Vec<u8>)
    ensures
        final(out)@ == old(out)@ + crlf(),
{
    out.push(CR);
    out.push(LF);
    assert(final(out)@ =~= old(out)@ + crlf());
}

/// Appends a line to `out`: the marker, the text, a terminator.
pub fn push_line(out: &mut Vec<u8>, marker: u8, text: &[u8])
    ensures
        final(out)@ == old(out)@ + line(marker, text@),
{
    out.push(marker);
    push_bytes(out, text);
    push_crlf(out);
    assert(final(out)@ =~= old(out)@ + line(marker, text@));
}

/// Appends the header line of a sized frame: the marker, the length or count
/// in decimal, a terminator.
pub fn push_header(out: &mut Vec<u8>, marker: u8, n: usize)
    ensures
        final(out)@ == old(out)@ + line(marker, decimal(n as nat)),
{
    out.push(marker);
    push_decimal(out, n as u64);
    push_crlf(out);
    assert(final(out)@ =~= old(out)@ + line(marker, decimal(n as nat)));
}

/// Appends the bytes of the frame `f` to `out`.
pub fn write_frame(f: &RespFrame, out: &mut Vec<u8>)
    ensures
        final(out)@ == old(out)@ + frame_bytes(frame_of(*f)),
    decreases f,
{
    match f {
        RespFrame::SimpleString(s) => push_line(out, SIMPLE_STRING, s.0.as_str().as_bytes()),
        RespFrame::Error(s) => push_line(out, SIMPLE_ERROR, s.0.as_str().as_bytes()),
        RespFrame::Integer(n) => {
            out.push(INTEGER);
            push_signed_decimal(out, *n);
            push_crlf(out);
            assert(final(out)@ =~= old(out)@ + line(INTEGER, signed_decimal(*n as int)));
        },
        RespFrame::BulkString(b) => {
            push_header(out, BULK_STRING, b.0.len());
            push_bytes(out, b.0.as_slice());
            push_crlf(out);
            assert(final(out)@ =~= old(out)@ + (line(BULK_STRING, decimal(b.0@.len())) + b.0@
                + crlf()));
        },
        RespFrame::NullBulkString(_) => {
            out.push(BULK_STRING);
            out.push(MINUS);
            out.push(ONE);
            push_crlf(out);
            assert(final(out)@ =~= old(out)@ + line(BULK_STRING, seq![MINUS, ONE]));
        },
        RespFrame::Array(a) => {
            proof {
                crate::resp::frame::lemma_frame_of_array(*a);
            }
            write_members(&a.0, ARRAY, out);
        },
        RespFrame::NullArray(_) => {
            out.push(ARRAY);
            out.push(MINUS);
            out.push(ONE);
            push_crlf(out);
            assert(final(out)@ =~= old(out)@ + line(ARRAY, seq![MINUS, ONE]));
        },
        RespFrame::Null(_) => {
            out.push(NULL);
            push_crlf(out);
            assert(final(out)@ =~= old(out)@ + line(NULL, Seq::empty()));
        },
        RespFrame::Boolean(b) => {
            out.push(BOOLEAN);
            out.push(
                if *b {
                    TRUE
                } else {
                    FALSE
                },
            );
            push_crlf(out);
            assert(final(out)@ =~= old(out)@ + line(
                BOOLEAN,
                seq![
                    if *b {
                        TRUE
                    } else {
                        FALSE
                    },
                ],
            ));
        },
        RespFrame::Double(d) => push_line(out, DOUBLE, d.0.as_slice()),
        RespFrame::RespMap(m) => {
            proof {
                crate::resp::frame::lemma_frame_of_map(*m);
            }
            write_entries(&m.0, out);
        },
        RespFrame::RespSet(a) => {
            proof {
                crate::resp::frame::lemma_frame_of_set(*a);
            }
            write_members(&a.0, RESP_SET, out);
        },
    }
}

/// Appends an aggregate of frames to `out`: the header line with the marker
/// and the count, then each member in order.
pub fn write_members(fs: &Vec<RespFrame>, marker: u8, out: &mut Vec<u8>)
    ensures
        final(out)@ == old(out)@ + (line(marker, decimal(fs@.len())) + frames_bytes(
            frames_of(fs@),
            0,
        )),
    decreases fs,
{
    push_header(out, marker, fs.len());
    let ghost whole = old(out)@ + (line(marker, decimal(fs@.len())) + frames_bytes(
        frames_of(fs@),
        0,
    ));
    assert(out@ + frames_bytes(frames_of(fs@), 0) =~= whole);
    let mut i: usize = 0;
    while i < fs.len()
        invariant
            i <= fs.len(),
            out@ + frames_bytes(frames_of(fs@), i as nat) == whole,
        decreases fs.len() - i,
    {
        let ghost before = out@;
        write_frame(&fs[i], out);
        proof {
            assert(frames_of(fs@)[i as int] == frame_of(fs@[i as int]));
            assert(out@ + frames_bytes(frames_of(fs@), (i + 1) as nat) =~= before + frames_bytes(
                frames_of(fs@),
                i as nat,
            ));
        }
        i += 1;
    }
    assert(out@ + frames_bytes(frames_of(fs@), i as nat) =~= out@);
}

/// Appends a map to `out`: the header line with the count, then each entry in
/// order, the key as a simple string and then the value.
pub fn write_entries(es: &Vec<(String, RespFrame)>, out: &mut Vec<u8>)
    ensures
        final(out)@ == old(out)@ + (line(RESP_MAP, decimal(es@.len())) + entries_bytes(
            entries_of(es@),
            0,
        )),
    decreases es,
{
    push_header(out, RESP_MAP, es.len());
    let ghost whole = old(out)@ + (line(RESP_MAP, decimal(es@.len())) + entries_bytes(
        entries_of(es@),
        0,
    ));
    assert(out@ + entries_bytes(entries_of(es@), 0) =~= whole);
    let mut i: usize = 0;
    while i < es.len()
        invariant
            i <= es.len(),
            out@ + entries_bytes(entries_of(es@), i as nat) == whole,
        decreases es.len() - i,
    {
        let ghost before = out@;
        push_line(out, SIMPLE_STRING, es[i].0.as_str().as_bytes());
        write_frame(&es[i].1, out);
        proof {
            assert(entries_of(es@)[i as int] == (es@[i as int].0@, frame_of(es@[i as int].1)));
            assert(out@ + entries_bytes(entries_of(es@), (i + 1) as nat) =~= before
                + entries_bytes(entries_of(es@), i as nat));
        }
        i += 1;
    }
    assert(out@ + entries_bytes(entries_of(es@), i as nat) =~= out@);
}

impl RespEncode for RespFrame {
    fn encode(self) -> (out: Vec<u8>) {
        let mut out = Vec::new();
        write_frame(&self, &mut out);
        assert(out@ =~= frame_bytes(frame_of(self)));
        out
    }
}

impl RespEncode for i64 {
    fn encode(self) -> (out: Vec<u8>) {
        let mut out = Vec::new();
        out.push(INTEGER);
        push_signed_decimal(&mut out, self);
        push_crlf(&mut out);
        assert(out@ =~= line(INTEGER, signed_decimal(self as int)));
        out
    }
}

impl RespEncode for bool {
    fn encode(self) -> (out: Vec<u8>) {
        let mut out = Vec::new();
        out.push(BOOLEAN);
        out.push(
            if self {
                TRUE
            } else {
                FALSE
            },
        );
        push_crlf(&mut out);
        assert(out@ =~= line(
            BOOLEAN,
            seq![
                if self {
                    TRUE
                } else {
                    FALSE
                },
            ],
        ));
        out
    }
}

} // verus!
