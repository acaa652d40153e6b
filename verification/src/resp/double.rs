//! Doubles: floating-point numbers, held as their decimal text.

use crate::resp::buffer::as_slice;
use crate::resp::decode::{consume, decode_double, read_double, RespDecode};
use crate::resp::encode::{push_bytes, push_line, RespEncode};
use crate::resp::error::RespError;
use crate::resp::length::{line_frame_len, line_length};
use crate::resp::marker::{EXPONENT, EXPONENT_CAPITAL, MINUS, NINE, PLUS, POINT, ZERO};
use crate::resp::model::{frame_bytes, Frame, RespValue};
use crate::resp::number::{is_digit, parse_i64, read_i64};
use crate::resp::text::{lower, to_lower};
use bytes::BytesMut;
use vstd::prelude::*;
use vstd::slice::slice_subrange;
use vstd::string::*;

verus! {

/// The byte is a sign.
pub open spec fn is_sign(b: u8) -> bool {
    b == PLUS || b == MINUS
}

/// The index behind the run of decimal digits that starts at `i`.
pub open spec fn digits_end(s: Seq<u8>, i: int) -> int
    decreases s.len() - i,
{
    if 0 <= i < s.len() && is_digit(s[i]) {
        digits_end(s, i + 1)
    } else {
        i
    }
}

/// From index `i` to its end, `s` is the word `w`, in capital or small
/// letters.
pub open spec fn is_word(s: Seq<u8>, i: int, w: Seq<u8>) -> bool {
    s.len() - i == w.len() && forall|j: int| 0 <= j < w.len() ==> lower(s[i + j]) == w[j]
}

/// From index `i` to its end, `s` is a decimal number: digits with at most
/// one point among them, at least one digit in all, and then possibly an
/// exponent, which is `e` or `E`, an optional sign and one digit or more.
pub open spec fn is_number(s: Seq<u8>, i: int) -> bool {
    let a = digits_end(s, i);
    let b = if a < s.len() && s[a] == POINT {
        digits_end(s, a + 1)
    } else {
        a
    };
    let mantissa_digits = if b > a {
        b - i - 1
    } else {
        a - i
    };
    mantissa_digits > 0 && (b == s.len() || (b < s.len() && lower(s[b]) == EXPONENT && {
        let c = if b + 1 < s.len() && is_sign(s[b + 1]) {
            b + 2
        } else {
            b + 1
        };
        let d = digits_end(s, c);
        d > c && d == s.len()
    }))
}

/// `s` is a floating-point literal: an optional sign, and then `inf`,
/// `infinity` or `nan` in any case of letters, or a decimal number.
pub open spec fn is_double_text(s: Seq<u8>) -> bool {
    let i: int = if s.len() > 0 && is_sign(s[0]) {
        1
    } else {
        0
    };
    is_word(s, i, "inf".spec_bytes()) || is_word(s, i, "infinity".spec_bytes()) || is_word(
        s,
        i,
        "nan".spec_bytes(),
    ) || is_number(s, i)
}

/// A floating-point number, held as the decimal text that stands for it on
/// the wire.
#[derive(Debug, Clone, PartialEq, Eq, PartialOrd)]
pub struct RespDouble(pub Vec<u8>);

impl View for RespDouble {
    type V = Seq<u8>;

    open spec fn view(&self) -> Seq<u8> {
        self.0@
    }
}

impl RespValue for RespDouble {
    open spec fn frame(&self) -> Frame {
        Frame::Double(self@)
    }
}

/// The index behind the run of decimal digits that starts at `i`.
fn skip_digits(s: &[u8], i: usize) -> (r: usize)
    requires
        i <= s.len(),
    ensures
        r == digits_end(s@, i as int),
        i <= r <= s.len(),
{
    let mut j: usize = i;
    while j < s.len() && ZERO <= s[j] && s[j] <= NINE
        invariant
            i <= j <= s.len(),
            digits_end(s@, i as int) == digits_end(s@, j as int),
        decreases s.len() - j,
    {
        j += 1;
    }
    j
}

/// Whether `s` from index `i` to its end is the word `w`, in capital or
/// small letters.
fn word_at(s: &[u8], i: usize, w: &[u8]) -> (r: bool)
    requires
        i <= s.len(),
    ensures
        r == is_word(s@, i as int, w@),
{
    if s.len() - i != w.len() {
        return false;
    }
    let mut j: usize = 0;
    while j < w.len()
        invariant
            i <= s.len(),
            s.len() - i == w.len(),
            j <= w.len(),
            forall|k: int| 0 <= k < j ==> lower(s@[i + k]) == w@[k],
        decreases w.len() - j,
    {
        if to_lower(s[i + j]) != w[j] {
            return false;
        }
        j += 1;
    }
    true
}

/// Whether `s` from index `i` to its end is a decimal number.
fn number_at(s: &[u8], i: usize) -> (r: bool)
    requires
        i <= s.len(),
    ensures
        r == is_number(s@, i as int),
{
    let a = skip_digits(s, i);
    let b = if a < s.len() && s[a] == POINT {
        skip_digits(s, a + 1)
    } else {
        a
    };
    let mantissa_digits = if b > a {
        b - i - 1
    } else {
        a - i
    };
    if mantissa_digits == 0 {
        return false;
    }
    if b == s.len() {
        return true;
    }
    if s[b] != EXPONENT && s[b] != EXPONENT_CAPITAL {
        return false;
    }
    let c = if b + 1 < s.len() && (s[b + 1] == PLUS || s[b + 1] == MINUS) {
        b + 2
    } else {
        b + 1
    };
    let d = skip_digits(s, c);
    d > c && d == s.len()
}

/// Whether `s` is a floating-point literal.
pub fn is_double(s: &[u8]) -> (r: bool)
    ensures
        r == is_double_text(s@),
{
    let i: usize = if s.len() > 0 && (s[0] == PLUS || s[0] == MINUS) {
        1
    } else {
        0
    };
    word_at(s, i, "inf".as_bytes()) || word_at(s, i, "infinity".as_bytes()) || word_at(
        s,
        i,
        "nan".as_bytes(),
    ) || number_at(s, i)
}

/// The index of the first exponent marker, `e` or `E`, at or after `i`; the
/// length of the text where there is none.
pub open spec fn marker_index(s: Seq<u8>, i: int) -> int
    decreases s.len() - i,
{
    if 0 <= i < s.len() && lower(s[i]) != EXPONENT {
        marker_index(s, i + 1)
    } else {
        i
    }
}

/// The decimal exponent that a rendering in scientific notation shows
/// behind its exponent marker. A rendering without a marker, such as that of
/// an infinity, shows none.
pub open spec fn shown_exponent(scientific: Seq<u8>) -> Option<i64> {
    let p = marker_index(scientific, 0);
    if 0 <= p < scientific.len() {
        parse_i64(scientific.skip(p + 1))
    } else {
        None
    }
}

/// Whether a number goes on the wire in scientific notation: when its
/// magnitude is at least 10^8, or is below 10^-8 and not zero. The rendering
/// in scientific notation shows it: the exponent is at least 8 or at most -9.
pub open spec fn writes_scientific(scientific: Seq<u8>) -> bool {
    match shown_exponent(scientific) {
        Some(x) => x >= 8 || x <= -9,
        None => false,
    }
}

/// The text of a double on the wire, given the number's rendering in
/// fixed-point notation and its rendering in scientific notation: the one
/// that the magnitude calls for, with a `+` in front unless it begins with
/// `-`.
pub open spec fn double_text(fixed: Seq<u8>, scientific: Seq<u8>) -> Seq<u8> {
    let body = if writes_scientific(scientific) {
        scientific
    } else {
        fixed
    };
    if body.len() > 0 && body[0] == MINUS {
        body
    } else {
        seq![PLUS] + body
    }
}

/// The index of the first exponent marker in `s`.
fn find_marker(s: &[u8]) -> (p: usize)
    ensures
        p == marker_index(s@, 0),
        p <= s.len(),
{
    let mut p: usize = 0;
    while p < s.len() && s[p] != EXPONENT && s[p] != EXPONENT_CAPITAL
        invariant
            p <= s.len(),
            marker_index(s@, 0) == marker_index(s@, p as int),
        decreases s.len() - p,
    {
        p += 1;
    }
    p
}

impl RespDouble {
    /// A double from the two renderings of a number, the one in fixed-point
    /// notation and the one in scientific notation. The text that goes on
    /// the wire is chosen by the magnitude and gets its sign in front. The
    /// result is `None` when that text is no floating-point literal, which
    /// does not happen with the renderings of a number.
    pub fn from_renderings(fixed: &str, scientific: &str) -> (r: Option<RespDouble>)
        ensures
            match r {
                Some(d) => d@ == double_text(fixed.spec_bytes(), scientific.spec_bytes())
                    && d.wf(),
                None => !is_double_text(double_text(fixed.spec_bytes(), scientific.spec_bytes())),
            },
    {
        let sci = scientific.as_bytes();
        let p = find_marker(sci);
        let exponent = if p < sci.len() {
            read_i64(slice_subrange(sci, p + 1, sci.len()))
        } else {
            None
        };
        let body = match exponent {
            Some(x) => if x >= 8 || x <= -9 {
                sci
            } else {
                fixed.as_bytes()
            },
            None => fixed.as_bytes(),
        };
        let mut text: Vec<u8> = Vec::new();
        if !(body.len() > 0 && body[0] == MINUS) {
            text.push(PLUS);
        }
        push_bytes(&mut text, body);
        assert(text@ =~= double_text(fixed.spec_bytes(), scientific.spec_bytes()));
        RespDouble::new(text)
    }

    /// The text is a floating-point literal.
    pub open spec fn wf(&self) -> bool {
        is_double_text(self@)
    }

    /// A double with the given decimal text, if the text is a floating-point
    /// literal.
    pub fn new(text: Vec<u8>) -> (r: Option<RespDouble>)
        ensures
            match r {
                Some(d) => d@ == text@ && d.wf(),
                None => !is_double_text(text@),
            },
    {
        if is_double(text.as_slice()) {
            Some(RespDouble(text))
        } else {
            None
        }
    }
}

impl RespEncode for RespDouble {
    fn encode(self) -> (out: Vec<u8>) {
        let mut out = Vec::new();
        push_line(&mut out, 44, self.0.as_slice());
        assert(out@ =~= frame_bytes(self.frame()));
        out
    }
}

impl RespDecode for RespDouble {
    const PREFIX: &'static str = ",";

    open spec fn decoded(buf: Seq<u8>) -> Result<(Frame, nat), RespError> {
        decode_double(buf)
    }

    open spec fn expected_length(buf: Seq<u8>) -> Result<nat, RespError> {
        line_frame_len(buf, 44)
    }

    fn decode(buf: &mut BytesMut) -> (r: Result<Self, RespError>) {
        let r = read_double(as_slice(buf));
        consume(buf, r)
    }

    fn expect_length(buf: &[u8]) -> (r: Result<usize, RespError>) {
        line_length(buf, 44)
    }
}

impl std::ops::Deref for RespDouble {
    type Target = Vec<u8>;

    fn deref(&self) -> (r: &Vec<u8>)
        ensures
            r@ == self@,
    {
        &self.0
    }
}

} // verus!
