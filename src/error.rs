//! The error that decoding reports.

use vstd::prelude::*;
use crate::chars::copy_range;

verus! {

/// What went wrong while decoding a string literal.
#[derive(Clone, Copy, Debug, PartialEq, Eq, Structural)]
pub enum DecodeErrorKind {
    /// The buffer ended before the closing quote.
    UnterminatedString,
    /// A raw control character (below 0x20) in strict mode.
    InvalidControlCharacter,
    /// A backslash followed by the given character, which starts no escape.
    InvalidEscape(u32),
    /// `\u` not followed by four hexadecimal digits.
    InvalidUnicodeEscape,
}

/// A decoding failure and the code-point index it is reported at.
#[derive(Clone, Copy, Debug, PartialEq, Eq, Structural)]
pub struct DecodeError {
    pub kind: DecodeErrorKind,
    pub pos: usize,
}

pub const APOSTROPHE: u32 = 0x27;

/// The code points of a text.
pub open spec fn code_points_of(s: Seq<char>) -> Seq<u32> {
    s.map_values(|c: char| c as u32)
}

/// The code points of `s`.
pub fn str_code_points(s: &str) -> (r: Vec<u32>)
    ensures
        r@ == code_points_of(s@),
{
    let n = s.unicode_len();
    let mut out: Vec<u32> = Vec::new();
    let mut i: usize = 0;
    while i < n
        invariant
            n == s@.len(),
            i <= n,
            out@ == code_points_of(s@.take(i as int)),
        decreases n - i,
    {
        let c = s.get_char(i);
        out.push(c as u32);
        i = i + 1;
        assert(out@ =~= code_points_of(s@.take(i as int)));
    }
    assert(s@.take(i as int) =~= s@);
    out
}

impl DecodeErrorKind {
    /// The message for this kind of failure; the position follows it. An
    /// invalid escape is named in it, between apostrophes.
    pub open spec fn message_spec(&self) -> Seq<u32> {
        match self {
            DecodeErrorKind::UnterminatedString => code_points_of(
                "Unterminated string starting at"@,
            ),
            DecodeErrorKind::InvalidControlCharacter => code_points_of(
                "Invalid control character at"@,
            ),
            DecodeErrorKind::InvalidEscape(c) => code_points_of("Invalid \\escape: "@) + seq![
                APOSTROPHE,
                *c,
                APOSTROPHE,
            ],
            DecodeErrorKind::InvalidUnicodeEscape => code_points_of("Invalid \\uXXXX escape"@),
        }
    }

    /// The message for this kind of failure, as code points.
    pub fn message(&self) -> (r: Vec<u32>)
        ensures
            r@ == self.message_spec(),
    {
        match self {
            DecodeErrorKind::UnterminatedString => str_code_points("Unterminated string starting at"),
            DecodeErrorKind::InvalidControlCharacter => str_code_points("Invalid control character at"),
            DecodeErrorKind::InvalidEscape(c) => {
                let mut m = str_code_points("Invalid \\escape: ");
                m.push(APOSTROPHE);
                m.push(*c);
                m.push(APOSTROPHE);
                assert(m@ =~= self.message_spec());
                m
            },
            DecodeErrorKind::InvalidUnicodeEscape => str_code_points("Invalid \\uXXXX escape"),
        }
    }
}

/// A decoding failure as reported to users: its message, the whole document
/// that was being decoded, and the position in it.
#[derive(Debug)]
pub struct JsonDecodeError {
    pub msg: Vec<u32>,
    pub doc: Vec<u32>,
    pub pos: usize,
}

/// Turns `e`, met while decoding `s`, into the error reported to users.
pub fn py_decode_error(e: DecodeError, s: &[u32]) -> (r: JsonDecodeError)
    ensures
        r.msg@ == e.kind.message_spec(),
        r.doc@ == s@,
        r.pos == e.pos,
{
    JsonDecodeError { msg: e.kind.message(), doc: copy_range(s, 0, s.len()), pos: e.pos }
}

} // verus!
