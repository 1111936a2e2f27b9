//! Decoding of a JSON string literal.

use vstd::prelude::*;
use crate::chars::{
    combine_surrogates, hex_value, hex_value_of, is_lead_surrogate, is_trail_surrogate,
    BACKSLASH, LOWER_U, QUOTE, SLASH,
};
use crate::encode::valid_text;
use crate::error::{DecodeError, DecodeErrorKind};

verus! {

/// The outcome of decoding, on the mathematical side: the text and the index
/// just past the closing quote, or an error kind and its position.
pub type Decoded = Result<(Seq<u32>, int), (DecodeErrorKind, int)>;

/// The value of the four hexadecimal digits at `b[i..i + 4]`, if there are
/// four and all are hexadecimal digits.
pub open spec fn hex4(b: Seq<u32>, i: int) -> Option<u32> {
    if 0 <= i && i + 4 <= b.len() {
        match (hex_value(b[i]), hex_value(b[i + 1]), hex_value(b[i + 2]), hex_value(b[i + 3])) {
            (Some(d0), Some(d1), Some(d2), Some(d3)) => Some(
                (d0 * 4096 + d1 * 256 + d2 * 16 + d3) as u32,
            ),
            _ => None,
        }
    } else {
        None
    }
}

/// The character that a two-character escape `\e` stands for.
pub open spec fn unescape(e: u32) -> Option<u32> {
    if e == QUOTE || e == BACKSLASH || e == SLASH {
        Some(e)
    } else if e == 0x62 {
        Some(0x08u32)
    } else if e == 0x66 {
        Some(0x0cu32)
    } else if e == 0x6e {
        Some(0x0au32)
    } else if e == 0x72 {
        Some(0x0du32)
    } else if e == 0x74 {
        Some(0x09u32)
    } else {
        None
    }
}

/// Where an unterminated literal is reported: at its opening quote, which
/// stands just before `start` when there is room for one.
pub open spec fn unterminated_pos(start: int) -> int {
    if start > 0 {
        start - 1
    } else {
        0
    }
}

/// The escape whose backslash stands at `b[i]`: the code point it decodes to
/// and the index just past it. A high surrogate immediately followed by a
/// `\uXXXX` low surrogate is combined with it; otherwise it stays alone.
pub open spec fn escape_at(b: Seq<u32>, start: int, i: int) -> Result<(u32, int), (DecodeErrorKind, int)> {
    if i + 1 >= b.len() {
        Err((DecodeErrorKind::UnterminatedString, unterminated_pos(start)))
    } else if b[i + 1] == LOWER_U {
        match hex4(b, i + 2) {
            None => Err((DecodeErrorKind::InvalidUnicodeEscape, i)),
            Some(u) => if is_lead_surrogate(u) && i + 7 < b.len() && b[i + 6] == BACKSLASH
                && b[i + 7] == LOWER_U {
                match hex4(b, i + 8) {
                    None => Err((DecodeErrorKind::InvalidUnicodeEscape, i + 6)),
                    Some(u2) => if is_trail_surrogate(u2) {
                        Ok((combine_surrogates(u, u2), i + 12))
                    } else {
                        Ok((u, i + 6))
                    },
                }
            } else {
                Ok((u, i + 6))
            },
        }
    } else {
        match unescape(b[i + 1]) {
            Some(c) => Ok((c, i + 2)),
            None => Err((DecodeErrorKind::InvalidEscape(b[i + 1]), i)),
        }
    }
}

/// Decoding of the literal that began at `start`, resumed at `i` with `acc`
/// decoded so far.
pub open spec fn scan_from(b: Seq<u32>, start: int, i: int, strict: bool, acc: Seq<u32>) -> Decoded
    decreases b.len() - i,
{
    if i < 0 || i >= b.len() {
        Err((DecodeErrorKind::UnterminatedString, unterminated_pos(start)))
    } else if b[i] == QUOTE {
        Ok((acc, i + 1))
    } else if b[i] == BACKSLASH {
        match escape_at(b, start, i) {
            Err(e) => Err(e),
            // An escape always advances (see `lemma_escape_advances`); the
            // test only makes that evident to the termination check.
            Ok((c, next)) => if next > i {
                scan_from(b, start, next, strict, acc.push(c))
            } else {
                Err((DecodeErrorKind::InvalidEscape(b[i + 1]), i))
            },
        }
    } else if strict && b[i] < 0x20 {
        Err((DecodeErrorKind::InvalidControlCharacter, i))
    } else {
        scan_from(b, start, i + 1, strict, acc.push(b[i]))
    }
}

/// Decoding of the string literal whose contents begin at `start`, just
/// after its opening quote.
pub open spec fn decode_spec(b: Seq<u32>, start: int, strict: bool) -> Decoded {
    scan_from(b, start, start, strict, seq![])
}

/// The exec result seen as a `Decoded`.
pub open spec fn decoded_view(r: Result<(Vec<u32>, usize), DecodeError>) -> Decoded {
    match r {
        Ok((t, e)) => Ok((t@, e as int)),
        Err(err) => Err((err.kind, err.pos as int)),
    }
}

proof fn lemma_escape_advances(b: Seq<u32>, start: int, i: int)
    requires
        0 <= i < b.len(),
    ensures
        escape_at(b, start, i) matches Ok((_, next)) ==> i + 2 <= next <= b.len(),
{
}

fn read_hex4(b: &[u32], i: usize) -> (r: Option<u32>)
    ensures
        r == hex4(b@, i as int),
{
    if i >= b.len() || b.len() - i < 4 {
        return None;
    }
    match (hex_value_of(b[i]), hex_value_of(b[i + 1]), hex_value_of(b[i + 2]), hex_value_of(b[i + 3])) {
        (Some(d0), Some(d1), Some(d2), Some(d3)) => Some(d0 * 4096 + d1 * 256 + d2 * 16 + d3),
        _ => None,
    }
}

fn unterminated(start: usize) -> (r: DecodeError)
    ensures
        r.kind == DecodeErrorKind::UnterminatedString,
        r.pos as int == unterminated_pos(start as int),
{
    DecodeError { kind: DecodeErrorKind::UnterminatedString, pos: if start > 0 { start - 1 } else { 0 } }
}

fn decode_escape(b: &[u32], start: usize, i: usize) -> (r: Result<(u32, usize), DecodeError>)
    requires
        i < b@.len(),
    ensures
        escape_at(b@, start as int, i as int) == match r {
            Ok((c, next)) => Ok((c, next as int)),
            Err(err) => Err((err.kind, err.pos as int)),
        },
        r matches Ok((c, _)) ==> c <= 0x10ffff,
{
    if b.len() - i <= 1 {
        return Err(unterminated(start));
    }
    let e = b[i + 1];
    if e == LOWER_U {
        match read_hex4(b, i + 2) {
            None => Err(DecodeError { kind: DecodeErrorKind::InvalidUnicodeEscape, pos: i }),
            Some(u) => {
                if 0xd800 <= u && u <= 0xdbff && b.len() - i > 7 && b[i + 6] == BACKSLASH
                    && b[i + 7] == LOWER_U {
                    match read_hex4(b, i + 8) {
                        None => Err(
                            DecodeError { kind: DecodeErrorKind::InvalidUnicodeEscape, pos: i + 6 },
                        ),
                        Some(u2) => {
                            if 0xdc00 <= u2 && u2 <= 0xdfff {
                                Ok((0x10000 + (u - 0xd800) * 0x400 + (u2 - 0xdc00), i + 12))
                            } else {
                                Ok((u, i + 6))
                            }
                        },
                    }
                } else {
                    Ok((u, i + 6))
                }
            },
        }
    } else {
        let c: Option<u32> = if e == QUOTE || e == BACKSLASH || e == SLASH {
            Some(e)
        } else if e == 0x62 {
            Some(0x08)
        } else if e == 0x66 {
            Some(0x0c)
        } else if e == 0x6e {
            Some(0x0a)
        } else if e == 0x72 {
            Some(0x0d)
        } else if e == 0x74 {
            Some(0x09)
        } else {
            None
        };
        match c {
            Some(c) => Ok((c, i + 2)),
            None => Err(DecodeError { kind: DecodeErrorKind::InvalidEscape(e), pos: i }),
        }
    }
}

/// Decodes the JSON string literal whose contents begin at `start`, just
/// after the opening quote. On success returns the decoded text and the
/// index just past the closing quote.
///
/// With `strict`, a raw control character below 0x20 is an error; without
/// it, such characters are kept as they are.
pub fn decode_string(b: &[u32], start: usize, strict: bool) -> (r: Result<(Vec<u32>, usize), DecodeError>)
    ensures
        decoded_view(r) == decode_spec(b@, start as int, strict),
        valid_text(b@) ==> (r matches Ok((t, _)) ==> valid_text(t@)),
{
    let mut out: Vec<u32> = Vec::new();
    let mut i: usize = start;
    if i >= b.len() {
        return Err(unterminated(start));
    }
    while i < b.len()
        invariant
            i <= b@.len(),
            decode_spec(b@, start as int, strict) == scan_from(b@, start as int, i as int, strict, out@),
            valid_text(b@) ==> valid_text(out@),
        decreases b@.len() - i,
    {
        let c = b[i];
        if c == QUOTE {
            return Ok((out, i + 1));
        }
        if c == BACKSLASH {
            proof {
                lemma_escape_advances(b@, start as int, i as int);
            }
            match decode_escape(b, start, i) {
                Err(e) => {
                    return Err(e);
                },
                Ok((u, next)) => {
                    out.push(u);
                    i = next;
                },
            }
        } else if strict && c < 0x20 {
            return Err(DecodeError { kind: DecodeErrorKind::InvalidControlCharacter, pos: i });
        } else {
            out.push(c);
            i = i + 1;
        }
    }
    Err(unterminated(start))
}

} // verus!
