//! Encoding of text as a JSON string literal.

use vstd::prelude::*;
use crate::chars::{hex_digit, hex_digit_of, BACKSLASH, LOWER_U, QUOTE};

verus! {

/// Every element is a code point (surrogates included).
pub open spec fn valid_text(s: Seq<u32>) -> bool {
    forall|i: int| 0 <= i < s.len() ==> s[i] <= 0x10ffff
}

/// `\uXXXX` with four lowercase hexadecimal digits of `u`.
pub open spec fn hex_escape(u: u32) -> Seq<u32> {
    seq![
        BACKSLASH,
        LOWER_U,
        hex_digit((u / 4096 % 16) as u32),
        hex_digit((u / 256 % 16) as u32),
        hex_digit((u / 16 % 16) as u32),
        hex_digit((u % 16) as u32),
    ]
}

/// The letter of the two-character escape of `c`, where `c` has one.
pub open spec fn short_escape(c: u32) -> Option<u32> {
    if c == QUOTE {
        Some(QUOTE)
    } else if c == BACKSLASH {
        Some(BACKSLASH)
    } else if c == 0x08 {
        Some(0x62u32)
    } else if c == 0x0c {
        Some(0x66u32)
    } else if c == 0x0a {
        Some(0x6eu32)
    } else if c == 0x0d {
        Some(0x72u32)
    } else if c == 0x09 {
        Some(0x74u32)
    } else {
        None
    }
}

/// High half of the UTF-16 surrogate pair of a supplementary code point.
pub open spec fn lead_of(c: u32) -> u32 {
    (0xd800 + (c - 0x10000) / 0x400) as u32
}

/// Low half of the UTF-16 surrogate pair of a supplementary code point.
pub open spec fn trail_of(c: u32) -> u32 {
    (0xdc00 + (c - 0x10000) % 0x400) as u32
}

/// What one code point of the text becomes inside the literal.
pub open spec fn encode_code_point(c: u32, ascii_only: bool) -> Seq<u32> {
    match short_escape(c) {
        Some(e) => seq![BACKSLASH, e],
        None => if c < 0x20 {
            hex_escape(c)
        } else if ascii_only && c >= 0x80 {
            if c <= 0xffff {
                hex_escape(c)
            } else {
                hex_escape(lead_of(c)) + hex_escape(trail_of(c))
            }
        } else {
            seq![c]
        },
    }
}

/// The literal's contents: each code point of `s` encoded in turn.
pub open spec fn encode_body(s: Seq<u32>, ascii_only: bool) -> Seq<u32>
    decreases s.len(),
{
    if s.len() == 0 {
        seq![]
    } else {
        encode_body(s.drop_last(), ascii_only) + encode_code_point(s.last(), ascii_only)
    }
}

/// The full JSON string literal for `s`, quotes included.
pub open spec fn encoded(s: Seq<u32>, ascii_only: bool) -> Seq<u32> {
    seq![QUOTE] + encode_body(s, ascii_only) + seq![QUOTE]
}

fn push_hex_escape(out: &mut Vec<u32>, u: u32)
    requires
        u <= 0xffff,
    ensures
        final(out)@ == old(out)@ + hex_escape(u),
{
    out.push(BACKSLASH);
    out.push(LOWER_U);
    out.push(hex_digit_of(u / 4096 % 16));
    out.push(hex_digit_of(u / 256 % 16));
    out.push(hex_digit_of(u / 16 % 16));
    out.push(hex_digit_of(u % 16));
    assert(final(out)@ =~= old(out)@ + hex_escape(u));
}

fn push_encoded_code_point(out: &mut Vec<u32>, c: u32, ascii_only: bool)
    requires
        c <= 0x10ffff,
    ensures
        final(out)@ == old(out)@ + encode_code_point(c, ascii_only),
{
    let short: Option<u32> = if c == QUOTE {
        Some(QUOTE)
    } else if c == BACKSLASH {
        Some(BACKSLASH)
    } else if c == 0x08 {
        Some(0x62)
    } else if c == 0x0c {
        Some(0x66)
    } else if c == 0x0a {
        Some(0x6e)
    } else if c == 0x0d {
        Some(0x72)
    } else if c == 0x09 {
        Some(0x74)
    } else {
        None
    };
    assert(short == short_escape(c));
    match short {
        Some(e) => {
            out.push(BACKSLASH);
            out.push(e);
            assert(final(out)@ =~= old(out)@ + seq![BACKSLASH, e]);
        },
        None => {
            if c < 0x20 {
                push_hex_escape(out, c);
            } else if ascii_only && c >= 0x80 {
                if c <= 0xffff {
                    push_hex_escape(out, c);
                } else {
                    let v = c - 0x10000;
                    push_hex_escape(out, 0xd800 + v / 0x400);
                    push_hex_escape(out, 0xdc00 + v % 0x400);
                    assert(final(out)@ =~= old(out)@ + (hex_escape(lead_of(c)) + hex_escape(
                        trail_of(c),
                    )));
                }
            } else {
                out.push(c);
                assert(final(out)@ =~= old(out)@ + seq![c]);
            }
        },
    }
}

/// Encodes `s` as a JSON string literal, quotes included.
///
/// `"`, `\` and control characters below 0x20 are always escaped. With
/// `ascii_only`, every code point from 0x80 up is escaped too, those above
/// 0xFFFF as a surrogate pair of `\uXXXX` escapes; a lone surrogate in `s`
/// becomes its own escape.
pub fn encode_string(s: &[u32], ascii_only: bool) -> (r: Vec<u32>)
    requires
        valid_text(s@),
    ensures
        r@ == encoded(s@, ascii_only),
{
    let mut out: Vec<u32> = Vec::new();
    out.push(QUOTE);
    let mut i: usize = 0;
    while i < s.len()
        invariant
            i <= s@.len(),
            valid_text(s@),
            out@ == seq![QUOTE] + encode_body(s@.take(i as int), ascii_only),
        decreases s@.len() - i,
    {
        let c = s[i];
        push_encoded_code_point(&mut out, c, ascii_only);
        proof {
            let t = s@.take(i as int + 1);
            assert(t.drop_last() =~= s@.take(i as int));
            assert(t.last() == c);
        }
        i = i + 1;
    }
    assert(s@.take(i as int) =~= s@);
    out.push(QUOTE);
    out
}

/// Encodes `s` as a JSON string literal, leaving non-ASCII code points as
/// they are.
pub fn encode_basestring(s: &[u32]) -> (r: Vec<u32>)
    requires
        valid_text(s@),
    ensures
        r@ == encoded(s@, false),
{
    encode_string(s, false)
}

/// Encodes `s` as a JSON string literal made of ASCII code points only.
pub fn encode_basestring_ascii(s: &[u32]) -> (r: Vec<u32>)
    requires
        valid_text(s@),
    ensures
        r@ == encoded(s@, true),
{
    encode_string(s, true)
}

} // verus!
