//! Laws that relate encoding and decoding.

use vstd::prelude::*;
use crate::chars::{
    combine_surrogates, hex_digit, hex_value, is_lead_surrogate, is_trail_surrogate, BACKSLASH,
    LOWER_U, QUOTE,
};
use crate::decode::{decode_spec, escape_at, hex4, scan_from, unescape};
use crate::encode::{
    encode_body, encode_code_point, encoded, hex_escape, lead_of, short_escape, trail_of,
    valid_text,
};
use crate::error::DecodeErrorKind;

verus! {

proof fn lemma_hex_digit_value(d: u32)
    requires
        d < 16,
    ensures
        hex_value(hex_digit(d)) == Some(d),
{
}

/// The four digits of a `\uXXXX` escape read back as the value written.
proof fn lemma_hex4_of_escape(b: Seq<u32>, i: int, u: u32)
    requires
        u <= 0xffff,
        0 <= i,
        i + 6 <= b.len(),
        b.subrange(i, i + 6) == hex_escape(u),
    ensures
        b[i] == BACKSLASH,
        b[i + 1] == LOWER_U,
        hex4(b, i + 2) == Some(u),
{
    let e = hex_escape(u);
    assert(b[i] == b.subrange(i, i + 6)[0]);
    assert(b[i + 1] == b.subrange(i, i + 6)[1]);
    assert(b[i + 2] == e[2]);
    assert(b[i + 3] == e[3]);
    assert(b[i + 4] == e[4]);
    assert(b[i + 5] == e[5]);
    lemma_hex_digit_value((u / 4096 % 16) as u32);
    lemma_hex_digit_value((u / 256 % 16) as u32);
    lemma_hex_digit_value((u / 16 % 16) as u32);
    lemma_hex_digit_value((u % 16) as u32);
    assert((u / 4096 % 16) * 4096 + (u / 256 % 16) * 256 + (u / 16 % 16) * 16 + u % 16 == u)
        by (nonlinear_arith)
        requires
            u <= 0xffff,
    ;
}

/// No element is a UTF-16 surrogate.
pub open spec fn no_surrogates(s: Seq<u32>) -> bool {
    forall|i: int| 0 <= i < s.len() ==> !(0xd800 <= #[trigger] s[i] <= 0xdfff)
}

/// Decoding the encoding of one code point yields that code point.
proof fn lemma_decode_one(b: Seq<u32>, start: int, i: int, acc: Seq<u32>, c: u32, ascii_only: bool)
    requires
        0 <= i,
        c <= 0x10ffff,
        !(0xd800 <= c <= 0xdfff),
        i + encode_code_point(c, ascii_only).len() <= b.len(),
        b.subrange(i, i + encode_code_point(c, ascii_only).len()) == encode_code_point(c, ascii_only),
    ensures
        scan_from(b, start, i, true, acc) == scan_from(
            b,
            start,
            i + encode_code_point(c, ascii_only).len(),
            true,
            acc.push(c),
        ),
{
    let e = encode_code_point(c, ascii_only);
    let k = e.len() as int;
    assert(b[i] == b.subrange(i, i + k)[0]);
    match short_escape(c) {
        Some(x) => {
            assert(b[i + 1] == b.subrange(i, i + k)[1]);
            assert(unescape(x) == Some(c));
            assert(escape_at(b, start, i) == Ok::<(u32, int), (DecodeErrorKind, int)>((c, i + 2)));
        },
        None => {
            if c < 0x20 || (ascii_only && 0x80 <= c <= 0xffff) {
                lemma_hex4_of_escape(b, i, c);
                assert(escape_at(b, start, i) == Ok::<(u32, int), (DecodeErrorKind, int)>((c, i + 6)));
            } else if ascii_only && c >= 0x80 {
                let l = lead_of(c);
                let t = trail_of(c);
                assert(b.subrange(i, i + 6) =~= b.subrange(i, i + 12).subrange(0, 6));
                assert(b.subrange(i + 6, i + 12) =~= b.subrange(i, i + 12).subrange(6, 12));
                assert(e.subrange(0, 6) =~= hex_escape(l));
                assert(e.subrange(6, 12) =~= hex_escape(t));
                lemma_hex4_of_escape(b, i, l);
                lemma_hex4_of_escape(b, i + 6, t);
                assert(is_lead_surrogate(l));
                assert(is_trail_surrogate(t));
                assert(combine_surrogates(l, t) == c);
                assert(escape_at(b, start, i) == Ok::<(u32, int), (DecodeErrorKind, int)>((c, i + 12)));
            } else {
                assert(b[i] == c);
            }
        },
    }
}

proof fn lemma_encode_body_concat(a: Seq<u32>, b: Seq<u32>, ascii_only: bool)
    ensures
        encode_body(a + b, ascii_only) == encode_body(a, ascii_only) + encode_body(b, ascii_only),
    decreases b.len(),
{
    if b.len() == 0 {
        assert(a + b =~= a);
        assert(encode_body(a, ascii_only) + encode_body(b, ascii_only) =~= encode_body(a, ascii_only));
    } else {
        lemma_encode_body_concat(a, b.drop_last(), ascii_only);
        assert((a + b).drop_last() =~= a + b.drop_last());
        assert((a + b).last() == b.last());
        assert(encode_body(a + b, ascii_only) =~= encode_body(a, ascii_only) + encode_body(b, ascii_only));
    }
}

/// Decoding, from `i`, the encoded contents of `s` followed by a closing
/// quote yields `s` after what was decoded before.
proof fn lemma_decode_body(b: Seq<u32>, start: int, i: int, acc: Seq<u32>, s: Seq<u32>, ascii_only: bool)
    requires
        0 <= i,
        valid_text(s),
        no_surrogates(s),
        i + encode_body(s, ascii_only).len() < b.len(),
        b.subrange(i, i + encode_body(s, ascii_only).len()) == encode_body(s, ascii_only),
        b[i + encode_body(s, ascii_only).len()] == QUOTE,
    ensures
        scan_from(b, start, i, true, acc) == Ok::<(Seq<u32>, int), (DecodeErrorKind, int)>(
            (acc + s, i + encode_body(s, ascii_only).len() + 1),
        ),
    decreases s.len(),
{
    if s.len() == 0 {
        assert(acc + s =~= acc);
    } else {
        let c = s[0];
        let r = s.drop_first();
        assert(s =~= seq![c] + r);
        lemma_encode_body_concat(seq![c], r, ascii_only);
        assert(seq![c].drop_last() =~= Seq::<u32>::empty());
        assert(seq![c].last() == c);
        assert(encode_body(seq![c].drop_last(), ascii_only) =~= Seq::<u32>::empty());
        assert(encode_body(seq![c], ascii_only) =~= encode_code_point(c, ascii_only));
        let k = encode_code_point(c, ascii_only).len() as int;
        let n = encode_body(s, ascii_only).len() as int;
        let ec = encode_code_point(c, ascii_only);
        let er = encode_body(r, ascii_only);
        assert(encode_body(s, ascii_only) == ec + er);
        assert((ec + er).subrange(0, k) =~= ec);
        assert((ec + er).subrange(k, n) =~= er);
        assert(b.subrange(i, i + k) =~= b.subrange(i, i + n).subrange(0, k));
        assert(b.subrange(i + k, i + n) =~= b.subrange(i, i + n).subrange(k, n));
        assert(!(0xd800 <= s[0] <= 0xdfff));
        lemma_decode_one(b, start, i, acc, c, ascii_only);
        assert forall|j: int| 0 <= j < r.len() implies r[j] <= 0x10ffff && !(0xd800 <= #[trigger] r[j] <= 0xdfff) by {
            assert(r[j] == s[j + 1]);
        }
        lemma_decode_body(b, start, i + k, acc.push(c), r, ascii_only);
        assert(acc.push(c) + r =~= acc + s);
    }
}

/// Decoding, in strict mode, the literal that encoding gives for a text
/// without surrogates yields that text back, and ends just past the literal.
/// This holds with and without `ascii_only`.
pub proof fn lemma_round_trip(s: Seq<u32>, ascii_only: bool)
    requires
        valid_text(s),
        no_surrogates(s),
    ensures
        decode_spec(encoded(s, ascii_only), 1, true) == Ok::<(Seq<u32>, int), (DecodeErrorKind, int)>(
            (s, encoded(s, ascii_only).len() as int),
        ),
{
    let body = encode_body(s, ascii_only);
    let b = encoded(s, ascii_only);
    let n = body.len() as int;
    assert(b.subrange(1, 1 + n) =~= body);
    assert(b[1 + n] == QUOTE);
    lemma_decode_body(b, 1, 1, seq![], s, ascii_only);
    assert(Seq::<u32>::empty() + s =~= s);
}

/// Every element lies in the ASCII range from space up: what the contents of
/// an ASCII-only literal are made of.
pub open spec fn ascii_text(t: Seq<u32>) -> bool {
    forall|j: int| 0 <= j < t.len() ==> 0x20 <= #[trigger] t[j] < 0x80
}

/// `t` with a backslash put before each quote and each backslash.
pub open spec fn escape_specials(t: Seq<u32>) -> Seq<u32>
    decreases t.len(),
{
    if t.len() == 0 {
        seq![]
    } else {
        escape_specials(t.drop_last()) + if t.last() == QUOTE || t.last() == BACKSLASH {
            seq![BACKSLASH, t.last()]
        } else {
            seq![t.last()]
        }
    }
}

proof fn lemma_hex_escape_ascii(u: u32)
    ensures
        ascii_text(hex_escape(u)),
{
    let e = hex_escape(u);
    assert forall|j: int| 0 <= j < e.len() implies 0x20 <= #[trigger] e[j] < 0x80 by {
        if j >= 2 {
            assert(e[j] == hex_digit((u / 4096 % 16) as u32) || e[j] == hex_digit(
                (u / 256 % 16) as u32,
            ) || e[j] == hex_digit((u / 16 % 16) as u32) || e[j] == hex_digit((u % 16) as u32));
        }
    }
}

proof fn lemma_encode_code_point_ascii(c: u32)
    requires
        c <= 0x10ffff,
    ensures
        ascii_text(encode_code_point(c, true)),
{
    match short_escape(c) {
        Some(x) => {
            assert(ascii_text(seq![BACKSLASH, x]));
        },
        None => {
            if c < 0x20 || (0x80 <= c <= 0xffff) {
                lemma_hex_escape_ascii(c);
            } else if c >= 0x80 {
                lemma_hex_escape_ascii(lead_of(c));
                lemma_hex_escape_ascii(trail_of(c));
                let e = hex_escape(lead_of(c)) + hex_escape(trail_of(c));
                assert forall|j: int| 0 <= j < e.len() implies 0x20 <= #[trigger] e[j] < 0x80 by {
                    if j < 6 {
                        assert(e[j] == hex_escape(lead_of(c))[j]);
                    } else {
                        assert(e[j] == hex_escape(trail_of(c))[j - 6]);
                    }
                }
            } else {
                assert(ascii_text(seq![c]));
            }
        },
    }
}

proof fn lemma_encode_body_ascii(s: Seq<u32>)
    requires
        valid_text(s),
    ensures
        ascii_text(encode_body(s, true)),
    decreases s.len(),
{
    if s.len() > 0 {
        let a = encode_body(s.drop_last(), true);
        let e = encode_code_point(s.last(), true);
        lemma_encode_body_ascii(s.drop_last());
        lemma_encode_code_point_ascii(s.last());
        assert forall|j: int| 0 <= j < (a + e).len() implies 0x20 <= #[trigger] (a + e)[j] < 0x80 by {
            if j < a.len() {
                assert((a + e)[j] == a[j]);
            } else {
                assert((a + e)[j] == e[j - a.len()]);
            }
        }
    }
}

proof fn lemma_encode_ascii_text(t: Seq<u32>)
    requires
        ascii_text(t),
    ensures
        encode_body(t, true) == escape_specials(t),
    decreases t.len(),
{
    if t.len() > 0 {
        lemma_encode_ascii_text(t.drop_last());
        assert(0x20 <= t[t.len() - 1] < 0x80);
    }
}

/// Encoding with `ascii_only` gives contents made of ASCII from space up, and
/// encoding those contents again with `ascii_only` only escapes their quotes
/// and backslashes.
pub proof fn lemma_reencode_ascii(s: Seq<u32>)
    requires
        valid_text(s),
    ensures
        ascii_text(encode_body(s, true)),
        encode_body(encode_body(s, true), true) == escape_specials(encode_body(s, true)),
{
    lemma_encode_body_ascii(s);
    lemma_encode_ascii_text(encode_body(s, true));
}

/// No quote or backslash, and, with `strict`, no control character: a run
/// that decoding copies as it is.
pub open spec fn plain_run(t: Seq<u32>, strict: bool) -> bool {
    forall|j: int|
        0 <= j < t.len() ==> #[trigger] t[j] != QUOTE && t[j] != BACKSLASH && !(strict && t[j] < 0x20)
}

proof fn lemma_scan_plain(b: Seq<u32>, start: int, i: int, j: int, strict: bool, acc: Seq<u32>)
    requires
        0 <= i <= j <= b.len(),
        plain_run(b.subrange(i, j), strict),
    ensures
        scan_from(b, start, i, strict, acc) == scan_from(b, start, j, strict, acc + b.subrange(i, j)),
    decreases j - i,
{
    if i == j {
        assert(acc + b.subrange(i, j) =~= acc);
    } else {
        assert(b[i] == b.subrange(i, j)[0]);
        assert forall|k: int| 0 <= k < b.subrange(i + 1, j).len() implies #[trigger] b.subrange(
            i + 1,
            j,
        )[k] != QUOTE && b.subrange(i + 1, j)[k] != BACKSLASH && !(strict && b.subrange(i + 1, j)[k]
            < 0x20) by {
            assert(b.subrange(i + 1, j)[k] == b.subrange(i, j)[k + 1]);
        }
        lemma_scan_plain(b, start, i + 1, j, strict, acc.push(b[i]));
        assert(acc.push(b[i]) + b.subrange(i + 1, j) =~= acc + b.subrange(i, j));
    }
}

/// A raw control character inside a literal: strict decoding fails at its
/// position, lenient decoding keeps it as it is.
pub proof fn lemma_control_character(p: Seq<u32>, c: u32, q: Seq<u32>)
    requires
        c < 0x20,
        plain_run(p, true),
        plain_run(q, false),
    ensures
        decode_spec(seq![QUOTE] + p + seq![c] + q + seq![QUOTE], 1, true) == Err::<
            (Seq<u32>, int),
            (DecodeErrorKind, int),
        >((DecodeErrorKind::InvalidControlCharacter, 1 + p.len() as int)),
        decode_spec(seq![QUOTE] + p + seq![c] + q + seq![QUOTE], 1, false) == Ok::<
            (Seq<u32>, int),
            (DecodeErrorKind, int),
        >((p + seq![c] + q, p.len() + q.len() + 3 as int)),
{
    let b = seq![QUOTE] + p + seq![c] + q + seq![QUOTE];
    let m = 1 + p.len() as int;
    let n = m + 1 + q.len() as int;
    assert(b.subrange(1, m) =~= p);
    assert(b[m] == c);
    assert(b.subrange(m + 1, n) =~= q);
    assert(b[n] == QUOTE);
    lemma_scan_plain(b, 1, 1, m, true, seq![]);
    assert(plain_run(p, false));
    lemma_scan_plain(b, 1, 1, m, false, seq![]);
    let acc = Seq::<u32>::empty() + p;
    lemma_scan_plain(b, 1, m + 1, n, false, acc.push(c));
    assert(acc.push(c) + q =~= p + seq![c] + q);
}

} // verus!
