//! Code-point constants and small classifications shared by the scanner
//! and the codec.

use vstd::prelude::*;

verus! {

pub const QUOTE: u32 = 0x22;
pub const BACKSLASH: u32 = 0x5c;
pub const SLASH: u32 = 0x2f;
pub const LOWER_U: u32 = 0x75;

/// A decimal digit `0`..`9`.
pub open spec fn is_digit(c: u32) -> bool {
    0x30 <= c <= 0x39
}

/// The value of a hexadecimal digit (`0-9`, `a-f`, `A-F`), if `c` is one.
pub open spec fn hex_value(c: u32) -> Option<u32> {
    if 0x30 <= c <= 0x39 {
        Some((c - 0x30) as u32)
    } else if 0x61 <= c <= 0x66 {
        Some((c - 0x61 + 10) as u32)
    } else if 0x41 <= c <= 0x46 {
        Some((c - 0x41 + 10) as u32)
    } else {
        None
    }
}

/// The lowercase hexadecimal digit for `d < 16`.
pub open spec fn hex_digit(d: u32) -> u32 {
    if d < 10 {
        (0x30 + d) as u32
    } else {
        (0x61 + d - 10) as u32
    }
}

pub open spec fn is_lead_surrogate(u: u32) -> bool {
    0xd800 <= u <= 0xdbff
}

pub open spec fn is_trail_surrogate(u: u32) -> bool {
    0xdc00 <= u <= 0xdfff
}

/// The supplementary code point that a surrogate pair stands for.
pub open spec fn combine_surrogates(lead: u32, trail: u32) -> u32 {
    (0x10000 + (lead - 0xd800) * 0x400 + (trail - 0xdc00)) as u32
}

pub fn hex_value_of(c: u32) -> (r: Option<u32>)
    ensures
        r == hex_value(c),
{
    if 0x30 <= c && c <= 0x39 {
        Some(c - 0x30)
    } else if 0x61 <= c && c <= 0x66 {
        Some(c - 0x61 + 10)
    } else if 0x41 <= c && c <= 0x46 {
        Some(c - 0x41 + 10)
    } else {
        None
    }
}

pub fn hex_digit_of(d: u32) -> (r: u32)
    requires
        d < 16,
    ensures
        r == hex_digit(d),
{
    if d < 10 {
        0x30 + d
    } else {
        0x61 + d - 10
    }
}

/// The code points `b[from..to]`.
pub fn copy_range(b: &[u32], from: usize, to: usize) -> (r: Vec<u32>)
    requires
        from <= to <= b@.len(),
    ensures
        r@ == b@.subrange(from as int, to as int),
{
    let mut out: Vec<u32> = Vec::new();
    let mut k: usize = from;
    while k < to
        invariant
            from <= k <= to <= b@.len(),
            out@ == b@.subrange(from as int, k as int),
        decreases to - k,
    {
        out.push(b[k]);
        k = k + 1;
        assert(out@ =~= b@.subrange(from as int, k as int));
    }
    out
}

} // verus!
