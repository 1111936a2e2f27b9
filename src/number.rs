//! Recognition of the longest numeric literal at a position.

use vstd::prelude::*;
use crate::chars::{copy_range, is_digit};
use crate::integer::is_int_literal;

verus! {

pub const MINUS: u32 = 0x2d;
pub const PLUS: u32 = 0x2b;
pub const DOT: u32 = 0x2e;

/// The first index from `i` on that does not hold a decimal digit.
pub open spec fn digits_end(b: Seq<u32>, i: int) -> int
    decreases b.len() - i,
{
    if 0 <= i < b.len() && is_digit(b[i]) {
        digits_end(b, i + 1)
    } else {
        i
    }
}

/// Where the digits of the integer part begin: past a leading minus.
pub open spec fn int_begin(b: Seq<u32>, start: int) -> int {
    if 0 <= start < b.len() && b[start] == MINUS {
        start + 1
    } else {
        start
    }
}

/// End of the fraction that may follow the integer part ending at `q`:
/// a dot counts only with at least one digit after it.
pub open spec fn frac_end(b: Seq<u32>, q: int) -> int {
    if 0 <= q < b.len() && b[q] == DOT && digits_end(b, q + 1) > q + 1 {
        digits_end(b, q + 1)
    } else {
        q
    }
}

pub open spec fn is_exp_marker(c: u32) -> bool {
    c == 0x65 || c == 0x45
}

/// Where the digits of an exponent whose marker stands at `f` begin.
pub open spec fn exp_digits_begin(b: Seq<u32>, f: int) -> int {
    if 0 <= f + 1 < b.len() && (b[f + 1] == PLUS || b[f + 1] == MINUS) {
        f + 2
    } else {
        f + 1
    }
}

/// End of the exponent that may follow at `f`: a marker counts only with at
/// least one digit after it (and its optional sign).
pub open spec fn exp_end(b: Seq<u32>, f: int) -> int {
    if 0 <= f < b.len() && is_exp_marker(b[f]) && digits_end(b, exp_digits_begin(b, f))
        > exp_digits_begin(b, f) {
        digits_end(b, exp_digits_begin(b, f))
    } else {
        f
    }
}

/// The longest numeric literal at `start`: its end, and whether it has a
/// fraction or an exponent. `None` where no digit follows the optional minus.
pub open spec fn number_spec(b: Seq<u32>, start: int) -> Option<(int, bool)> {
    let q = digits_end(b, int_begin(b, start));
    if q == int_begin(b, start) {
        None
    } else {
        let x = exp_end(b, frac_end(b, q));
        Some((x, x > q))
    }
}

fn skip_digits(b: &[u32], i: usize) -> (r: usize)
    requires
        i <= b@.len(),
    ensures
        r as int == digits_end(b@, i as int),
        i <= r <= b@.len(),
        forall|k: int| i <= k < r ==> is_digit(#[trigger] b@[k]),
{
    let mut j: usize = i;
    while j < b.len() && 0x30 <= b[j] && b[j] <= 0x39
        invariant
            i <= j <= b@.len(),
            digits_end(b@, i as int) == digits_end(b@, j as int),
            forall|k: int| i <= k < j ==> is_digit(#[trigger] b@[k]),
        decreases b@.len() - j,
    {
        j = j + 1;
    }
    j
}

/// Finds the longest numeric literal at `start`: an optional minus, digits,
/// an optional dot with digits, an optional `e`/`E` with an optional sign and
/// digits. Returns its text, verbatim, and whether it has a fraction or an
/// exponent; `None` where there is no digit after the optional minus.
pub fn scan_number(b: &[u32], start: usize) -> (r: Option<(Vec<u32>, bool)>)
    ensures
        match number_spec(b@, start as int) {
            None => r is None,
            Some((end, is_float)) => r matches Some((text, f)) && f == is_float
                && start <= end <= b@.len() && text@ == b@.subrange(start as int, end),
        },
        r matches Some((text, false)) ==> is_int_literal(text@),
{
    let n = b.len();
    if start >= n {
        return None;
    }
    let p = if b[start] == MINUS {
        start + 1
    } else {
        start
    };
    let q = skip_digits(b, p);
    if q == p {
        return None;
    }
    let f = if q < n && b[q] == DOT {
        let d = skip_digits(b, q + 1);
        if d > q + 1 {
            d
        } else {
            q
        }
    } else {
        q
    };
    let x = if f < n && (b[f] == 0x65 || b[f] == 0x45) {
        let e = if f + 1 < n && (b[f + 1] == PLUS || b[f + 1] == MINUS) {
            f + 2
        } else {
            f + 1
        };
        let d = skip_digits(b, e);
        if d > e {
            d
        } else {
            f
        }
    } else {
        f
    };
    let text = copy_range(b, start, x);
    proof {
        if x == q {
            assert forall|k: int| (p - start) <= k < text@.len() implies is_digit(#[trigger] text@[k]) by {
                assert(text@[k] == b@[start + k]);
            }
        }
    }
    Some((text, x > q))
}

} // verus!
