//! Conversion of an integer-form numeric literal to an arbitrary-precision
//! integer.

use vstd::prelude::*;
use crate::chars::is_digit;
use crate::number::MINUS;

verus! {

#[verifier::external_type_specification]
#[verifier::external_body]
pub struct ExBigInt(malachite_bigint::BigInt);

#[verifier::external_type_specification]
#[verifier::external_body]
pub struct ExParseBigIntError(malachite_bigint::ParseBigIntError);

/// An optional minus followed by one or more decimal digits.
pub open spec fn is_int_literal(t: Seq<u32>) -> bool {
    let d = if t.len() > 0 && t[0] == MINUS {
        1int
    } else {
        0int
    };
    d < t.len() && forall|k: int| d <= k < t.len() ==> is_digit(#[trigger] t[k])
}

/// The integer that `BigInt`'s `FromStr` gives for a text; it depends on the
/// text alone.
pub uninterp spec fn bigint_of(t: Seq<u32>) -> malachite_bigint::BigInt;

/// Relies on `FromStr` for `malachite_bigint::BigInt` (through `Num::from_str_radix`
/// with radix 10): an optional `-` followed by decimal digits is accepted,
/// and the integer parsed depends on the text alone.
#[verifier::external_body]
fn parse_bigint(text: &[u32]) -> (r: Result<malachite_bigint::BigInt, malachite_bigint::ParseBigIntError>)
    ensures
        is_int_literal(text@) ==> r is Ok,
        r matches Ok(v) ==> v == bigint_of(text@),
{
    let s: String = text.iter().map(|&c| char::from_u32(c).unwrap_or(char::REPLACEMENT_CHARACTER)).collect();
    <malachite_bigint::BigInt as std::str::FromStr>::from_str(&s)
}

fn check_int_literal(text: &[u32]) -> (r: bool)
    ensures
        r == is_int_literal(text@),
{
    let n = text.len();
    let d: usize = if n > 0 && text[0] == MINUS {
        1
    } else {
        0
    };
    if d >= n {
        return false;
    }
    let mut k: usize = d;
    while k < n
        invariant
            n == text@.len(),
            d <= k <= n,
            d as int == (if text@.len() > 0 && text@[0] == MINUS {
                1int
            } else {
                0int
            }),
            forall|j: int| d <= j < k ==> is_digit(#[trigger] text@[j]),
        decreases n - k,
    {
        if !(0x30 <= text[k] && text[k] <= 0x39) {
            assert(!is_digit(text@[k as int]));
            return false;
        }
        k = k + 1;
    }
    true
}

/// The integer that `text` denotes, where it is an integer-form literal (an
/// optional minus and decimal digits, as `scan_number` gives for a number
/// without fraction or exponent); `None` for any other text.
pub fn int_value(text: &[u32]) -> (r: Option<malachite_bigint::BigInt>)
    ensures
        r is Some <==> is_int_literal(text@),
        r matches Some(v) ==> v == bigint_of(text@),
{
    if !check_int_literal(text) {
        return None;
    }
    match parse_bigint(text) {
        Ok(v) => Some(v),
        Err(_) => None,
    }
}

} // verus!
