//! Classification and decoding of the next JSON value in a buffer.

use vstd::prelude::*;
use crate::chars::QUOTE;
use crate::decode::{decode_spec, decode_string};
use crate::error::{DecodeError, DecodeErrorKind};
use crate::number::{number_spec, scan_number};

verus! {

pub const OPEN_BRACE: u32 = 0x7b;
pub const OPEN_BRACKET: u32 = 0x5b;

/// One of the non-standard constants.
#[derive(Clone, Copy, Debug, PartialEq, Eq, Structural)]
pub enum ExtConstant {
    NaN,
    Infinity,
    NegInfinity,
}

/// A scanned value. Objects and arrays are only opened: their members are
/// scanned by the caller, which calls back for each one.
#[derive(Debug)]
pub enum ValueToken {
    Str(Vec<u32>),
    /// The literal's text, verbatim, and whether it has a fraction or an exponent.
    Number(Vec<u32>, bool),
    Bool(bool),
    Null,
    Constant(ExtConstant),
    ObjectStart,
    ArrayStart,
}

/// What a token holds, with sequences in place of vectors.
pub enum TokenView {
    Str(Seq<u32>),
    Number(Seq<u32>, bool),
    Bool(bool),
    Null,
    Constant(ExtConstant),
    ObjectStart,
    ArrayStart,
}

impl View for ValueToken {
    type V = TokenView;

    open spec fn view(&self) -> TokenView {
        match self {
            ValueToken::Str(t) => TokenView::Str(t@),
            ValueToken::Number(t, f) => TokenView::Number(t@, *f),
            ValueToken::Bool(v) => TokenView::Bool(*v),
            ValueToken::Null => TokenView::Null,
            ValueToken::Constant(c) => TokenView::Constant(*c),
            ValueToken::ObjectStart => TokenView::ObjectStart,
            ValueToken::ArrayStart => TokenView::ArrayStart,
        }
    }
}

/// The result of scanning at a position: a token and the index just past
/// it, or no value there (the buffer ends, or nothing starts a value).
#[derive(Debug)]
pub enum ScanOutcome {
    Decoded(ValueToken, usize),
    NoMatch,
}

/// The outcome of scanning, on the mathematical side.
pub type Scanned = Result<Option<(TokenView, int)>, (DecodeErrorKind, int)>;

pub open spec fn scanned_view(r: Result<ScanOutcome, DecodeError>) -> Scanned {
    match r {
        Ok(ScanOutcome::Decoded(t, e)) => Ok(Some((t@, e as int))),
        Ok(ScanOutcome::NoMatch) => Ok(None),
        Err(err) => Err((err.kind, err.pos as int)),
    }
}

pub open spec fn lit_null() -> Seq<u32> {
    seq![0x6eu32, 0x75, 0x6c, 0x6c]
}

pub open spec fn lit_true() -> Seq<u32> {
    seq![0x74u32, 0x72, 0x75, 0x65]
}

pub open spec fn lit_false() -> Seq<u32> {
    seq![0x66u32, 0x61, 0x6c, 0x73, 0x65]
}

pub open spec fn lit_nan() -> Seq<u32> {
    seq![0x4eu32, 0x61, 0x4e]
}

pub open spec fn lit_infinity() -> Seq<u32> {
    seq![0x49u32, 0x6e, 0x66, 0x69, 0x6e, 0x69, 0x74, 0x79]
}

pub open spec fn lit_neg_infinity() -> Seq<u32> {
    seq![0x2du32] + lit_infinity()
}

/// `b` holds `lit` from index `i` on.
pub open spec fn has_literal(b: Seq<u32>, i: int, lit: Seq<u32>) -> bool {
    0 <= i && i + lit.len() <= b.len() && b.subrange(i, i + lit.len()) == lit
}

/// The value at `start`. Tried in order: end of buffer, string, object,
/// array, `null`, `true`, `false`, number, then `NaN`, `Infinity` and
/// `-Infinity`.
pub open spec fn scan_spec(b: Seq<u32>, start: int, strict: bool) -> Scanned {
    if start < 0 || start >= b.len() {
        Ok(None)
    } else if b[start] == QUOTE {
        match decode_spec(b, start + 1, strict) {
            Ok((t, e)) => Ok(Some((TokenView::Str(t), e))),
            Err(e) => Err(e),
        }
    } else if b[start] == OPEN_BRACE {
        Ok(Some((TokenView::ObjectStart, start + 1)))
    } else if b[start] == OPEN_BRACKET {
        Ok(Some((TokenView::ArrayStart, start + 1)))
    } else if has_literal(b, start, lit_null()) {
        Ok(Some((TokenView::Null, start + 4)))
    } else if has_literal(b, start, lit_true()) {
        Ok(Some((TokenView::Bool(true), start + 4)))
    } else if has_literal(b, start, lit_false()) {
        Ok(Some((TokenView::Bool(false), start + 5)))
    } else {
        match number_spec(b, start) {
            Some((end, is_float)) => Ok(
                Some((TokenView::Number(b.subrange(start, end), is_float), end)),
            ),
            None => if has_literal(b, start, lit_nan()) {
                Ok(Some((TokenView::Constant(ExtConstant::NaN), start + 3)))
            } else if has_literal(b, start, lit_infinity()) {
                Ok(Some((TokenView::Constant(ExtConstant::Infinity), start + 8)))
            } else if has_literal(b, start, lit_neg_infinity()) {
                Ok(Some((TokenView::Constant(ExtConstant::NegInfinity), start + 9)))
            } else {
                Ok(None)
            },
        }
    }
}

fn has_literal_at(b: &[u32], i: usize, lit: &Vec<u32>) -> (r: bool)
    ensures
        r == has_literal(b@, i as int, lit@),
{
    let n = b.len();
    if i > n || n - i < lit.len() {
        return false;
    }
    let mut k: usize = 0;
    while k < lit.len()
        invariant
            n == b@.len(),
            i + lit@.len() <= b@.len(),
            k <= lit@.len(),
            forall|j: int| 0 <= j < k ==> b@[i + j] == lit@[j],
        decreases lit@.len() - k,
    {
        if b[i + k] != lit[k] {
            assert(b@.subrange(i as int, i + lit@.len())[k as int] != lit@[k as int]);
            return false;
        }
        k = k + 1;
    }
    assert(b@.subrange(i as int, i + lit@.len()) =~= lit@);
    true
}

/// Scans the value that starts at `start`.
///
/// A string is decoded (`strict` as for `decode_string`), a number is
/// returned as its verbatim text, and an object or array only opened, with
/// the index just past the bracket. Where the buffer ends at `start`, or no
/// value starts there, the outcome is `NoMatch`.
pub fn scan_value(b: &[u32], start: usize, strict: bool) -> (r: Result<ScanOutcome, DecodeError>)
    ensures
        scanned_view(r) == scan_spec(b@, start as int, strict),
{
    let n = b.len();
    if start >= n {
        return Ok(ScanOutcome::NoMatch);
    }
    let c = b[start];
    if c == QUOTE {
        return match decode_string(b, start + 1, strict) {
            Ok((t, e)) => Ok(ScanOutcome::Decoded(ValueToken::Str(t), e)),
            Err(e) => Err(e),
        };
    }
    if c == OPEN_BRACE {
        return Ok(ScanOutcome::Decoded(ValueToken::ObjectStart, start + 1));
    }
    if c == OPEN_BRACKET {
        return Ok(ScanOutcome::Decoded(ValueToken::ArrayStart, start + 1));
    }
    let null_lit: Vec<u32> = vec![0x6e, 0x75, 0x6c, 0x6c];
    let true_lit: Vec<u32> = vec![0x74, 0x72, 0x75, 0x65];
    let false_lit: Vec<u32> = vec![0x66, 0x61, 0x6c, 0x73, 0x65];
    assert(null_lit@ == lit_null() && true_lit@ == lit_true() && false_lit@ == lit_false());
    if has_literal_at(b, start, &null_lit) {
        return Ok(ScanOutcome::Decoded(ValueToken::Null, start + 4));
    }
    if has_literal_at(b, start, &true_lit) {
        return Ok(ScanOutcome::Decoded(ValueToken::Bool(true), start + 4));
    }
    if has_literal_at(b, start, &false_lit) {
        return Ok(ScanOutcome::Decoded(ValueToken::Bool(false), start + 5));
    }
    if let Some((text, is_float)) = scan_number(b, start) {
        let end = start + text.len();
        return Ok(ScanOutcome::Decoded(ValueToken::Number(text, is_float), end));
    }
    let nan_lit: Vec<u32> = vec![0x4e, 0x61, 0x4e];
    let inf_lit: Vec<u32> = vec![0x49, 0x6e, 0x66, 0x69, 0x6e, 0x69, 0x74, 0x79];
    let neg_inf_lit: Vec<u32> = vec![0x2d, 0x49, 0x6e, 0x66, 0x69, 0x6e, 0x69, 0x74, 0x79];
    assert(nan_lit@ == lit_nan() && inf_lit@ == lit_infinity());
    assert(neg_inf_lit@ =~= lit_neg_infinity());
    if has_literal_at(b, start, &nan_lit) {
        return Ok(ScanOutcome::Decoded(ValueToken::Constant(ExtConstant::NaN), start + 3));
    }
    if has_literal_at(b, start, &inf_lit) {
        return Ok(ScanOutcome::Decoded(ValueToken::Constant(ExtConstant::Infinity), start + 8));
    }
    if has_literal_at(b, start, &neg_inf_lit) {
        return Ok(ScanOutcome::Decoded(ValueToken::Constant(ExtConstant::NegInfinity), start + 9));
    }
    Ok(ScanOutcome::NoMatch)
}

/// Why a call of the scanner failed.
#[derive(Clone, Copy, Debug, PartialEq, Eq, Structural)]
pub enum CallError {
    /// The index was negative.
    NegativeIndex,
    Decode(DecodeError),
}

/// Scans values on behalf of a decoder, with its choice of strictness for
/// string literals.
pub struct JsonScanner {
    pub strict: bool,
}

impl JsonScanner {
    pub fn new(strict: bool) -> (r: JsonScanner)
        ensures
            r.strict == strict,
    {
        JsonScanner { strict }
    }

    /// Scans the value at a caller-given index, which may be negative: that
    /// is refused; an index past the end gives `NoMatch`.
    pub fn call(&self, s: &[u32], idx: isize) -> (r: Result<ScanOutcome, CallError>)
        ensures
            idx < 0 ==> r == Err::<ScanOutcome, CallError>(CallError::NegativeIndex),
            idx >= 0 ==> match r {
                Ok(o) => scanned_view(Ok(o)) == scan_spec(s@, idx as int, self.strict),
                Err(CallError::Decode(e)) => scanned_view(Err(e)) == scan_spec(s@, idx as int, self.strict),
                Err(CallError::NegativeIndex) => false,
            },
    {
        if idx < 0 {
            return Err(CallError::NegativeIndex);
        }
        match self.parse(s, idx as usize) {
            Ok(o) => Ok(o),
            Err(e) => Err(CallError::Decode(e)),
        }
    }

    /// Scans the value that starts at `idx`, as `scan_value` does.
    pub fn parse(&self, s: &[u32], idx: usize) -> (r: Result<ScanOutcome, DecodeError>)
        ensures
            scanned_view(r) == scan_spec(s@, idx as int, self.strict),
    {
        scan_value(s, idx, self.strict)
    }
}

} // verus!
