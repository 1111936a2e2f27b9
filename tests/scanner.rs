use json_scan::cstr::{ensure_no_nul, EmbeddedNulError};
use json_scan::decode::decode_string;
use json_scan::encode::{encode_basestring, encode_basestring_ascii, encode_string};
use json_scan::integer::int_value;
use malachite_bigint::BigInt;
use json_scan::error::{py_decode_error, DecodeError, DecodeErrorKind};
use json_scan::number::scan_number;
use json_scan::repr::collection_repr;
use json_scan::scan::{scan_value, CallError, ExtConstant, JsonScanner, ScanOutcome, ValueToken};

fn cps(s: &str) -> Vec<u32> {
    s.chars().map(|c| c as u32).collect()
}

fn decoded(b: &[u32], start: usize, strict: bool) -> (Vec<u32>, usize) {
    match decode_string(b, start, strict) {
        Ok(r) => r,
        Err(e) => panic!("unexpected error {:?}", e),
    }
}

fn decode_err(b: &[u32], start: usize, strict: bool) -> DecodeError {
    match decode_string(b, start, strict) {
        Ok(r) => panic!("unexpected success {:?}", r),
        Err(e) => e,
    }
}

#[test]
fn number_stops_at_second_dot() {
    let b = cps("1.2.3");
    assert_eq!(scan_number(&b, 0), Some((cps("1.2"), true)));
}

#[test]
fn lone_minus_is_no_number() {
    assert_eq!(scan_number(&cps("-"), 0), None);
    assert_eq!(scan_number(&cps(""), 0), None);
    assert_eq!(scan_number(&cps("-x"), 0), None);
}

#[test]
fn exponent_needs_digits() {
    assert_eq!(scan_number(&cps("1e"), 0), Some((cps("1"), false)));
    assert_eq!(scan_number(&cps("1e+"), 0), Some((cps("1"), false)));
    assert_eq!(scan_number(&cps("1.e5"), 0), Some((cps("1"), false)));
    assert_eq!(scan_number(&cps("1.5e"), 0), Some((cps("1.5"), true)));
}

#[test]
fn number_forms() {
    assert_eq!(scan_number(&cps("-12,"), 0), Some((cps("-12"), false)));
    assert_eq!(scan_number(&cps("1E+5x"), 0), Some((cps("1E+5"), true)));
    assert_eq!(scan_number(&cps("2e-3]"), 0), Some((cps("2e-3"), true)));
    assert_eq!(scan_number(&cps("[-0.25]"), 1), Some((cps("-0.25"), true)));
    assert_eq!(scan_number(&cps("1-2"), 0), Some((cps("1"), false)));
}

#[test]
fn surrogate_pair_combines() {
    let b = cps("\"\\ud83d\\ude00\"");
    assert_eq!(decoded(&b, 1, true), (vec![0x1F600], 14));
}

#[test]
fn lone_high_surrogate_is_kept() {
    let b = cps("\"\\ud83dX\"");
    assert_eq!(decoded(&b, 1, true), (vec![0xD83D, 'X' as u32], 9));
    let b = cps("\"\\ud83d\\u0041\"");
    assert_eq!(decoded(&b, 1, true), (vec![0xD83D, 0x41], 14));
    let b = cps("\"\\ude00\"");
    assert_eq!(decoded(&b, 1, true), (vec![0xDE00], 8));
}

#[test]
fn extended_constants() {
    let cases = [("NaN", ExtConstant::NaN, 3), ("Infinity", ExtConstant::Infinity, 8), ("-Infinity", ExtConstant::NegInfinity, 9)];
    for (text, constant, end) in cases {
        match scan_value(&cps(text), 0, true) {
            Ok(ScanOutcome::Decoded(ValueToken::Constant(c), e)) => {
                assert_eq!(c, constant);
                assert_eq!(e, end);
            }
            other => panic!("unexpected {:?}", other),
        }
    }
}

#[test]
fn unterminated_string() {
    let e = decode_err(&cps("\"abc"), 1, true);
    assert_eq!(e, DecodeError { kind: DecodeErrorKind::UnterminatedString, pos: 0 });
    let e = decode_err(&cps("x\"ab\\"), 2, true);
    assert_eq!(e, DecodeError { kind: DecodeErrorKind::UnterminatedString, pos: 1 });
}

#[test]
fn empty_buffer_is_no_match() {
    assert!(matches!(scan_value(&[], 0, true), Ok(ScanOutcome::NoMatch)));
    assert!(matches!(scan_value(&cps("1"), 5, true), Ok(ScanOutcome::NoMatch)));
    assert!(matches!(scan_value(&cps("]"), 0, true), Ok(ScanOutcome::NoMatch)));
}

#[test]
fn round_trip_both_modes() {
    let text = cps("h\u{e9}llo \"x\" \\ / \u{1}\u{1f}\n\t\r\u{8}\u{c} \u{7f}\u{80}\u{ffff}\u{10000}\u{1F600}\u{10FFFF}");
    for ascii_only in [false, true] {
        let lit = encode_string(&text, ascii_only);
        assert_eq!(decoded(&lit, 1, true), (text.clone(), lit.len()));
    }
}

#[test]
fn ascii_reencode_only_escapes_specials() {
    let text = cps("a\"b\\c\u{e9}\u{1F600}\n");
    let once = encode_basestring_ascii(&text);
    let body = &once[1..once.len() - 1];
    assert!(body.iter().all(|&c| (0x20..0x80).contains(&c)));
    let twice = encode_basestring_ascii(body);
    let mut expected = vec!['"' as u32];
    for &c in body {
        if c == '"' as u32 || c == '\\' as u32 {
            expected.push('\\' as u32);
        }
        expected.push(c);
    }
    expected.push('"' as u32);
    assert_eq!(twice, expected);
}

#[test]
fn control_characters_strict_and_lenient() {
    for c in 0u32..0x20 {
        let mut b = cps("\"ab");
        b.push(c);
        b.extend(cps("cd\""));
        let e = decode_err(&b, 1, true);
        assert_eq!(e, DecodeError { kind: DecodeErrorKind::InvalidControlCharacter, pos: 3 });
        let (t, end) = decoded(&b, 1, false);
        assert_eq!(t, vec!['a' as u32, 'b' as u32, c, 'c' as u32, 'd' as u32]);
        assert_eq!(end, 7);
    }
}

#[test]
fn encode_exact_values() {
    assert_eq!(encode_basestring(&cps("a\"b")), cps("\"a\\\"b\""));
    assert_eq!(encode_basestring(&cps("\u{8}\u{c}\n\r\t\\")), cps("\"\\b\\f\\n\\r\\t\\\\\""));
    assert_eq!(encode_basestring(&cps("\u{1}\u{1f}")), cps("\"\\u0001\\u001f\""));
    assert_eq!(encode_basestring(&cps("/\u{e9}\u{1F600}")), cps("\"/\u{e9}\u{1F600}\""));
    assert_eq!(encode_basestring_ascii(&cps("\u{e9}\u{ABCD}")), cps("\"\\u00e9\\uabcd\""));
    assert_eq!(encode_basestring_ascii(&cps("\u{1F600}")), cps("\"\\ud83d\\ude00\""));
    assert_eq!(encode_basestring_ascii(&cps("\u{7f}")), cps("\"\u{7f}\""));
    assert_eq!(encode_basestring(&[]), cps("\"\""));
}

#[test]
fn encode_lone_surrogate() {
    assert_eq!(encode_basestring_ascii(&[0xD800, 0x41]), cps("\"\\ud800A\""));
    assert_eq!(encode_basestring(&[0xDC00]), vec!['"' as u32, 0xDC00, '"' as u32]);
}

#[test]
fn decode_simple_escapes() {
    let b = cps("\"\\\"\\\\\\/\\b\\f\\n\\r\\t\\u00e9\\u00C9\" tail");
    let (t, end) = decoded(&b, 1, true);
    assert_eq!(t, cps("\"\\/\u{8}\u{c}\n\r\t\u{e9}\u{c9}"));
    assert_eq!(end, 30);
}

#[test]
fn decode_errors() {
    let e = decode_err(&cps("\"a\\x\""), 1, true);
    assert_eq!(e, DecodeError { kind: DecodeErrorKind::InvalidEscape('x' as u32), pos: 2 });
    let e = decode_err(&cps("\"\\u12G4\""), 1, true);
    assert_eq!(e, DecodeError { kind: DecodeErrorKind::InvalidUnicodeEscape, pos: 1 });
    let e = decode_err(&cps("\"\\u12"), 1, true);
    assert_eq!(e, DecodeError { kind: DecodeErrorKind::InvalidUnicodeEscape, pos: 1 });
    let e = decode_err(&cps("\"\\ud83d\\uzzzz\""), 1, true);
    assert_eq!(e, DecodeError { kind: DecodeErrorKind::InvalidUnicodeEscape, pos: 7 });
    let e = decode_err(&cps("\"abc"), 10, true);
    assert_eq!(e.kind, DecodeErrorKind::UnterminatedString);
}

#[test]
fn scan_value_dispatch() {
    let b = cps(" \"hi\" {} [] null true false -3.5e2 x");
    match scan_value(&b, 1, true) {
        Ok(ScanOutcome::Decoded(ValueToken::Str(t), 5)) => assert_eq!(t, cps("hi")),
        other => panic!("unexpected {:?}", other),
    }
    assert!(matches!(scan_value(&b, 6, true), Ok(ScanOutcome::Decoded(ValueToken::ObjectStart, 7))));
    assert!(matches!(scan_value(&b, 9, true), Ok(ScanOutcome::Decoded(ValueToken::ArrayStart, 10))));
    assert!(matches!(scan_value(&b, 12, true), Ok(ScanOutcome::Decoded(ValueToken::Null, 16))));
    assert!(matches!(scan_value(&b, 17, true), Ok(ScanOutcome::Decoded(ValueToken::Bool(true), 21))));
    assert!(matches!(scan_value(&b, 22, true), Ok(ScanOutcome::Decoded(ValueToken::Bool(false), 27))));
    match scan_value(&b, 28, true) {
        Ok(ScanOutcome::Decoded(ValueToken::Number(t, true), 34)) => assert_eq!(t, cps("-3.5e2")),
        other => panic!("unexpected {:?}", other),
    }
    assert!(matches!(scan_value(&b, 35, true), Ok(ScanOutcome::NoMatch)));
    assert!(matches!(scan_value(&cps("nul"), 0, true), Ok(ScanOutcome::NoMatch)));
    assert!(matches!(scan_value(&cps("-Inf"), 0, true), Ok(ScanOutcome::NoMatch)));
}

#[test]
fn scan_value_string_errors_follow_strictness() {
    let b = cps("\"a\u{1}\"");
    let e = scan_value(&b, 0, true).unwrap_err();
    assert_eq!(e, DecodeError { kind: DecodeErrorKind::InvalidControlCharacter, pos: 2 });
    let scanner = JsonScanner::new(false);
    match scanner.parse(&b, 0) {
        Ok(ScanOutcome::Decoded(ValueToken::Str(t), 4)) => assert_eq!(t, vec!['a' as u32, 1]),
        other => panic!("unexpected {:?}", other),
    }
}

#[test]
fn decode_error_report() {
    let doc = cps("\"abc");
    let e = decode_err(&doc, 1, true);
    let r = py_decode_error(e, &doc);
    assert_eq!(r.msg, cps("Unterminated string starting at"));
    assert_eq!(r.doc, doc);
    assert_eq!(r.pos, 0);
    assert_eq!(DecodeErrorKind::InvalidUnicodeEscape.message(), cps("Invalid \\uXXXX escape"));
    assert_eq!(DecodeErrorKind::InvalidControlCharacter.message(), cps("Invalid control character at"));
}

#[test]
fn invalid_escape_is_named() {
    let doc = cps("\"a\\xb\"");
    let e = decode_err(&doc, 1, true);
    assert_eq!(e, DecodeError { kind: DecodeErrorKind::InvalidEscape('x' as u32), pos: 2 });
    let r = py_decode_error(e, &doc);
    assert_eq!(r.msg, cps("Invalid \\escape: 'x'"));
    assert_eq!(r.pos, 2);
    assert_eq!(DecodeErrorKind::InvalidEscape(0xD800).message(), {
        let mut m = cps("Invalid \\escape: '");
        m.push(0xD800);
        m.push('\'' as u32);
        m
    });
}

#[test]
fn collection_repr_forms() {
    let parts = vec!["1".to_string(), "'a'".to_string()];
    assert_eq!(collection_repr(Some("deque"), "[", "]", &parts), "deque([1, 'a'])");
    assert_eq!(collection_repr(None, "{", "}", &parts), "{1, 'a'}");
    assert_eq!(collection_repr(None, "(", ",)", &parts[..1]), "(1,)");
}

#[test]
fn nul_bytes_are_found() {
    assert_eq!(ensure_no_nul(b"abc"), Ok(()));
    assert_eq!(ensure_no_nul(b""), Ok(()));
    assert_eq!(ensure_no_nul(b"ab\0c"), Err(EmbeddedNulError));
}

#[test]
fn integer_literals_convert() {
    assert_eq!(int_value(&cps("-0123")), Some(BigInt::from(-123i64)));
    assert_eq!(int_value(&cps("98765432109876543210")).map(|v| v.to_string()), Some("98765432109876543210".to_string()));
    assert_eq!(int_value(&cps("7")), Some(BigInt::from(7i64)));
    assert_eq!(int_value(&cps("")), None);
    assert_eq!(int_value(&cps("-")), None);
    assert_eq!(int_value(&cps("+5")), None);
    assert_eq!(int_value(&cps("1.5")), None);
    assert_eq!(int_value(&cps("12a")), None);
}

#[test]
fn scanned_integer_text_converts() {
    let b = cps("[-42, 7]");
    let (text, is_float) = scan_number(&b, 1).unwrap();
    assert!(!is_float);
    assert_eq!(int_value(&text), Some(BigInt::from(-42i64)));
}

#[test]
fn scanner_call_checks_index() {
    let scanner = JsonScanner::new(true);
    let b = cps("[1]");
    assert!(matches!(scanner.call(&b, -1), Err(CallError::NegativeIndex)));
    assert!(matches!(scanner.call(&b, 7), Ok(ScanOutcome::NoMatch)));
    assert!(matches!(scanner.call(&b, 0), Ok(ScanOutcome::Decoded(ValueToken::ArrayStart, 1))));
    let e = scanner.call(&cps("\"\\q\""), 0);
    assert_eq!(e.unwrap_err(), CallError::Decode(DecodeError { kind: DecodeErrorKind::InvalidEscape('q' as u32), pos: 1 }));
}
