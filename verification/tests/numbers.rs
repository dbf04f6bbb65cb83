use hurl_filters::decimal::{i64_to_string, parse_f64_str, parse_i64_str, u64_to_string};
use hurl_filters::number_parse::{integer, number};
use hurl_filters::reader::Reader;

#[test]
fn test_parse_i64_str_grammar() {
    assert_eq!(parse_i64_str("0"), Some(0));
    assert_eq!(parse_i64_str("+42"), Some(42));
    assert_eq!(parse_i64_str("-42"), Some(-42));
    assert_eq!(parse_i64_str("9223372036854775807"), Some(i64::MAX));
    assert_eq!(parse_i64_str("-9223372036854775808"), Some(i64::MIN));
    assert_eq!(parse_i64_str("9223372036854775808"), None);
    assert_eq!(parse_i64_str(""), None);
    assert_eq!(parse_i64_str("-"), None);
    assert_eq!(parse_i64_str("1 "), None);
    assert_eq!(parse_i64_str("1.5"), None);
}

#[test]
fn test_parse_f64_str_grammar() {
    assert_eq!(parse_f64_str("10.5"), Some((10.5f64).to_bits()));
    assert_eq!(parse_f64_str("-0.25"), Some((-0.25f64).to_bits()));
    assert_eq!(parse_f64_str(".5"), Some((0.5f64).to_bits()));
    assert_eq!(parse_f64_str("5."), Some((5.0f64).to_bits()));
    assert_eq!(parse_f64_str("1e3"), Some((1000.0f64).to_bits()));
    assert_eq!(parse_f64_str("2.5E-1"), Some((0.25f64).to_bits()));
    assert_eq!(parse_f64_str("inf"), Some(f64::INFINITY.to_bits()));
    assert_eq!(parse_f64_str("-Infinity"), Some(f64::NEG_INFINITY.to_bits()));
    assert_eq!(parse_f64_str("NaN"), Some(f64::NAN.to_bits()));
    assert_eq!(parse_f64_str("not a number"), None);
    assert_eq!(parse_f64_str(""), None);
    assert_eq!(parse_f64_str("1e"), None);
    assert_eq!(parse_f64_str("."), None);
    assert_eq!(parse_f64_str("0x10"), None);
}

#[test]
fn test_parse_f64_matches_std() {
    for text in ["10.5", "-0.25", ".5", "5.", "1e3", "2.5E-1", "9223372036854775808", "1.7976931348623157e308"] {
        let expected: f64 = text.parse().unwrap();
        assert_eq!(parse_f64_str(text), Some(expected.to_bits()), "text {text}");
    }
}

#[test]
fn test_decimal_rendering() {
    assert_eq!(u64_to_string(0), "0".to_string());
    assert_eq!(u64_to_string(907), "907".to_string());
    assert_eq!(i64_to_string(-1), "-1".to_string());
    assert_eq!(i64_to_string(i64::MIN), "-9223372036854775808".to_string());
    assert_eq!(i64_to_string(i64::MAX), "9223372036854775807".to_string());
}

#[test]
fn test_integer_lexer() {
    let mut reader = Reader::new("-37 rest");
    let lexed = integer(&mut reader).unwrap();
    assert_eq!(lexed.value, -37);
    assert_eq!(lexed.source, "-37".to_string());

    let mut reader = Reader::new("x");
    assert!(integer(&mut reader).err().unwrap().recoverable);
}

#[test]
fn test_number_lexer() {
    let mut reader = Reader::new("3.25");
    match number(&mut reader).unwrap() {
        hurl_filters::ast::Number::Float(f) => {
            assert_eq!(f.bits, (3.25f64).to_bits());
            assert_eq!(f.source, "3.25".to_string());
        }
        other => panic!("expected a float, got {other:?}"),
    }

    let mut reader = Reader::new("99999999999999999999");
    match number(&mut reader).unwrap() {
        hurl_filters::ast::Number::BigInteger(s) => {
            assert_eq!(s, "99999999999999999999".to_string());
        }
        other => panic!("expected a big integer, got {other:?}"),
    }
}
