use hurl_filters::ast::{Filter, FilterValue, NumberValue, SourceInfo};
use hurl_filters::filter_parser::{filter, filters};
use hurl_filters::parse_error::ParseErrorKind;
use hurl_filters::reader::{Pos, Reader};

#[test]
fn test_count() {
    let mut reader = Reader::new("count");
    assert_eq!(
        filter(&mut reader).unwrap(),
        Filter {
            source_info: SourceInfo::new(Pos::new(1, 1), Pos::new(1, 6)),
            value: FilterValue::Count,
        }
    );
}

#[test]
fn test_error() {
    let mut reader = Reader::new("xcount");
    let err = filter(&mut reader).err().unwrap();
    assert_eq!(
        err.kind,
        ParseErrorKind::Expecting {
            value: "filter".to_string()
        }
    );
    assert_eq!(err.pos, Pos { line: 1, column: 1 });
    assert!(err.recoverable);

    let mut reader = Reader::new("regex 1");
    let err = filter(&mut reader).err().unwrap();
    assert_eq!(
        err.kind,
        ParseErrorKind::Expecting {
            value: "\" or /".to_string()
        }
    );
    assert_eq!(err.pos, Pos { line: 1, column: 7 });
    assert!(!err.recoverable);
}

#[test]
fn test_parse_add_with_integer_literal() {
    let mut reader = Reader::new("add 5");
    let parsed = filter(&mut reader).unwrap();
    match parsed.value {
        FilterValue::Add { value, .. } => match value {
            NumberValue::Literal(hurl_filters::ast::Number::Integer(i)) => {
                assert_eq!(i.value, 5);
                assert_eq!(i.source, "5".to_string());
            }
            other => panic!("expected an integer literal, got {other:?}"),
        },
        other => panic!("expected an add filter, got {other:?}"),
    }
    assert_eq!(parsed.source_info, SourceInfo::new(Pos::new(1, 1), Pos::new(1, 6)));
}

#[test]
fn test_parse_add_with_float_literal() {
    let mut reader = Reader::new("add 1.5");
    let parsed = filter(&mut reader).unwrap();
    match parsed.value {
        FilterValue::Add { value, .. } => match value {
            NumberValue::Literal(hurl_filters::ast::Number::Float(f)) => {
                assert_eq!(f.bits, (1.5f64).to_bits());
                assert_eq!(f.source, "1.5".to_string());
            }
            other => panic!("expected a float literal, got {other:?}"),
        },
        other => panic!("expected an add filter, got {other:?}"),
    }
}

#[test]
fn test_parse_add_with_placeholder() {
    let mut reader = Reader::new("add {{ total }}");
    let parsed = filter(&mut reader).unwrap();
    match parsed.value {
        FilterValue::Add { value, .. } => match value {
            NumberValue::Placeholder(p) => {
                assert_eq!(p.expr.name, "total".to_string());
            }
            other => panic!("expected a placeholder, got {other:?}"),
        },
        other => panic!("expected an add filter, got {other:?}"),
    }
}

#[test]
fn test_parse_add_committed_failure() {
    // The keyword matched, so a malformed value position must not fall back
    // to "expecting filter".
    let mut reader = Reader::new("add x");
    let err = filter(&mut reader).err().unwrap();
    assert!(!err.recoverable);
    assert_eq!(
        err.kind,
        ParseErrorKind::Expecting {
            value: "number".to_string()
        }
    );
}

#[test]
fn test_parse_big_integer_literal() {
    let mut reader = Reader::new("add 18446744073709551616");
    let parsed = filter(&mut reader).unwrap();
    match parsed.value {
        FilterValue::Add { value, .. } => match value {
            NumberValue::Literal(hurl_filters::ast::Number::BigInteger(s)) => {
                assert_eq!(s, "18446744073709551616".to_string());
            }
            other => panic!("expected a big integer, got {other:?}"),
        },
        other => panic!("expected an add filter, got {other:?}"),
    }
}

#[test]
fn test_longer_keyword_not_shadowed() {
    // base64UrlSafeDecode must not be taken for base64Decode.
    let mut reader = Reader::new("base64UrlSafeDecode");
    let parsed = filter(&mut reader).unwrap();
    assert_eq!(parsed.value, FilterValue::Base64UrlSafeDecode);
}

#[test]
fn test_parse_jsfilter_with_args() {
    let mut reader = Reader::new("jsfilter my_fn 1 \"two\" {{three}}");
    let parsed = filter(&mut reader).unwrap();
    match parsed.value {
        FilterValue::JsFilter { name, args, .. } => {
            match &name.elements[0] {
                hurl_filters::ast::TemplateElement::Text { value, .. } => {
                    assert_eq!(value, &"my_fn".to_string());
                }
                other => panic!("expected literal name text, got {other:?}"),
            }
            assert_eq!(args.len(), 3);
        }
        other => panic!("expected a jsfilter, got {other:?}"),
    }
}

#[test]
fn test_parse_jsfilter_trailing_space_not_consumed() {
    let mut reader = Reader::new("jsfilter my_fn ");
    let parsed = filter(&mut reader).unwrap();
    match parsed.value {
        FilterValue::JsFilter { args, .. } => {
            assert_eq!(args.len(), 0);
        }
        other => panic!("expected a jsfilter, got {other:?}"),
    }
    // The trailing blank is left for the next filter in a chain.
    assert_eq!(parsed.source_info.end, Pos::new(1, 15));
}

#[test]
fn test_parse_filter_chain() {
    let mut reader = Reader::new(" count toInt");
    let parsed = filters(&mut reader).unwrap();
    assert_eq!(parsed.len(), 2);
    assert_eq!(parsed[0].1.value, FilterValue::Count);
    assert_eq!(parsed[1].1.value, FilterValue::ToInt);
}

#[test]
fn test_parse_regex_slash_literal() {
    let mut reader = Reader::new("regex /a\\/b/");
    let parsed = filter(&mut reader).unwrap();
    match parsed.value {
        FilterValue::Regex { value, .. } => match value {
            hurl_filters::ast::RegexValue::Regex(lit) => {
                assert_eq!(lit.value, "a/b".to_string());
            }
            other => panic!("expected a regex literal, got {other:?}"),
        },
        other => panic!("expected a regex filter, got {other:?}"),
    }
}

#[test]
fn test_parse_replace_two_quoted_arguments() {
    let mut reader = Reader::new("replace \"old\" \"new\"");
    let parsed = filter(&mut reader).unwrap();
    match parsed.value {
        FilterValue::Replace { old_value, new_value, .. } => {
            match &old_value.elements[0] {
                hurl_filters::ast::TemplateElement::Text { value, .. } => {
                    assert_eq!(value, &"old".to_string());
                }
                other => panic!("expected literal text, got {other:?}"),
            }
            match &new_value.elements[0] {
                hurl_filters::ast::TemplateElement::Text { value, .. } => {
                    assert_eq!(value, &"new".to_string());
                }
                other => panic!("expected literal text, got {other:?}"),
            }
        }
        other => panic!("expected a replace filter, got {other:?}"),
    }
}

#[test]
fn test_line_and_column_tracking() {
    let mut reader = Reader::new("last");
    let parsed = filter(&mut reader).unwrap();
    assert_eq!(parsed.source_info, SourceInfo::new(Pos::new(1, 1), Pos::new(1, 5)));
}

#[test]
fn test_parse_nth_with_integer() {
    let mut reader = Reader::new("nth 2");
    let parsed = filter(&mut reader).unwrap();
    match parsed.value {
        FilterValue::Nth { n, .. } => match n {
            hurl_filters::ast::IntegerValue::Literal(i) => assert_eq!(i.value, 2),
            other => panic!("expected an integer literal, got {other:?}"),
        },
        other => panic!("expected an nth filter, got {other:?}"),
    }
}

#[test]
fn test_template_failure_escalation() {
    // A malformed value after `jsonpath` is committed: the keyword decided
    // the alternative, so the diagnostic points at the value position.
    let mut reader = Reader::new("jsonpath x");
    let err = filter(&mut reader).err().unwrap();
    assert!(!err.recoverable);
    assert_eq!(
        err.kind,
        ParseErrorKind::Expecting {
            value: "\"".to_string()
        }
    );
    assert_eq!(err.pos, Pos { line: 1, column: 10 });

    // After `decode` the same failure stays recoverable, so the whole parse
    // collapses to the generic diagnostic.
    let mut reader = Reader::new("decode x");
    let err = filter(&mut reader).err().unwrap();
    assert!(err.recoverable);
    assert_eq!(
        err.kind,
        ParseErrorKind::Expecting {
            value: "filter".to_string()
        }
    );
}

#[test]
fn test_jsfilter_bare_number_has_single_dot() {
    let mut reader = Reader::new("jsfilter f 1.25");
    let parsed = filter(&mut reader).unwrap();
    match parsed.value {
        FilterValue::JsFilter { args, .. } => {
            assert_eq!(args.len(), 1);
            match &args[0].1.elements[0] {
                hurl_filters::ast::TemplateElement::Text { value, .. } => {
                    assert_eq!(value, &"1.25".to_string());
                }
                other => panic!("expected a bare number, got {other:?}"),
            }
        }
        other => panic!("expected a jsfilter, got {other:?}"),
    }

    // A second dot does not belong to the number: the argument ends before
    // it, and so does the filter.
    let mut reader = Reader::new("jsfilter f 1.2.3");
    let parsed = filter(&mut reader).unwrap();
    match parsed.value {
        FilterValue::JsFilter { args, .. } => {
            assert_eq!(args.len(), 1);
            match &args[0].1.elements[0] {
                hurl_filters::ast::TemplateElement::Text { value, .. } => {
                    assert_eq!(value, &"1.2".to_string());
                }
                other => panic!("expected a bare number, got {other:?}"),
            }
        }
        other => panic!("expected a jsfilter, got {other:?}"),
    }
    assert_eq!(parsed.source_info.end, Pos::new(1, 15));
}
