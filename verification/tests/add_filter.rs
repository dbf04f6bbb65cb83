use hurl_filters::ast::{Filter, FilterValue, NumberValue, SourceInfo, Whitespace, Float, I64};
use hurl_filters::eval::eval_filter;
use hurl_filters::reader::Pos;
use hurl_filters::runner_error::RunnerErrorKind;
use hurl_filters::value::{Number, Value};
use hurl_filters::variables::VariableSet;

fn whitespace() -> Whitespace {
    Whitespace {
        value: String::new(),
        source_info: SourceInfo::new(Pos::new(0, 0), Pos::new(0, 0)),
    }
}

fn add_filter_with(value: NumberValue) -> Filter {
    Filter {
        source_info: SourceInfo::new(Pos::new(1, 1), Pos::new(1, 1)),
        value: FilterValue::Add { space0: whitespace(), value },
    }
}

#[test]
fn eval_filter_add_integer_to_integer() {
    let variables = VariableSet::new();
    let filter = add_filter_with(NumberValue::Literal(hurl_filters::ast::Number::Integer(
        I64::new(5, "5".to_string()),
    )));

    assert_eq!(
        eval_filter(
            &filter,
            &Value::Number(Number::Integer(10)),
            &variables,
            false
        )
        .unwrap()
        .unwrap(),
        Value::Number(Number::Integer(15))
    );
}

#[test]
fn eval_filter_add_negative() {
    let variables = VariableSet::new();
    let filter = add_filter_with(NumberValue::Literal(hurl_filters::ast::Number::Integer(
        I64::new(-3, "-3".to_string()),
    )));

    assert_eq!(
        eval_filter(
            &filter,
            &Value::Number(Number::Integer(10)),
            &variables,
            false
        )
        .unwrap()
        .unwrap(),
        Value::Number(Number::Integer(7))
    );
}

#[test]
fn eval_filter_add_float_to_integer() {
    let variables = VariableSet::new();
    let filter = add_filter_with(NumberValue::Literal(hurl_filters::ast::Number::Float(
        Float::new((1.5f64).to_bits(), "1.5".to_string()),
    )));

    assert_eq!(
        eval_filter(
            &filter,
            &Value::Number(Number::Integer(10)),
            &variables,
            false
        )
        .unwrap()
        .unwrap(),
        Value::Number(Number::Float((11.5f64).to_bits()))
    );
}

#[test]
fn eval_filter_add_integer_to_float() {
    let variables = VariableSet::new();
    let filter = add_filter_with(NumberValue::Literal(hurl_filters::ast::Number::Integer(
        I64::new(5, "5".to_string()),
    )));

    assert_eq!(
        eval_filter(
            &filter,
            &Value::Number(Number::Float((10.5f64).to_bits())),
            &variables,
            false
        )
        .unwrap()
        .unwrap(),
        Value::Number(Number::Float((15.5f64).to_bits()))
    );
}

#[test]
fn eval_filter_add_float_to_float() {
    let variables = VariableSet::new();
    let filter = add_filter_with(NumberValue::Literal(hurl_filters::ast::Number::Float(
        Float::new((2.5f64).to_bits(), "2.5".to_string()),
    )));

    assert_eq!(
        eval_filter(
            &filter,
            &Value::Number(Number::Float((10.5f64).to_bits())),
            &variables,
            false
        )
        .unwrap()
        .unwrap(),
        Value::Number(Number::Float((13.0f64).to_bits()))
    );
}

#[test]
fn eval_filter_add_to_string() {
    let variables = VariableSet::new();
    let filter = add_filter_with(NumberValue::Literal(hurl_filters::ast::Number::Integer(
        I64::new(5, "5".to_string()),
    )));

    // String that can be parsed as integer
    assert_eq!(
        eval_filter(&filter, &Value::String("10".to_string()), &variables, false)
            .unwrap()
            .unwrap(),
        Value::Number(Number::Integer(15))
    );

    // String that can be parsed as float
    assert_eq!(
        eval_filter(
            &filter,
            &Value::String("10.5".to_string()),
            &variables,
            false
        )
        .unwrap()
        .unwrap(),
        Value::Number(Number::Float((15.5f64).to_bits()))
    );
}

#[test]
fn eval_filter_add_overflow() {
    let variables = VariableSet::new();
    let filter = add_filter_with(NumberValue::Literal(hurl_filters::ast::Number::Integer(
        I64::new(1, "1".to_string()),
    )));

    // Test wrapping overflow
    assert_eq!(
        eval_filter(
            &filter,
            &Value::Number(Number::Integer(i64::MAX)),
            &variables,
            false
        )
        .unwrap()
        .unwrap(),
        Value::Number(Number::Integer(i64::MIN))
    );
}

#[test]
fn eval_filter_add_underflow_wraps() {
    let variables = VariableSet::new();
    let filter = add_filter_with(NumberValue::Literal(hurl_filters::ast::Number::Integer(
        I64::new(-1, "-1".to_string()),
    )));

    assert_eq!(
        eval_filter(
            &filter,
            &Value::Number(Number::Integer(i64::MIN)),
            &variables,
            false
        )
        .unwrap()
        .unwrap(),
        Value::Number(Number::Integer(i64::MAX))
    );
}

#[test]
fn eval_filter_add_invalid_input() {
    let variables = VariableSet::new();
    let filter = add_filter_with(NumberValue::Literal(hurl_filters::ast::Number::Integer(
        I64::new(5, "5".to_string()),
    )));

    // Boolean input
    let err = eval_filter(&filter, &Value::Bool(true), &variables, false)
        .err()
        .unwrap();
    assert_eq!(
        err.kind,
        RunnerErrorKind::FilterInvalidInput("boolean <true>".to_string())
    );

    // Invalid string
    let err = eval_filter(
        &filter,
        &Value::String("not a number".to_string()),
        &variables,
        false,
    )
    .err()
    .unwrap();
    assert_eq!(
        err.kind,
        RunnerErrorKind::FilterInvalidInput("string <not a number>".to_string())
    );
}

#[test]
fn eval_filter_add_big_integer_degrades_to_float() {
    let variables = VariableSet::new();
    let filter = add_filter_with(NumberValue::Literal(hurl_filters::ast::Number::BigInteger(
        "18446744073709551616".to_string(),
    )));

    assert_eq!(
        eval_filter(
            &filter,
            &Value::Number(Number::Integer(1)),
            &variables,
            false
        )
        .unwrap()
        .unwrap(),
        Value::Number(Number::Float((1f64 + 18446744073709551616f64).to_bits()))
    );
}

#[test]
fn eval_filter_add_placeholder_addend() {
    let mut variables = VariableSet::new();
    variables.insert("n".to_string(), Value::Number(Number::Integer(32)));
    let placeholder = hurl_filters::ast::Placeholder {
        space0: whitespace(),
        expr: hurl_filters::ast::Expr {
            name: "n".to_string(),
            source_info: SourceInfo::new(Pos::new(1, 1), Pos::new(1, 1)),
        },
        space1: whitespace(),
        source_info: SourceInfo::new(Pos::new(1, 1), Pos::new(1, 1)),
    };
    let filter = add_filter_with(NumberValue::Placeholder(placeholder));

    assert_eq!(
        eval_filter(
            &filter,
            &Value::Number(Number::Integer(10)),
            &variables,
            false
        )
        .unwrap()
        .unwrap(),
        Value::Number(Number::Integer(42))
    );
}

#[test]
fn eval_filter_add_placeholder_wrong_type() {
    let mut variables = VariableSet::new();
    variables.insert("n".to_string(), Value::Bool(false));
    let placeholder = hurl_filters::ast::Placeholder {
        space0: whitespace(),
        expr: hurl_filters::ast::Expr {
            name: "n".to_string(),
            source_info: SourceInfo::new(Pos::new(1, 1), Pos::new(1, 1)),
        },
        space1: whitespace(),
        source_info: SourceInfo::new(Pos::new(1, 1), Pos::new(1, 1)),
    };
    let filter = add_filter_with(NumberValue::Placeholder(placeholder));

    let err = eval_filter(
        &filter,
        &Value::Number(Number::Integer(10)),
        &variables,
        false,
    )
    .err()
    .unwrap();
    assert_eq!(
        err.kind,
        RunnerErrorKind::ExpressionInvalidType {
            value: "boolean <false>".to_string(),
            expecting: "number".to_string()
        }
    );
}

#[test]
fn eval_filter_add_undefined_variable() {
    let variables = VariableSet::new();
    let placeholder = hurl_filters::ast::Placeholder {
        space0: whitespace(),
        expr: hurl_filters::ast::Expr {
            name: "missing".to_string(),
            source_info: SourceInfo::new(Pos::new(1, 1), Pos::new(1, 1)),
        },
        space1: whitespace(),
        source_info: SourceInfo::new(Pos::new(1, 1), Pos::new(1, 1)),
    };
    let filter = add_filter_with(NumberValue::Placeholder(placeholder));

    let err = eval_filter(
        &filter,
        &Value::Number(Number::Integer(10)),
        &variables,
        false,
    )
    .err()
    .unwrap();
    assert_eq!(
        err.kind,
        RunnerErrorKind::TemplateVariableNotDefined {
            name: "missing".to_string()
        }
    );
}
