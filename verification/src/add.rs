//! The `add` filter: numeric coercion and promotion rules.
//!
//! Integer addition wraps silently in two's complement; mixing an integer
//! with a float promotes to float; an oversized integer held as text degrades
//! to float conversion. A string input is coerced — integer parse first, then
//! float parse — and anything else is rejected. Overflow is tolerated while
//! unparsable input is fatal: that asymmetry is deliberate.

use vstd::prelude::*;

use crate::ast::{Number as AstNumber, NumberValue, SourceInfo};
use crate::decimal::{i64_text_value, spec_parse_f64, valid_f64_text, valid_i64_text};
use crate::floats::{float_of_i64, float_sum, NAN_BITS};
use crate::runner_error::{RunnerError, RunnerErrorKind};
use crate::value::{repr_spec, Number, SpecNumber, SpecValue, Value};
use crate::variables::VariableSet;

verus! {

/// Two's-complement wrapping addition of 64-bit signed integers.
pub open spec fn wrap_add_i64(a: int, b: int) -> int {
    if a + b > i64::MAX {
        a + b - 0x1_0000_0000_0000_0000
    } else if a + b < i64::MIN {
        a + b + 0x1_0000_0000_0000_0000
    } else {
        a + b
    }
}

/// A number as a 64-bit float: integers converted, oversized integer text
/// parsed as a decimal (NaN when unparsable).
pub open spec fn number_as_float(n: SpecNumber) -> u64 {
    match n {
        SpecNumber::Integer(i) => float_of_i64(i as i64),
        SpecNumber::Float(bits) => bits,
        SpecNumber::BigInteger(s) => match spec_parse_f64(s) {
            Some(bits) => bits,
            None => NAN_BITS,
        },
    }
}

/// The promotion table for addition: integer with integer wraps; any float
/// makes the result float; an oversized integer text degrades both operands
/// to float.
pub open spec fn add_numbers_spec(a: SpecNumber, b: SpecNumber) -> SpecNumber {
    match (a, b) {
        (SpecNumber::Integer(i1), SpecNumber::Integer(i2)) => SpecNumber::Integer(
            wrap_add_i64(i1, i2),
        ),
        (SpecNumber::Integer(i), SpecNumber::Float(f)) => SpecNumber::Float(
            float_sum(float_of_i64(i as i64), f),
        ),
        (SpecNumber::Float(f), SpecNumber::Integer(i)) => SpecNumber::Float(
            float_sum(f, float_of_i64(i as i64)),
        ),
        (SpecNumber::Float(f1), SpecNumber::Float(f2)) => SpecNumber::Float(float_sum(f1, f2)),
        _ => SpecNumber::Float(float_sum(number_as_float(a), number_as_float(b))),
    }
}

/// What a filtered value coerces to as an addition operand: numbers as they
/// are; strings by integer parse first, then float parse; nothing else.
pub open spec fn coerce_operand(v: SpecValue) -> Option<SpecNumber> {
    match v {
        SpecValue::Number(n) => Some(n),
        SpecValue::String(s) => if valid_i64_text(s) {
            Some(SpecNumber::Integer(i64_text_value(s)))
        } else if valid_f64_text(s) {
            Some(SpecNumber::Float(spec_parse_f64(s)->0))
        } else {
            None
        },
        _ => None,
    }
}

/// What a number argument resolves to: a literal as itself, a placeholder by
/// lookup, provided it holds a number.
pub open spec fn resolved_number(n: NumberValue, vs: &VariableSet) -> Option<SpecNumber> {
    match n {
        NumberValue::Literal(num) => Some(ast_number_model(num)),
        NumberValue::Placeholder(p) => match vs.lookup(p.expr.name@) {
            Some(SpecValue::Number(sn)) => Some(sn),
            _ => None,
        },
    }
}

/// The model of a number literal from the syntax tree.
pub open spec fn ast_number_model(n: AstNumber) -> SpecNumber {
    match n {
        AstNumber::Integer(i) => SpecNumber::Integer(i.value as int),
        AstNumber::Float(f) => SpecNumber::Float(f.bits),
        AstNumber::BigInteger(s) => SpecNumber::BigInteger(s@),
    }
}

/// Adds two numbers with the promotion table.
pub fn add_numbers(a: &Number, b: &Number) -> (r: Number)
    ensures
        r@ == add_numbers_spec(a@, b@),
{
    match (a, b) {
        (Number::Integer(i1), Number::Integer(i2)) => Number::Integer(i1.wrapping_add(*i2)),
        (Number::Integer(i), Number::Float(f)) => Number::Float(
            crate::floats::float_add(crate::floats::float_from_i64(*i), *f),
        ),
        (Number::Float(f), Number::Integer(i)) => Number::Float(
            crate::floats::float_add(*f, crate::floats::float_from_i64(*i)),
        ),
        (Number::Float(f1), Number::Float(f2)) => Number::Float(
            crate::floats::float_add(*f1, *f2),
        ),
        _ => {
            let f1 = number_to_float_bits(a);
            let f2 = number_to_float_bits(b);
            Number::Float(crate::floats::float_add(f1, f2))
        }
    }
}

/// Converts a number to its 64-bit float bit pattern.
fn number_to_float_bits(n: &Number) -> (r: u64)
    ensures
        r == number_as_float(n@),
{
    match n {
        Number::Integer(i) => crate::floats::float_from_i64(*i),
        Number::Float(bits) => *bits,
        Number::BigInteger(s) => match crate::decimal::parse_f64_str(s.as_str()) {
            Some(bits) => bits,
            None => NAN_BITS,
        },
    }
}

/// Copies a number.
pub fn number_copy(n: &Number) -> (r: Number)
    ensures
        r@ == n@,
{
    match n {
        Number::Integer(i) => Number::Integer(*i),
        Number::Float(bits) => Number::Float(*bits),
        Number::BigInteger(s) => Number::BigInteger(s.clone()),
    }
}

/// Resolves a number argument to a concrete number: a literal as itself, a
/// placeholder against the variable set, erroring when the resolved value is
/// not numeric.
pub fn eval_number_value(n: &NumberValue, variables: &VariableSet) -> (r: Result<
    Number,
    RunnerError,
>)
    ensures
        r is Ok <==> resolved_number(*n, variables) is Some,
        r is Ok ==> Some(r->Ok_0@) == resolved_number(*n, variables),
        r is Err ==> (match *n {
            NumberValue::Literal(num) => false,
            NumberValue::Placeholder(p) => {
                &&& r->Err_0.source_info == p.expr.source_info
                &&& r->Err_0.assert == false
                &&& (match variables.lookup(p.expr.name@) {
                    Some(v) => r->Err_0.kind matches RunnerErrorKind::ExpressionInvalidType {
                        value,
                        expecting,
                    } && value@ == repr_spec(v) && expecting@ == "number"@,
                    None => r->Err_0.kind matches RunnerErrorKind::TemplateVariableNotDefined {
                        name,
                    } && name@ == p.expr.name@,
                })
            },
        }),
{
    match n {
        NumberValue::Literal(num) => Ok(
            match num {
                AstNumber::Integer(i) => Number::Integer(i.value),
                AstNumber::Float(f) => Number::Float(f.bits),
                AstNumber::BigInteger(s) => Number::BigInteger(s.clone()),
            },
        ),
        NumberValue::Placeholder(p) => {
            let resolved = match crate::template::eval_expr(&p.expr, variables) {
                Ok(v) => v,
                Err(e) => {
                    return Err(e);
                }
            };
            match resolved {
                Value::Number(num) => Ok(number_copy(&num)),
                other => Err(
                    RunnerError::new(
                        p.expr.source_info,
                        RunnerErrorKind::ExpressionInvalidType {
                            value: other.repr(),
                            expecting: String::from_str("number"),
                        },
                        false,
                    ),
                ),
            }
        }
    }
}

/// Adds a number `addend` to the input `value`.
///
/// Numbers are added with the promotion table; strings are coerced — integer
/// parse first, then float parse — and any other value shape is rejected
/// with an invalid-input error carrying the value's display form.
pub fn eval_add(
    value: &Value,
    addend: &NumberValue,
    variables: &VariableSet,
    source_info: SourceInfo,
    assert: bool,
) -> (r: Result<Option<Value>, RunnerError>)
    ensures
        resolved_number(*addend, variables) is Some ==> (match coerce_operand(value@) {
            Some(op) => {
                &&& r is Ok
                &&& r->Ok_0 is Some
                &&& r->Ok_0->0@ == SpecValue::Number(
                    add_numbers_spec(op, resolved_number(*addend, variables)->0),
                )
            },
            None => {
                &&& r is Err
                &&& r->Err_0.kind matches RunnerErrorKind::FilterInvalidInput(shown) && shown@
                    == repr_spec(value@)
                &&& r->Err_0.source_info == source_info
                &&& r->Err_0.assert == assert
            },
        }),
        resolved_number(*addend, variables) is None ==> r is Err,
{
    let addend = match eval_number_value(addend, variables) {
        Ok(n) => n,
        Err(e) => {
            return Err(e);
        }
    };

    match value {
        Value::Number(n) => {
            let result = add_numbers(n, &addend);
            Ok(Some(Value::Number(result)))
        }
        Value::String(s) => {
            match crate::decimal::parse_i64_str(s.as_str()) {
                Some(i) => {
                    let n = Number::Integer(i);
                    let result = add_numbers(&n, &addend);
                    Ok(Some(Value::Number(result)))
                }
                None => match crate::decimal::parse_f64_str(s.as_str()) {
                    Some(bits) => {
                        let n = Number::Float(bits);
                        let result = add_numbers(&n, &addend);
                        Ok(Some(Value::Number(result)))
                    }
                    None => {
                        let kind = RunnerErrorKind::FilterInvalidInput(value.repr());
                        Err(RunnerError::new(source_info, kind, assert))
                    }
                },
            }
        }
        v => {
            let kind = RunnerErrorKind::FilterInvalidInput(v.repr());
            Err(RunnerError::new(source_info, kind, assert))
        }
    }
}

} // verus!
