//! Dispatch of a parsed filter to its evaluator.
//!
//! The match is exhaustive over the closed set of filter kinds, so a new
//! variant cannot be added without deciding its evaluation here. This
//! subsystem specifies the evaluation of `add` and of script filters; the
//! other kinds are parsed here but evaluated by the surrounding tool, so they
//! yield no value.

use vstd::prelude::*;

use crate::add::{add_numbers_spec, coerce_operand, eval_add, resolved_number};
use crate::ast::{Filter, FilterValue};
use crate::runner_error::{RunnerError, RunnerErrorKind};
use crate::value::{repr_spec, SpecValue, Value};
use crate::variables::VariableSet;

verus! {

/// Evaluates a filter against a value.
///
/// `add` follows the coercion and promotion rules exactly; a script filter
/// cannot run without a configured script engine, so here it reports the
/// not-configured error; every other kind yields no value.
pub fn eval_filter(filter: &Filter, value: &Value, variables: &VariableSet, in_assert: bool) -> (r:
    Result<Option<Value>, RunnerError>)
    ensures
        (match filter.value {
            FilterValue::Add { space0, value: addend } => {
                &&& (resolved_number(addend, variables) is Some ==> (match coerce_operand(
                    value@,
                ) {
                    Some(op) => {
                        &&& r is Ok
                        &&& r->Ok_0 is Some
                        &&& r->Ok_0->0@ == SpecValue::Number(
                            add_numbers_spec(op, resolved_number(addend, variables)->0),
                        )
                    },
                    None => {
                        &&& r is Err
                        &&& r->Err_0.kind matches RunnerErrorKind::FilterInvalidInput(shown)
                            && shown@ == repr_spec(value@)
                        &&& r->Err_0.source_info == filter.source_info
                        &&& r->Err_0.assert == in_assert
                    },
                }))
                &&& (resolved_number(addend, variables) is None ==> r is Err)
            },
            FilterValue::JsFilter { space0, name, args } => {
                &&& r is Err
                &&& r->Err_0.kind == RunnerErrorKind::JsFilterNotConfigured
                &&& r->Err_0.source_info == filter.source_info
            },
            _ => r is Ok && r->Ok_0 is None,
        }),
{
    match &filter.value {
        FilterValue::Add { space0, value: addend } => eval_add(
            value,
            addend,
            variables,
            filter.source_info,
            in_assert,
        ),
        FilterValue::JsFilter { space0, name, args } => Err(
            RunnerError::new(
                filter.source_info,
                RunnerErrorKind::JsFilterNotConfigured,
                in_assert,
            ),
        ),
        _ => Ok(None),
    }
}

} // verus!
