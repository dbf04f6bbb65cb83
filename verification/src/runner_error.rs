//! Evaluation errors: what a filter run reports to its caller.

use vstd::prelude::*;

use crate::ast::SourceInfo;

verus! {

/// The kinds of evaluation failure.
#[derive(Clone, Debug, PartialEq, Eq)]
pub enum RunnerErrorKind {
    /// The filtered value has a shape the filter cannot work on; carries the
    /// value's display form.
    FilterInvalidInput(String),
    /// A placeholder resolved to a value of the wrong shape.
    ExpressionInvalidType { value: String, expecting: String },
    /// A placeholder names a variable that is not in the variable set.
    TemplateVariableNotDefined { name: String },
    /// A placeholder resolved to a value that has no text form.
    UnrenderableExpression { value: String },
    /// A script filter was used but no script path was supplied.
    JsFilterNotConfigured,
    /// The script defines no filter function with the given name.
    JsFilterFunctionNotFound { name: String },
    /// The script engine failed: load, parse, call or conversion.
    JsFilterRuntimeError { message: String },
}

/// A located evaluation failure. The `assert` flag says whether the failing
/// filter was evaluated as part of an assertion; it is threaded through from
/// the caller and decides how fatal the failure is, not what it says.
#[derive(Clone, Debug, PartialEq, Eq)]
pub struct RunnerError {
    pub source_info: SourceInfo,
    pub kind: RunnerErrorKind,
    pub assert: bool,
}

impl RunnerError {
    pub fn new(source_info: SourceInfo, kind: RunnerErrorKind, assert: bool) -> (e: RunnerError)
        ensures
            e.source_info == source_info,
            e.kind == kind,
            e.assert == assert,
    {
        RunnerError { source_info, kind, assert }
    }
}

} // verus!
