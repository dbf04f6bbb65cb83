//! Evaluation of templates against a variable set.
//!
//! A template is literal text interleaved with placeholders; evaluating it
//! resolves each placeholder to a value and renders that value as text.

use vstd::prelude::*;

use crate::ast::{Expr, Template, TemplateElement};
use crate::decimal::i64_text;
use crate::floats::float_text;
use crate::runner_error::{RunnerError, RunnerErrorKind};
use crate::value::{repr_spec, SpecNumber, SpecValue, Value};
use crate::variables::VariableSet;

verus! {

/// The text form of a resolved value, when it has one: booleans, numbers,
/// strings and null render; structured values do not.
pub open spec fn render_text(v: SpecValue) -> Option<Seq<char>> {
    match v {
        SpecValue::Bool(b) => Some(
            if b {
                "true"@
            } else {
                "false"@
            },
        ),
        SpecValue::Null => Some("null"@),
        SpecValue::Number(n) => Some(crate::value::number_text_spec(n)),
        SpecValue::String(s) => Some(s),
        _ => None,
    }
}

/// The text a template evaluates to from element `i` on, or nothing if a
/// placeholder is undefined or resolves to an unrenderable value.
pub open spec fn template_text_from(elems: Seq<TemplateElement>, vs: &VariableSet, i: int) -> Option<
    Seq<char>,
>
    decreases elems.len() - i,
{
    if i < 0 || i >= elems.len() {
        Some(Seq::empty())
    } else {
        let rest = template_text_from(elems, vs, i + 1);
        match elems[i] {
            TemplateElement::Text { value, source } => match rest {
                Some(r) => Some(value@ + r),
                None => None,
            },
            TemplateElement::Placeholder(p) => match vs.lookup(p.expr.name@) {
                Some(sv) => match render_text(sv) {
                    Some(txt) => match rest {
                        Some(r) => Some(txt + r),
                        None => None,
                    },
                    None => None,
                },
                None => None,
            },
        }
    }
}

/// The text a template evaluates to against a variable set, if every
/// placeholder is defined and renderable.
pub open spec fn template_text(t: Template, vs: &VariableSet) -> Option<Seq<char>> {
    template_text_from(t.elements@, vs, 0)
}

/// Resolves a placeholder expression: looks its variable up.
pub fn eval_expr(expr: &Expr, variables: &VariableSet) -> (r: Result<Value, RunnerError>)
    ensures
        r is Ok <==> variables.lookup(expr.name@) is Some,
        r is Ok ==> Some(r->Ok_0@) == variables.lookup(expr.name@),
        r is Err ==> {
            &&& r->Err_0.kind matches RunnerErrorKind::TemplateVariableNotDefined { name }
                && name@ == expr.name@
            &&& r->Err_0.source_info == expr.source_info
            &&& r->Err_0.assert == false
        },
{
    match variables.get(expr.name.as_str()) {
        Some(v) => Ok(v),
        None => Err(
            RunnerError::new(
                expr.source_info,
                RunnerErrorKind::TemplateVariableNotDefined { name: expr.name.clone() },
                false,
            ),
        ),
    }
}

/// Renders a resolved value as text, or reports it unrenderable.
fn render_value(v: &Value, expr: &Expr) -> (r: Result<String, RunnerError>)
    ensures
        r is Ok <==> render_text(v@) is Some,
        r is Ok ==> Some(r->Ok_0@) == render_text(v@),
{
    match v {
        Value::Bool(b) => Ok(
            if *b {
                String::from_str("true")
            } else {
                String::from_str("false")
            },
        ),
        Value::Null => Ok(String::from_str("null")),
        Value::Number(n) => Ok(crate::value::number_text(n)),
        Value::String(s) => Ok(s.clone()),
        _ => Err(
            RunnerError::new(
                expr.source_info,
                RunnerErrorKind::UnrenderableExpression { value: v.repr() },
                false,
            ),
        ),
    }
}

/// Evaluates a template to text: literal pieces verbatim, placeholders
/// resolved against the variable set and rendered.
pub fn eval_template(template: &Template, variables: &VariableSet) -> (r: Result<
    String,
    RunnerError,
>)
    ensures
        r is Ok <==> template_text(*template, variables) is Some,
        r is Ok ==> Some(r->Ok_0@) == template_text(*template, variables),
{
    let mut out = String::new();
    let n = template.elements.len();
    let mut i: usize = 0;
    while i < n
        invariant
            n == template.elements@.len(),
            i <= n,
            template_text_from(template.elements@, variables, 0) matches Some(whole) ==> {
                &&& template_text_from(template.elements@, variables, i as int) is Some
                &&& out@ + template_text_from(template.elements@, variables, i as int)->0 == whole
            },
            template_text_from(template.elements@, variables, i as int) is Some ==>
                template_text_from(template.elements@, variables, 0) is Some,
        decreases n - i,
    {
        let ghost out0 = out@;
        let ghost rest = template_text_from(template.elements@, variables, i as int + 1);
        let elem = &template.elements[i];
        match elem {
            TemplateElement::Text { value, source } => {
                out.append(value.as_str());
                proof {
                    if rest is Some {
                        assert((out0 + value@) + rest->0 =~= out0 + (value@ + rest->0));
                    }
                }
            }
            TemplateElement::Placeholder(p) => {
                let resolved = match eval_expr(&p.expr, variables) {
                    Ok(v) => v,
                    Err(e) => {
                        return Err(e);
                    }
                };
                let txt = match render_value(&resolved, &p.expr) {
                    Ok(t) => t,
                    Err(e) => {
                        return Err(e);
                    }
                };
                out.append(txt.as_str());
                proof {
                    if rest is Some {
                        assert((out0 + txt@) + rest->0 =~= out0 + (txt@ + rest->0));
                    }
                }
            }
        }
        i = i + 1;
    }
    proof {
        if template_text_from(template.elements@, variables, 0) is Some {
            assert(out@ + Seq::<char>::empty() =~= out@);
        }
    }
    Ok(out)
}

} // verus!
