//! The filter grammar's syntax tree.
//!
//! Every node carries the exact source span it was parsed from, for
//! diagnostics. Filters form a closed sum type with one variant per filter
//! keyword; each variant stores its own arguments as typed fields.

use vstd::prelude::*;

use crate::reader::Pos;

verus! {

/// The span (start, end) of a node over the source text.
#[derive(Clone, Copy, Debug, PartialEq, Eq, Structural)]
pub struct SourceInfo {
    pub start: Pos,
    pub end: Pos,
}

impl SourceInfo {
    pub fn new(start: Pos, end: Pos) -> (s: SourceInfo)
        ensures
            s == (SourceInfo { start, end }),
    {
        SourceInfo { start, end }
    }
}

/// A run of blank characters, kept verbatim so the source can be reprinted.
#[derive(Clone, Debug, PartialEq, Eq)]
pub struct Whitespace {
    pub value: String,
    pub source_info: SourceInfo,
}

/// An expression inside a placeholder, resolved against a variable set at
/// evaluation time. Only plain variable references occur here.
#[derive(Clone, Debug, PartialEq, Eq)]
pub struct Expr {
    pub name: String,
    pub source_info: SourceInfo,
}

/// An embedded sub-expression `{{ expr }}`.
#[derive(Clone, Debug, PartialEq, Eq)]
pub struct Placeholder {
    pub space0: Whitespace,
    pub expr: Expr,
    pub space1: Whitespace,
    pub source_info: SourceInfo,
}

/// One piece of a template: literal text or a placeholder.
#[derive(Clone, Debug, PartialEq, Eq)]
pub enum TemplateElement {
    Text { value: String, source: String },
    Placeholder(Placeholder),
}

/// A string with optional embedded placeholders.
#[derive(Clone, Debug, PartialEq, Eq)]
pub struct Template {
    pub delimiter: Option<char>,
    pub elements: Vec<TemplateElement>,
    pub source_info: SourceInfo,
}

/// A 64-bit signed integer literal, with its source text.
#[derive(Clone, Debug, PartialEq, Eq)]
pub struct I64 {
    pub value: i64,
    pub source: String,
}

impl I64 {
    pub fn new(value: i64, source: String) -> (r: I64)
        ensures
            r.value == value,
            r.source == source,
    {
        I64 { value, source }
    }
}

/// A floating-point literal. The value is held as its IEEE754 bit pattern,
/// with the source text it was read from.
#[derive(Clone, Debug, PartialEq, Eq)]
pub struct Float {
    pub bits: u64,
    pub source: String,
}

impl Float {
    pub fn new(bits: u64, source: String) -> (r: Float)
        ensures
            r.bits == bits,
            r.source == source,
    {
        Float { bits, source }
    }
}

/// A number literal: integer, float, or an integer too large for 64 bits,
/// kept as its decimal source text.
#[derive(Clone, Debug, PartialEq, Eq)]
pub enum Number {
    Integer(I64),
    Float(Float),
    BigInteger(String),
}

/// A numeric argument: a literal or a placeholder resolved at evaluation time.
#[derive(Clone, Debug, PartialEq, Eq)]
pub enum NumberValue {
    Literal(Number),
    Placeholder(Placeholder),
}

/// An integer argument: a literal or a placeholder resolved at evaluation time.
#[derive(Clone, Debug, PartialEq, Eq)]
pub enum IntegerValue {
    Literal(I64),
    Placeholder(Placeholder),
}

/// A regular-expression literal `/pattern/`, kept as its pattern text.
#[derive(Clone, Debug, PartialEq, Eq)]
pub struct RegexLiteral {
    pub value: String,
    pub source_info: SourceInfo,
}

/// A regex argument: either a quoted template or a slash-delimited literal.
#[derive(Clone, Debug, PartialEq, Eq)]
pub enum RegexValue {
    Template(Template),
    Regex(RegexLiteral),
}

/// A single filter with its source span.
#[derive(Clone, Debug, PartialEq, Eq)]
pub struct Filter {
    pub source_info: SourceInfo,
    pub value: FilterValue,
}

/// The closed set of filter kinds, one variant per keyword.
#[derive(Clone, Debug, PartialEq, Eq)]
pub enum FilterValue {
    Add { space0: Whitespace, value: NumberValue },
    Base64Decode,
    Base64Encode,
    Base64UrlSafeDecode,
    Base64UrlSafeEncode,
    Count,
    DateFormat { space0: Whitespace, fmt: Template },
    DaysAfterNow,
    DaysBeforeNow,
    Decode { space0: Whitespace, encoding: Template },
    First,
    Format { space0: Whitespace, fmt: Template },
    HtmlEscape,
    HtmlUnescape,
    JsFilter { space0: Whitespace, name: Template, args: Vec<(Whitespace, Template)> },
    JsonPath { space0: Whitespace, expr: Template },
    Last,
    Location,
    Nth { space0: Whitespace, n: IntegerValue },
    Regex { space0: Whitespace, value: RegexValue },
    Replace { space0: Whitespace, old_value: Template, space1: Whitespace, new_value: Template },
    ReplaceRegex { space0: Whitespace, pattern: RegexValue, space1: Whitespace, new_value: Template },
    Split { space0: Whitespace, sep: Template },
    ToDate { space0: Whitespace, fmt: Template },
    ToFloat,
    ToHex,
    ToInt,
    ToString,
    UrlDecode,
    UrlEncode,
    UrlQueryParam { space0: Whitespace, param: Template },
    Utf8Decode,
    Utf8Encode,
    XPath { space0: Whitespace, expr: Template },
}

} // verus!
