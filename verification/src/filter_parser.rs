//! The filter grammar: a keyword-dispatched recognizer per filter kind, and
//! the choice engine that drives them.
//!
//! Each recognizer consumes its keyword — failing recoverably when it is
//! absent, which is the alternative-selection signal — and then parses its
//! arguments, escalating any further failure to non-recoverable so that a
//! malformed filter reports a precise diagnostic instead of `expecting
//! filter`.

use vstd::prelude::*;

use crate::ast::{
    Filter, FilterValue, IntegerValue, NumberValue, RegexLiteral, RegexValue, SourceInfo, Template,
    TemplateElement, Whitespace,
};
use crate::chars::{is_alnum, is_alnum_char, is_alpha, is_alpha_char, is_digit, is_digit_char, is_space_char};
use crate::number_parse::{
    digit_run, digit_run_len, integer, integer_accepts, number, number_accepts, number_len,
    sign_len,
};
use crate::parse_error::{ParseError, ParseErrorKind, ParseResult};
use crate::primitives::{
    expecting, one_or_more_spaces, placeholder, placeholder_accepts, placeholder_fail_at,
    placeholder_len, placeholder_name, quoted_accepts, quoted_template, quoted_len, space_run,
    try_literal, zero_or_more_spaces,
};
use crate::reader::Reader;
use crate::text::push_char;

verus! {

/// The closed set of filter keywords the choice engine can try.
#[derive(Clone, Copy, Debug, PartialEq, Eq, Structural)]
pub enum FilterKind {
    Add,
    Base64Decode,
    Base64Encode,
    Base64UrlSafeDecode,
    Base64UrlSafeEncode,
    Count,
    DaysAfterNow,
    DaysBeforeNow,
    Decode,
    First,
    Format,
    DateFormat,
    HtmlDecode,
    HtmlEncode,
    JsonPath,
    JsFilter,
    Last,
    Location,
    Nth,
    Regex,
    ReplaceRegex,
    Replace,
    Split,
    ToDate,
    ToFloat,
    ToHex,
    ToInt,
    ToString,
    UrlDecode,
    UrlEncode,
    UrlQueryParam,
    Utf8Decode,
    Utf8Encode,
    XPath,
}


/// The keyword that selects each filter kind.
pub open spec fn kind_keyword(kind: FilterKind) -> Seq<char> {
    match kind {
        FilterKind::Add => "add"@,
        FilterKind::Base64Decode => "base64Decode"@,
        FilterKind::Base64Encode => "base64Encode"@,
        FilterKind::Base64UrlSafeDecode => "base64UrlSafeDecode"@,
        FilterKind::Base64UrlSafeEncode => "base64UrlSafeEncode"@,
        FilterKind::Count => "count"@,
        FilterKind::DaysAfterNow => "daysAfterNow"@,
        FilterKind::DaysBeforeNow => "daysBeforeNow"@,
        FilterKind::Decode => "decode"@,
        FilterKind::First => "first"@,
        FilterKind::Format => "format"@,
        FilterKind::DateFormat => "dateFormat"@,
        FilterKind::HtmlDecode => "htmlUnescape"@,
        FilterKind::HtmlEncode => "htmlEscape"@,
        FilterKind::JsonPath => "jsonpath"@,
        FilterKind::JsFilter => "jsfilter"@,
        FilterKind::Last => "last"@,
        FilterKind::Location => "location"@,
        FilterKind::Nth => "nth"@,
        FilterKind::Regex => "regex"@,
        FilterKind::ReplaceRegex => "replaceRegex"@,
        FilterKind::Replace => "replace"@,
        FilterKind::Split => "split"@,
        FilterKind::ToDate => "toDate"@,
        FilterKind::ToFloat => "toFloat"@,
        FilterKind::ToHex => "toHex"@,
        FilterKind::ToInt => "toInt"@,
        FilterKind::ToString => "toString"@,
        FilterKind::UrlDecode => "urlDecode"@,
        FilterKind::UrlEncode => "urlEncode"@,
        FilterKind::UrlQueryParam => "urlQueryParam"@,
        FilterKind::Utf8Decode => "utf8Decode"@,
        FilterKind::Utf8Encode => "utf8Encode"@,
        FilterKind::XPath => "xpath"@,
    }
}

/// A sufficient condition for a recognizer to fail recoverably, handing the
/// turn to the next alternative: its keyword does not begin the remaining
/// input.
pub open spec fn surely_rejects(kind: FilterKind, s: Seq<char>) -> bool {
    !kind_keyword(kind).is_prefix_of(s)
}

/// The outcome a recognizer is bound to produce on the remaining input, when
/// one is forced: the value and the number of characters consumed. The
/// keyword-only kinds succeed exactly on their keyword. For the kinds with
/// arguments, success turns on the argument grammar as well, so no outcome
/// is forced here.
pub open spec fn sure_outcome(kind: FilterKind, s: Seq<char>) -> Option<(FilterValue, nat)> {
    if !kind_keyword(kind).is_prefix_of(s) {
        None
    } else {
        match kind {
            FilterKind::Base64Decode => Some((FilterValue::Base64Decode, "base64Decode"@.len())),
            FilterKind::Base64Encode => Some((FilterValue::Base64Encode, "base64Encode"@.len())),
            FilterKind::Base64UrlSafeDecode => Some(
                (FilterValue::Base64UrlSafeDecode, "base64UrlSafeDecode"@.len()),
            ),
            FilterKind::Base64UrlSafeEncode => Some(
                (FilterValue::Base64UrlSafeEncode, "base64UrlSafeEncode"@.len()),
            ),
            FilterKind::Count => Some((FilterValue::Count, "count"@.len())),
            FilterKind::DaysAfterNow => Some((FilterValue::DaysAfterNow, "daysAfterNow"@.len())),
            FilterKind::DaysBeforeNow => Some(
                (FilterValue::DaysBeforeNow, "daysBeforeNow"@.len()),
            ),
            FilterKind::First => Some((FilterValue::First, "first"@.len())),
            FilterKind::HtmlDecode => Some((FilterValue::HtmlUnescape, "htmlUnescape"@.len())),
            FilterKind::HtmlEncode => Some((FilterValue::HtmlEscape, "htmlEscape"@.len())),
            FilterKind::Last => Some((FilterValue::Last, "last"@.len())),
            FilterKind::Location => Some((FilterValue::Location, "location"@.len())),
            FilterKind::ToFloat => Some((FilterValue::ToFloat, "toFloat"@.len())),
            FilterKind::ToHex => Some((FilterValue::ToHex, "toHex"@.len())),
            FilterKind::ToInt => Some((FilterValue::ToInt, "toInt"@.len())),
            FilterKind::ToString => Some((FilterValue::ToString, "toString"@.len())),
            FilterKind::UrlDecode => Some((FilterValue::UrlDecode, "urlDecode"@.len())),
            FilterKind::UrlEncode => Some((FilterValue::UrlEncode, "urlEncode"@.len())),
            FilterKind::Utf8Decode => Some((FilterValue::Utf8Decode, "utf8Decode"@.len())),
            FilterKind::Utf8Encode => Some((FilterValue::Utf8Encode, "utf8Encode"@.len())),
            _ => None,
        }
    }
}

/// The fixed order in which the choice engine tries the filter keywords.
/// Order matters: a longer keyword stands before any keyword it extends, so
/// it is never shadowed.
pub open spec fn filter_kind_order() -> Seq<FilterKind> {
    seq![
        FilterKind::Add,
        FilterKind::Base64Decode,
        FilterKind::Base64Encode,
        FilterKind::Base64UrlSafeDecode,
        FilterKind::Base64UrlSafeEncode,
        FilterKind::Count,
        FilterKind::DaysAfterNow,
        FilterKind::DaysBeforeNow,
        FilterKind::Decode,
        FilterKind::First,
        FilterKind::Format,
        FilterKind::DateFormat,
        FilterKind::HtmlDecode,
        FilterKind::HtmlEncode,
        FilterKind::JsonPath,
        FilterKind::JsFilter,
        FilterKind::Last,
        FilterKind::Location,
        FilterKind::Nth,
        FilterKind::Regex,
        FilterKind::ReplaceRegex,
        FilterKind::Replace,
        FilterKind::Split,
        FilterKind::ToDate,
        FilterKind::ToFloat,
        FilterKind::ToHex,
        FilterKind::ToInt,
        FilterKind::ToString,
        FilterKind::UrlDecode,
        FilterKind::UrlEncode,
        FilterKind::UrlQueryParam,
        FilterKind::Utf8Decode,
        FilterKind::Utf8Encode,
        FilterKind::XPath,
    ]
}

/// Where the regex argument position stands: past the keyword and the blanks.
pub open spec fn regex_commit_offset(s: Seq<char>) -> nat {
    ("regex"@.len() + space_run(s.skip("regex"@.len() as int))) as nat
}

/// The regex keyword has matched, blanks follow, and the value position
/// holds neither a quote nor a slash: the recognizer is bound to fail
/// committed there.
pub open spec fn regex_surely_commits(s: Seq<char>) -> bool {
    &&& "regex"@.is_prefix_of(s)
    &&& "regex"@.len() < s.len()
    &&& is_space_char(s["regex"@.len() as int])
    &&& ({
        let k = regex_commit_offset(s) as int;
        k >= s.len() || (s[k] != '"' && s[k] != '/')
    })
}

/// A condition forcing a recognizer to fail committed, with the diagnostic it
/// then reports: the expected-token text and the offset of the failure. Only
/// the regex argument position is characterized this way.
pub open spec fn sure_commit(kind: FilterKind, s: Seq<char>) -> Option<(Seq<char>, nat)> {
    match kind {
        FilterKind::Regex => if regex_surely_commits(s) {
            Some(("\" or /"@, regex_commit_offset(s)))
        } else {
            None
        },
        _ => None,
    }
}

/// The committed failure the choice engine is bound to report on `s`: kinds
/// whose keyword is absent are skipped; the first kind whose keyword begins
/// the input decides, when a committed failure is forced for it at all.
pub open spec fn first_sure_commit(kinds: Seq<FilterKind>, s: Seq<char>) -> Option<
    (Seq<char>, nat),
>
    decreases kinds.len(),
{
    if kinds.len() == 0 {
        None
    } else if surely_rejects(kinds[0], s) {
        first_sure_commit(kinds.skip(1), s)
    } else {
        sure_commit(kinds[0], s)
    }
}

/// The keyword-and-blank head shared by every argument-taking recognizer:
/// when the keyword and at least one blank stand at the head, the offset of
/// the argument position; otherwise nothing.
pub open spec fn kw_arg_at(kw: Seq<char>, s: Seq<char>) -> Option<int> {
    if kw.is_prefix_of(s) && kw.len() < s.len() && is_space_char(s[kw.len() as int]) {
        Some(kw.len() as int + space_run(s.skip(kw.len() as int)) as int)
    } else {
        None
    }
}

/// A condition forcing a recognizer to succeed, with the number of
/// characters it then consumes: for a keyword-only kind, its keyword at the
/// head; for a kind with arguments, the keyword, a blank, and accepted
/// arguments.
pub open spec fn sure_accept(kind: FilterKind, s: Seq<char>) -> Option<int> {
    match kind {
        FilterKind::Add => match kw_arg_at("add"@, s) {
            Some(k) => if number_accepts(s.skip(k)) || placeholder_accepts(s.skip(k)) {
                Some(k + number_value_len(s.skip(k)))
            } else {
                None
            },
            None => None,
        },
        FilterKind::Nth => match kw_arg_at("nth"@, s) {
            Some(k) => if integer_accepts(s.skip(k)) || placeholder_accepts(s.skip(k)) {
                Some(k + integer_value_len(s.skip(k)))
            } else {
                None
            },
            None => None,
        },
        FilterKind::Decode => template_kind_accept("decode"@, s),
        FilterKind::Format => template_kind_accept("format"@, s),
        FilterKind::DateFormat => template_kind_accept("dateFormat"@, s),
        FilterKind::ToDate => template_kind_accept("toDate"@, s),
        FilterKind::JsonPath => template_kind_accept("jsonpath"@, s),
        FilterKind::Split => template_kind_accept("split"@, s),
        FilterKind::UrlQueryParam => template_kind_accept("urlQueryParam"@, s),
        FilterKind::XPath => template_kind_accept("xpath"@, s),
        FilterKind::Replace => match kw_arg_at("replace"@, s) {
            Some(k) => if quoted_accepts(s.skip(k)) {
                match kw_second_template_at(s, k + quoted_len(s.skip(k))) {
                    Some(k3) => if quoted_accepts(s.skip(k3)) {
                        Some(k3 + quoted_len(s.skip(k3)))
                    } else {
                        None
                    },
                    None => None,
                }
            } else {
                None
            },
            None => None,
        },
        FilterKind::Regex => match kw_arg_at("regex"@, s) {
            Some(k) => if regex_value_accepts(s.skip(k)) {
                Some(k + regex_value_len(s.skip(k)))
            } else {
                None
            },
            None => None,
        },
        FilterKind::ReplaceRegex => match kw_arg_at("replaceRegex"@, s) {
            Some(k) => if regex_value_accepts(s.skip(k)) {
                match kw_second_template_at(s, k + regex_value_len(s.skip(k))) {
                    Some(k3) => if quoted_accepts(s.skip(k3)) {
                        Some(k3 + quoted_len(s.skip(k3)))
                    } else {
                        None
                    },
                    None => None,
                }
            } else {
                None
            },
            None => None,
        },
        FilterKind::JsFilter => match kw_arg_at("jsfilter"@, s) {
            Some(n) => if script_name_len(s.skip(n)) > 0 {
                match args_scan(s, n + script_name_len(s.skip(n)) as int) {
                    Some(scan) => Some(scan.0),
                    None => None,
                }
            } else {
                None
            },
            None => None,
        },
        _ => match sure_outcome(kind, s) {
            Some(o) => Some(o.1 as int),
            None => None,
        },
    }
}

/// The argument position of a single-template kind, when everything up to
/// and including its template accepts.
pub open spec fn template_kind_accept(kw: Seq<char>, s: Seq<char>) -> Option<int> {
    match kw_arg_at(kw, s) {
        Some(k) => if quoted_accepts(s.skip(k)) {
            Some(k + quoted_len(s.skip(k)))
        } else {
            None
        },
        None => None,
    }
}

/// The position after the blanks that separate a kind's second template,
/// when a blank stands right after the first argument.
pub open spec fn kw_second_template_at(s: Seq<char>, k2: int) -> Option<int> {
    if k2 < s.len() && is_space_char(s[k2]) {
        Some(k2 + space_run(s.skip(k2)) as int)
    } else {
        None
    }
}

/// A condition forcing a recognizer to fail committed, so that no later
/// alternative is tried: its keyword and a blank have matched, but its
/// arguments do not accept — except where the failing argument itself stays
/// recoverable (a template's missing opening quote, or a missing blank
/// before a second argument).
pub open spec fn kind_commits(kind: FilterKind, s: Seq<char>) -> bool {
    match kind {
        FilterKind::Add => match kw_arg_at("add"@, s) {
            Some(k) => !(number_accepts(s.skip(k)) || placeholder_accepts(s.skip(k))),
            None => false,
        },
        FilterKind::Nth => match kw_arg_at("nth"@, s) {
            Some(k) => !(integer_accepts(s.skip(k)) || placeholder_accepts(s.skip(k))),
            None => false,
        },
        FilterKind::Decode => template_kind_commits("decode"@, s, false),
        FilterKind::Format => template_kind_commits("format"@, s, false),
        FilterKind::DateFormat => template_kind_commits("dateFormat"@, s, false),
        FilterKind::ToDate => template_kind_commits("toDate"@, s, false),
        FilterKind::JsonPath => template_kind_commits("jsonpath"@, s, true),
        FilterKind::Split => template_kind_commits("split"@, s, true),
        FilterKind::UrlQueryParam => template_kind_commits("urlQueryParam"@, s, true),
        FilterKind::XPath => template_kind_commits("xpath"@, s, true),
        FilterKind::Regex => match kw_arg_at("regex"@, s) {
            Some(k) => !regex_value_accepts(s.skip(k)),
            None => false,
        },
        FilterKind::Replace => match kw_arg_at("replace"@, s) {
            Some(k) => if !quoted_accepts(s.skip(k)) {
                true
            } else {
                match kw_second_template_at(s, k + quoted_len(s.skip(k))) {
                    Some(k3) => !quoted_accepts(s.skip(k3)),
                    None => false,
                }
            },
            None => false,
        },
        FilterKind::ReplaceRegex => match kw_arg_at("replaceRegex"@, s) {
            Some(k) => if !regex_value_accepts(s.skip(k)) {
                true
            } else {
                match kw_second_template_at(s, k + regex_value_len(s.skip(k))) {
                    Some(k3) => !quoted_accepts(s.skip(k3)),
                    None => false,
                }
            },
            None => false,
        },
        FilterKind::JsFilter => match kw_arg_at("jsfilter"@, s) {
            Some(n) => script_name_len(s.skip(n)) == 0 || (args_scan(
                s,
                n + script_name_len(s.skip(n)) as int,
            ) is None),
            None => false,
        },
        _ => false,
    }
}

/// A single-template kind is committed when its template fails — always for
/// the escalating kinds, and only past an opening quote for the others.
pub open spec fn template_kind_commits(kw: Seq<char>, s: Seq<char>, escalates: bool) -> bool {
    match kw_arg_at(kw, s) {
        Some(k) => !quoted_accepts(s.skip(k)) && (escalates || (k < s.len() && s[k] == '"')),
        None => false,
    }
}

/// The committed abort the choice engine is bound to make on `s`: the first
/// kind whose keyword begins the input halts the whole parse when its
/// arguments force a committed failure.
pub open spec fn first_sure_halt(kinds: Seq<FilterKind>, s: Seq<char>) -> bool
    decreases kinds.len(),
{
    if kinds.len() == 0 {
        false
    } else if surely_rejects(kinds[0], s) {
        first_sure_halt(kinds.skip(1), s)
    } else {
        kind_commits(kinds[0], s)
    }
}

/// The value a kind's recognizer produces belongs to that kind.
pub open spec fn kind_matches(kind: FilterKind, v: FilterValue) -> bool {
    match kind {
        FilterKind::Add => v is Add,
        FilterKind::Base64Decode => v == FilterValue::Base64Decode,
        FilterKind::Base64Encode => v == FilterValue::Base64Encode,
        FilterKind::Base64UrlSafeDecode => v == FilterValue::Base64UrlSafeDecode,
        FilterKind::Base64UrlSafeEncode => v == FilterValue::Base64UrlSafeEncode,
        FilterKind::Count => v == FilterValue::Count,
        FilterKind::DaysAfterNow => v == FilterValue::DaysAfterNow,
        FilterKind::DaysBeforeNow => v == FilterValue::DaysBeforeNow,
        FilterKind::Decode => v is Decode,
        FilterKind::First => v == FilterValue::First,
        FilterKind::Format => v is Format,
        FilterKind::DateFormat => v is DateFormat,
        FilterKind::HtmlDecode => v == FilterValue::HtmlUnescape,
        FilterKind::HtmlEncode => v == FilterValue::HtmlEscape,
        FilterKind::JsonPath => v is JsonPath,
        FilterKind::JsFilter => v is JsFilter,
        FilterKind::Last => v == FilterValue::Last,
        FilterKind::Location => v == FilterValue::Location,
        FilterKind::Nth => v is Nth,
        FilterKind::Regex => v is Regex,
        FilterKind::ReplaceRegex => v is ReplaceRegex,
        FilterKind::Replace => v is Replace,
        FilterKind::Split => v is Split,
        FilterKind::ToDate => v is ToDate,
        FilterKind::ToFloat => v == FilterValue::ToFloat,
        FilterKind::ToHex => v == FilterValue::ToHex,
        FilterKind::ToInt => v == FilterValue::ToInt,
        FilterKind::ToString => v == FilterValue::ToString,
        FilterKind::UrlDecode => v == FilterValue::UrlDecode,
        FilterKind::UrlEncode => v == FilterValue::UrlEncode,
        FilterKind::UrlQueryParam => v is UrlQueryParam,
        FilterKind::Utf8Decode => v == FilterValue::Utf8Decode,
        FilterKind::Utf8Encode => v == FilterValue::Utf8Encode,
        FilterKind::XPath => v is XPath,
    }
}

/// The choice the engine is bound to make on `s`: kinds whose keyword is
/// absent are skipped; the first kind whose keyword begins the input
/// decides, when it is forced to accept at all, with the characters it then
/// consumes.
pub open spec fn first_sure_accept(kinds: Seq<FilterKind>, s: Seq<char>) -> Option<
    (FilterKind, int),
>
    decreases kinds.len(),
{
    if kinds.len() == 0 {
        None
    } else if surely_rejects(kinds[0], s) {
        first_sure_accept(kinds.skip(1), s)
    } else {
        match sure_accept(kinds[0], s) {
            Some(l) => Some((kinds[0], l)),
            None => None,
        }
    }
}

/// What the chain parser is bound to do from offset `k` of a text, when the
/// forced-outcome layer decides every step: the chain ends (with its length
/// and element count), a committed failure surfaces (with its diagnostic
/// text and offset), or nothing is forced.
pub enum ChainOutcome {
    Parsed(int, nat),
    Halted(Seq<char>, int),
    Undecided,
}

/// Scans a filter chain from offset `k`: each element needs blanks before
/// it; the chain ends before blanks no filter follows, leaving them
/// unconsumed.
pub open spec fn chain_scan(s: Seq<char>, k: int) -> ChainOutcome
    decreases s.len() - k,
{
    if k < 0 || k > s.len() {
        ChainOutcome::Undecided
    } else {
        let r = space_run(s.skip(k)) as int;
        if r == 0 {
            ChainOutcome::Parsed(k, 0)
        } else {
            let k2 = k + r;
            if all_surely_rejected(filter_kind_order(), s.skip(k2)) {
                ChainOutcome::Parsed(k, 0)
            } else {
                match first_sure_commit(filter_kind_order(), s.skip(k2)) {
                    Some(c) => ChainOutcome::Halted(c.0, k2 + c.1),
                    None => match first_sure_accept(filter_kind_order(), s.skip(k2)) {
                        Some(kl) => {
                            let j = k2 + kl.1;
                            if k < j <= s.len() {
                                match chain_scan(s, j) {
                                    ChainOutcome::Parsed(end, n) => ChainOutcome::Parsed(
                                        end,
                                        (n + 1) as nat,
                                    ),
                                    other => other,
                                }
                            } else {
                                ChainOutcome::Undecided
                            }
                        },
                        None => ChainOutcome::Undecided,
                    },
                }
            }
        }
    }
}

/// Every kind in the list is surely rejected: no keyword begins the input.
pub open spec fn all_surely_rejected(kinds: Seq<FilterKind>, s: Seq<char>) -> bool
    decreases kinds.len(),
{
    if kinds.len() == 0 {
        true
    } else {
        surely_rejects(kinds[0], s) && all_surely_rejected(kinds.skip(1), s)
    }
}

/// The outcome the choice engine is bound to produce on `s`: kinds whose
/// keyword is absent are skipped; the first kind whose keyword begins the
/// input decides, when an outcome is forced for it at all.
pub open spec fn first_sure_outcome(kinds: Seq<FilterKind>, s: Seq<char>) -> Option<
    (FilterValue, nat),
>
    decreases kinds.len(),
{
    if kinds.len() == 0 {
        None
    } else if surely_rejects(kinds[0], s) {
        first_sure_outcome(kinds.skip(1), s)
    } else {
        sure_outcome(kinds[0], s)
    }
}

/// Parses a list of filters, each preceded by at least one blank. A
/// recoverable failure after the blanks ends the list; a committed failure
/// aborts it.
pub fn filters(reader: &mut Reader) -> (r: ParseResult<Vec<(Whitespace, Filter)>>)
    requires
        old(reader).wf(),
    ensures
        final(reader).wf(),
        final(reader)@ == old(reader)@,
        final(reader).spec_index() >= old(reader).spec_index(),
        r is Err ==> !r->Err_0.recoverable,
        r is Ok ==> forall|i: int|
            0 <= i < r->Ok_0@.len() ==> (#[trigger] r->Ok_0@[i].0.value@.len() > 0
                && forall|j: int|
                0 <= j < r->Ok_0@[i].0.value@.len() ==> is_space_char(
                    #[trigger] r->Ok_0@[i].0.value@[j],
                )),
        chain_scan(old(reader).remaining(), 0) matches ChainOutcome::Parsed(end, count) ==> r
            is Ok && final(reader).spec_index() == old(reader).spec_index() + end
            && r->Ok_0@.len() == count,
        chain_scan(old(reader).remaining(), 0) matches ChainOutcome::Halted(txt, off) ==> r
            is Err && !r->Err_0.recoverable && (r->Err_0.kind
            matches ParseErrorKind::Expecting { value } && value@ == txt)
            && r->Err_0.pos == crate::reader::pos_at(
            old(reader)@,
            old(reader).spec_index() + off,
        ),
{
    let ghost entry = old(reader).remaining();
    let mut out: Vec<(Whitespace, Filter)> = Vec::new();
    loop
        invariant_except_break
            reader.wf(),
            reader@ == old(reader)@,
            entry == old(reader).remaining(),
            reader.spec_index() >= old(reader).spec_index(),
            (chain_scan(entry, 0) is Parsed || chain_scan(entry, 0) is Halted) ==> chain_scan(
                entry,
                0,
            ) == (match chain_scan(entry, reader.spec_index() - old(reader).spec_index()) {
                ChainOutcome::Parsed(end, n) => ChainOutcome::Parsed(
                    end,
                    (n + out@.len()) as nat,
                ),
                other => other,
            }),
            forall|i: int|
                0 <= i < out@.len() ==> (#[trigger] out@[i].0.value@.len() > 0 && forall|j: int|
                    0 <= j < out@[i].0.value@.len() ==> is_space_char(
                        #[trigger] out@[i].0.value@[j],
                    )),
        ensures
            reader.wf(),
            reader@ == old(reader)@,
            reader.spec_index() >= old(reader).spec_index(),
            chain_scan(entry, 0) matches ChainOutcome::Parsed(end, count) ==> reader.spec_index()
                == old(reader).spec_index() + end && out@.len() == count,
            !(chain_scan(entry, 0) is Halted),
            forall|i: int|
                0 <= i < out@.len() ==> (#[trigger] out@[i].0.value@.len() > 0 && forall|j: int|
                    0 <= j < out@[i].0.value@.len() ==> is_space_char(
                        #[trigger] out@[i].0.value@[j],
                    )),
        decreases reader@.len() - reader.spec_index(),
    {
        let ghost rel = reader.spec_index() - old(reader).spec_index();
        proof {
            assert(reader.remaining() =~= entry.skip(rel));
        }
        let save = reader.cursor();
        let space = zero_or_more_spaces(reader);
        if space.value.as_str().unicode_len() == 0 {
            break;
        }
        let ghost k2 = rel + space_run(entry.skip(rel)) as int;
        proof {
            assert(reader.remaining() =~= entry.skip(k2));
        }
        match filter(reader) {
            Ok(f) => {
                let ghost before = out@;
                let ghost spv = space.value@;
                proof {
                    assert(spv.len() > 0);
                    assert forall|j: int| 0 <= j < spv.len() implies is_space_char(spv[j]) by {
                        assert(is_space_char(space.value@[j]));
                    }
                }
                out.push((space, f));
                proof {
                    let n0 = before.len() as int;
                    assert(out@[n0].0.value@ == spv);
                    assert forall|i: int|
                        0 <= i < out@.len() implies (#[trigger] out@[i].0.value@.len() > 0
                        && forall|j: int|
                        0 <= j < out@[i].0.value@.len() ==> is_space_char(
                            #[trigger] out@[i].0.value@[j],
                        )) by {
                        if i < n0 {
                            assert(out@[i] == before[i]);
                            assert(before[i].0.value@.len() > 0);
                        }
                    }
                }
            }
            Err(e) => {
                if e.recoverable {
                    reader.seek(save);
                    break;
                } else {
                    return Err(e);
                }
            }
        }
    }
    Ok(out)
}

/// Parses one filter: tries every keyword in order from a fixed position.
/// When no alternative matches, the failure is a single recoverable
/// `expecting filter`; a committed failure from a matched keyword is
/// reported as it is.
pub fn filter(reader: &mut Reader) -> (r: ParseResult<Filter>)
    requires
        old(reader).wf(),
    ensures
        final(reader).wf(),
        final(reader)@ == old(reader)@,
        final(reader).spec_index() >= old(reader).spec_index(),
        r is Ok ==> {
            &&& r->Ok_0.source_info.start == old(reader).cursor_spec().pos
            &&& r->Ok_0.source_info.end == final(reader).cursor_spec().pos
            &&& final(reader).spec_index() >= old(reader).spec_index()
        },
        r is Err && r->Err_0.recoverable ==> {
            &&& final(reader).cursor_spec() == old(reader).cursor_spec()
            &&& r->Err_0.kind matches ParseErrorKind::Expecting { value } && value@ == "filter"@
        },
        first_sure_outcome(filter_kind_order(), old(reader).remaining()) matches Some(o) ==> r
            is Ok && r->Ok_0.value == o.0 && final(reader).spec_index() == old(
            reader,
        ).spec_index() + o.1,
        all_surely_rejected(filter_kind_order(), old(reader).remaining()) ==> r is Err
            && r->Err_0.recoverable && r->Err_0.pos == old(reader).cursor_spec().pos,
        first_sure_commit(filter_kind_order(), old(reader).remaining()) matches Some(c) ==> r
            is Err && !r->Err_0.recoverable && (r->Err_0.kind
            matches ParseErrorKind::Expecting { value } && value@ == c.0)
            && r->Err_0.pos == crate::reader::pos_at(
            old(reader)@,
            old(reader).spec_index() + c.1,
        ),
        first_sure_accept(filter_kind_order(), old(reader).remaining()) matches Some(kl) ==> r
            is Ok && final(reader).spec_index() == old(reader).spec_index() + kl.1
            && kind_matches(kl.0, r->Ok_0.value),
        first_sure_halt(filter_kind_order(), old(reader).remaining()) ==> r is Err
            && !r->Err_0.recoverable,
{
    let start = reader.cursor();
    let kinds: [FilterKind; 34] = [
        FilterKind::Add,
        FilterKind::Base64Decode,
        FilterKind::Base64Encode,
        FilterKind::Base64UrlSafeDecode,
        FilterKind::Base64UrlSafeEncode,
        FilterKind::Count,
        FilterKind::DaysAfterNow,
        FilterKind::DaysBeforeNow,
        FilterKind::Decode,
        FilterKind::First,
        FilterKind::Format,
        FilterKind::DateFormat,
        FilterKind::HtmlDecode,
        FilterKind::HtmlEncode,
        FilterKind::JsonPath,
        FilterKind::JsFilter,
        FilterKind::Last,
        FilterKind::Location,
        FilterKind::Nth,
        FilterKind::Regex,
        FilterKind::ReplaceRegex,
        FilterKind::Replace,
        FilterKind::Split,
        FilterKind::ToDate,
        FilterKind::ToFloat,
        FilterKind::ToHex,
        FilterKind::ToInt,
        FilterKind::ToString,
        FilterKind::UrlDecode,
        FilterKind::UrlEncode,
        FilterKind::UrlQueryParam,
        FilterKind::Utf8Decode,
        FilterKind::Utf8Encode,
        FilterKind::XPath,
    ];
    proof {
        assert(kinds@ =~= filter_kind_order());
    }
    let value = match choice(&kinds, reader) {
        Ok(v) => v,
        Err(e) => {
            if e.recoverable {
                reader.seek(start);
                return Err(
                    ParseError {
                        pos: e.pos,
                        recoverable: true,
                        kind: ParseErrorKind::Expecting { value: String::from_str("filter") },
                    },
                );
            } else {
                return Err(e);
            }
        }
    };
    let end = reader.cursor();
    let source_info = SourceInfo { start: start.pos, end: end.pos };
    Ok(Filter { source_info, value })
}

/// Tries each alternative in listed order from a fixed saved position. A
/// success returns immediately; a recoverable failure restores the position
/// and moves on; a committed failure aborts without trying siblings. When
/// every alternative fails recoverably, the last failure is handed back,
/// still recoverable.
pub fn choice(kinds: &[FilterKind], reader: &mut Reader) -> (r: ParseResult<FilterValue>)
    requires
        old(reader).wf(),
    ensures
        final(reader).wf(),
        final(reader)@ == old(reader)@,
        final(reader).spec_index() >= old(reader).spec_index(),
        r is Err && r->Err_0.recoverable ==> final(reader).cursor_spec() == old(
            reader,
        ).cursor_spec(),
        first_sure_outcome(kinds@, old(reader).remaining()) matches Some(o) ==> r is Ok
            && r->Ok_0 == o.0 && final(reader).spec_index() == old(reader).spec_index() + o.1,
        all_surely_rejected(kinds@, old(reader).remaining()) ==> r is Err
            && r->Err_0.recoverable && r->Err_0.pos == old(reader).cursor_spec().pos,
        first_sure_commit(kinds@, old(reader).remaining()) matches Some(c) ==> r is Err
            && !r->Err_0.recoverable && (r->Err_0.kind matches ParseErrorKind::Expecting { value }
            && value@ == c.0) && r->Err_0.pos == crate::reader::pos_at(
            old(reader)@,
            old(reader).spec_index() + c.1,
        ),
        first_sure_accept(kinds@, old(reader).remaining()) matches Some(kl) ==> r is Ok
            && final(reader).spec_index() == old(reader).spec_index() + kl.1 && kind_matches(
            kl.0,
            r->Ok_0,
        ),
        first_sure_halt(kinds@, old(reader).remaining()) ==> r is Err && !r->Err_0.recoverable,
{
    let save = reader.cursor();
    let n = kinds.len();
    let mut i: usize = 0;
    let mut last: ParseError = expecting("filter", save.pos, true);
    proof {
        assert(kinds@.skip(0) =~= kinds@);
    }
    while i < n
        invariant
            n == kinds@.len(),
            i <= n,
            reader.wf(),
            reader@ == old(reader)@,
            reader.cursor_spec() == old(reader).cursor_spec(),
            save == old(reader).cursor_spec(),
            last.recoverable,
            first_sure_outcome(kinds@, old(reader).remaining()) is Some ==> first_sure_outcome(
                kinds@.skip(i as int),
                old(reader).remaining(),
            ) == first_sure_outcome(kinds@, old(reader).remaining()),
            all_surely_rejected(kinds@, old(reader).remaining()) ==> (all_surely_rejected(
                kinds@.skip(i as int),
                old(reader).remaining(),
            ) && last.pos == old(reader).cursor_spec().pos),
            first_sure_commit(kinds@, old(reader).remaining()) is Some ==> first_sure_commit(
                kinds@.skip(i as int),
                old(reader).remaining(),
            ) == first_sure_commit(kinds@, old(reader).remaining()),
            first_sure_accept(kinds@, old(reader).remaining()) is Some ==> first_sure_accept(
                kinds@.skip(i as int),
                old(reader).remaining(),
            ) == first_sure_accept(kinds@, old(reader).remaining()),
            first_sure_halt(kinds@, old(reader).remaining()) ==> first_sure_halt(
                kinds@.skip(i as int),
                old(reader).remaining(),
            ),
        decreases n - i,
    {
        proof {
            assert(kinds@.skip(i as int)[0] == kinds@[i as int]);
            assert(kinds@.skip(i as int).skip(1) =~= kinds@.skip(i as int + 1));
        }
        match parse_filter_kind(&kinds[i], reader) {
            Ok(v) => {
                return Ok(v);
            }
            Err(e) => {
                if e.recoverable {
                    reader.seek(save);
                    last = e;
                } else {
                    return Err(e);
                }
            }
        }
        i = i + 1;
    }
    proof {
        assert(kinds@.skip(n as int) =~= Seq::<FilterKind>::empty());
    }
    Err(last)
}

/// Dispatches to the recognizer for one filter keyword. A keyword-only kind
/// whose keyword begins the input is bound to succeed with its value; a kind
/// whose keyword is absent is bound to fail recoverably at the entry
/// position.
fn parse_filter_kind(kind: &FilterKind, reader: &mut Reader) -> (r: ParseResult<FilterValue>)
    requires
        old(reader).wf(),
    ensures
        final(reader).wf(),
        final(reader)@ == old(reader)@,
        final(reader).spec_index() >= old(reader).spec_index(),
        sure_outcome(*kind, old(reader).remaining()) matches Some(o) ==> r is Ok && r->Ok_0 == o.0
            && final(reader).spec_index() == old(reader).spec_index() + o.1,
        r is Ok ==> kind_keyword(*kind).is_prefix_of(old(reader).remaining()),
        surely_rejects(*kind, old(reader).remaining()) && r is Err ==> r->Err_0.recoverable
            && r->Err_0.pos == old(reader).cursor_spec().pos,
        sure_commit(*kind, old(reader).remaining()) matches Some(c) ==> r is Err
            && !r->Err_0.recoverable && (r->Err_0.kind matches ParseErrorKind::Expecting { value }
            && value@ == c.0) && r->Err_0.pos == crate::reader::pos_at(
            old(reader)@,
            old(reader).spec_index() + c.1,
        ),
        sure_accept(*kind, old(reader).remaining()) matches Some(l) ==> r is Ok
            && final(reader).spec_index() == old(reader).spec_index() + l && kind_matches(
            *kind,
            r->Ok_0,
        ),
        kind_commits(*kind, old(reader).remaining()) ==> r is Err && !r->Err_0.recoverable,
{
    match kind {
        FilterKind::Add => add_filter(reader),
        FilterKind::Base64Decode => base64_decode_filter(reader),
        FilterKind::Base64Encode => base64_encode_filter(reader),
        FilterKind::Base64UrlSafeDecode => base64_url_safe_decode_filter(reader),
        FilterKind::Base64UrlSafeEncode => base64_url_safe_encode_filter(reader),
        FilterKind::Count => count_filter(reader),
        FilterKind::DaysAfterNow => days_after_now_filter(reader),
        FilterKind::DaysBeforeNow => days_before_now_filter(reader),
        FilterKind::Decode => decode_filter(reader),
        FilterKind::First => first_filter(reader),
        FilterKind::Format => format_filter(reader),
        FilterKind::DateFormat => date_format_filter(reader),
        FilterKind::HtmlDecode => html_decode_filter(reader),
        FilterKind::HtmlEncode => html_encode_filter(reader),
        FilterKind::JsonPath => jsonpath_filter(reader),
        FilterKind::JsFilter => jsfilter_filter(reader),
        FilterKind::Last => last_filter(reader),
        FilterKind::Location => location_filter(reader),
        FilterKind::Nth => nth_filter(reader),
        FilterKind::Regex => regex_filter(reader),
        FilterKind::ReplaceRegex => replace_regex_filter(reader),
        FilterKind::Replace => replace_filter(reader),
        FilterKind::Split => split_filter(reader),
        FilterKind::ToDate => to_date_filter(reader),
        FilterKind::ToFloat => to_float_filter(reader),
        FilterKind::ToHex => to_hex_filter(reader),
        FilterKind::ToInt => to_int_filter(reader),
        FilterKind::ToString => to_string_filter(reader),
        FilterKind::UrlDecode => url_decode_filter(reader),
        FilterKind::UrlEncode => url_encode_filter(reader),
        FilterKind::UrlQueryParam => url_query_param_filter(reader),
        FilterKind::Utf8Decode => utf8_decode_filter(reader),
        FilterKind::Utf8Encode => utf8_encode_filter(reader),
        FilterKind::XPath => xpath_filter(reader),
    }
}

fn add_filter(reader: &mut Reader) -> (r: ParseResult<FilterValue>)
    requires
        old(reader).wf(),
    ensures
        final(reader).wf(),
        final(reader)@ == old(reader)@,
        final(reader).spec_index() >= old(reader).spec_index(),
        r is Ok ==> r->Ok_0 is Add && final(reader).spec_index() > old(reader).spec_index()
            && "add"@.is_prefix_of(old(reader).remaining()),
        r is Err && !("add"@.is_prefix_of(old(reader).remaining())) ==> r->Err_0.recoverable
            && r->Err_0.pos == old(reader).cursor_spec().pos,
        r is Ok <==> ({
            let s = old(reader).remaining();
            &&& "add"@.is_prefix_of(s)
            &&& "add"@.len() < s.len() && is_space_char(s["add"@.len() as int])
            &&& ({
                let k = "add"@.len() as int + space_run(s.skip("add"@.len() as int)) as int;
                number_accepts(s.skip(k)) || placeholder_accepts(s.skip(k))
            })
        }),
        r is Ok ==> final(reader).spec_index() == old(reader).spec_index() + ({
            let s = old(reader).remaining();
            let k = "add"@.len() as int + space_run(s.skip("add"@.len() as int)) as int;
            k + number_value_len(s.skip(k))
        }),
        r is Err ==> (r->Err_0.recoverable <==> !("add"@.is_prefix_of(old(reader).remaining())
            && "add"@.len() < old(reader).remaining().len() && is_space_char(
            old(reader).remaining()["add"@.len() as int],
        ))),
{
    proof {
        reveal_strlit("add");
    }
    let ghost entry = old(reader).remaining();
    match try_literal("add", reader) {
        Ok(u) => {}
        Err(e) => {
            return Err(e);
        }
    }
    proof {
        assert(reader.remaining() =~= entry.skip("add"@.len() as int));
    }
    let space0 = match one_or_more_spaces(reader) {
        Ok(s) => s,
        Err(e) => {
            return Err(e);
        }
    };
    proof {
        assert(reader.remaining() =~= entry.skip(
            "add"@.len() as int + space_run(entry.skip("add"@.len() as int)) as int,
        ));
    }
    let value = match number_value(reader) {
        Ok(v) => v,
        Err(e) => {
            return Err(e);
        }
    };
    Ok(FilterValue::Add { space0, value })
}

/// How many characters a number argument takes: the literal when one is
/// accepted, else the placeholder.
pub open spec fn number_value_len(s: Seq<char>) -> int {
    if number_accepts(s) {
        number_len(s)
    } else {
        placeholder_len(s)
    }
}

/// How many characters an integer argument takes: the literal when one is
/// accepted, else the placeholder.
pub open spec fn integer_value_len(s: Seq<char>) -> int {
    if integer_accepts(s) {
        sign_len(s) + digit_run_len(s.skip(sign_len(s))) as int
    } else {
        placeholder_len(s)
    }
}

/// Parses a number argument: a literal, or failing that a placeholder, whose
/// own failure is committed with an `expecting number` diagnostic.
fn number_value(reader: &mut Reader) -> (r: ParseResult<NumberValue>)
    requires
        old(reader).wf(),
    ensures
        final(reader).wf(),
        final(reader)@ == old(reader)@,
        final(reader).spec_index() >= old(reader).spec_index(),
        r is Ok <==> (number_accepts(old(reader).remaining()) || placeholder_accepts(
            old(reader).remaining(),
        )),
        number_accepts(old(reader).remaining()) ==> r is Ok && r->Ok_0 is Literal,
        r is Ok ==> final(reader).spec_index() == old(reader).spec_index() + number_value_len(
            old(reader).remaining(),
        ),
        !number_accepts(old(reader).remaining()) && placeholder_accepts(old(reader).remaining())
            ==> r is Ok && r->Ok_0 is Placeholder,
        r is Err ==> !r->Err_0.recoverable && (r->Err_0.kind
            matches ParseErrorKind::Expecting { value } && value@ == "number"@)
            && r->Err_0.pos == crate::reader::pos_at(
            old(reader)@,
            old(reader).spec_index() + placeholder_fail_at(old(reader).remaining()),
        ),
        r is Ok ==> final(reader).spec_index() > old(reader).spec_index(),
{
    let start = reader.cursor();
    match number(reader) {
        Ok(v) => Ok(NumberValue::Literal(v)),
        Err(prev) => {
            reader.seek(start);
            match placeholder(reader) {
                Ok(p) => Ok(NumberValue::Placeholder(p)),
                Err(e) => {
                    let kind = ParseErrorKind::Expecting { value: String::from_str("number") };
                    Err(ParseError::new(e.pos, false, kind))
                }
            }
        }
    }
}

/// Parses an integer argument: a literal, or failing that a placeholder,
/// whose own failure is committed with an `expecting integer` diagnostic.
fn integer_value(reader: &mut Reader) -> (r: ParseResult<IntegerValue>)
    requires
        old(reader).wf(),
    ensures
        final(reader).wf(),
        final(reader)@ == old(reader)@,
        final(reader).spec_index() >= old(reader).spec_index(),
        r is Ok <==> (integer_accepts(old(reader).remaining()) || placeholder_accepts(
            old(reader).remaining(),
        )),
        integer_accepts(old(reader).remaining()) ==> r is Ok && r->Ok_0 is Literal,
        r is Ok ==> final(reader).spec_index() == old(reader).spec_index() + integer_value_len(
            old(reader).remaining(),
        ),
        !integer_accepts(old(reader).remaining()) && placeholder_accepts(old(reader).remaining())
            ==> r is Ok && r->Ok_0 is Placeholder,
        r is Err ==> !r->Err_0.recoverable && (r->Err_0.kind
            matches ParseErrorKind::Expecting { value } && value@ == "integer"@)
            && r->Err_0.pos == crate::reader::pos_at(
            old(reader)@,
            old(reader).spec_index() + placeholder_fail_at(old(reader).remaining()),
        ),
        r is Ok ==> final(reader).spec_index() > old(reader).spec_index(),
{
    let start = reader.cursor();
    match integer(reader) {
        Ok(v) => Ok(IntegerValue::Literal(v)),
        Err(prev) => {
            reader.seek(start);
            match placeholder(reader) {
                Ok(p) => Ok(IntegerValue::Placeholder(p)),
                Err(e) => {
                    let kind = ParseErrorKind::Expecting { value: String::from_str("integer") };
                    Err(ParseError::new(e.pos, false, kind))
                }
            }
        }
    }
}

fn base64_decode_filter(reader: &mut Reader) -> (r: ParseResult<FilterValue>)
    requires
        old(reader).wf(),
    ensures
        final(reader).wf(),
        final(reader)@ == old(reader)@,
        final(reader).spec_index() >= old(reader).spec_index(),
        r is Ok <==> "base64Decode"@.is_prefix_of(old(reader).remaining()),
        r is Ok ==> r->Ok_0 == FilterValue::Base64Decode && final(reader).spec_index() == old(
            reader,
        ).spec_index() + "base64Decode"@.len(),
        r is Err ==> r->Err_0.recoverable && final(reader).cursor_spec() == old(
            reader,
        ).cursor_spec() && r->Err_0.pos == old(reader).cursor_spec().pos,
{
    match try_literal("base64Decode", reader) {
        Ok(u) => Ok(FilterValue::Base64Decode),
        Err(e) => Err(e),
    }
}

fn base64_encode_filter(reader: &mut Reader) -> (r: ParseResult<FilterValue>)
    requires
        old(reader).wf(),
    ensures
        final(reader).wf(),
        final(reader)@ == old(reader)@,
        final(reader).spec_index() >= old(reader).spec_index(),
        r is Ok <==> "base64Encode"@.is_prefix_of(old(reader).remaining()),
        r is Ok ==> r->Ok_0 == FilterValue::Base64Encode && final(reader).spec_index() == old(
            reader,
        ).spec_index() + "base64Encode"@.len(),
        r is Err ==> r->Err_0.recoverable && final(reader).cursor_spec() == old(
            reader,
        ).cursor_spec() && r->Err_0.pos == old(reader).cursor_spec().pos,
{
    match try_literal("base64Encode", reader) {
        Ok(u) => Ok(FilterValue::Base64Encode),
        Err(e) => Err(e),
    }
}

fn base64_url_safe_decode_filter(reader: &mut Reader) -> (r: ParseResult<FilterValue>)
    requires
        old(reader).wf(),
    ensures
        final(reader).wf(),
        final(reader)@ == old(reader)@,
        final(reader).spec_index() >= old(reader).spec_index(),
        r is Ok <==> "base64UrlSafeDecode"@.is_prefix_of(old(reader).remaining()),
        r is Ok ==> r->Ok_0 == FilterValue::Base64UrlSafeDecode && final(reader).spec_index()
            == old(reader).spec_index() + "base64UrlSafeDecode"@.len(),
        r is Err ==> r->Err_0.recoverable && final(reader).cursor_spec() == old(
            reader,
        ).cursor_spec() && r->Err_0.pos == old(reader).cursor_spec().pos,
{
    match try_literal("base64UrlSafeDecode", reader) {
        Ok(u) => Ok(FilterValue::Base64UrlSafeDecode),
        Err(e) => Err(e),
    }
}

fn base64_url_safe_encode_filter(reader: &mut Reader) -> (r: ParseResult<FilterValue>)
    requires
        old(reader).wf(),
    ensures
        final(reader).wf(),
        final(reader)@ == old(reader)@,
        final(reader).spec_index() >= old(reader).spec_index(),
        r is Ok <==> "base64UrlSafeEncode"@.is_prefix_of(old(reader).remaining()),
        r is Ok ==> r->Ok_0 == FilterValue::Base64UrlSafeEncode && final(reader).spec_index()
            == old(reader).spec_index() + "base64UrlSafeEncode"@.len(),
        r is Err ==> r->Err_0.recoverable && final(reader).cursor_spec() == old(
            reader,
        ).cursor_spec() && r->Err_0.pos == old(reader).cursor_spec().pos,
{
    match try_literal("base64UrlSafeEncode", reader) {
        Ok(u) => Ok(FilterValue::Base64UrlSafeEncode),
        Err(e) => Err(e),
    }
}

fn count_filter(reader: &mut Reader) -> (r: ParseResult<FilterValue>)
    requires
        old(reader).wf(),
    ensures
        final(reader).wf(),
        final(reader)@ == old(reader)@,
        final(reader).spec_index() >= old(reader).spec_index(),
        r is Ok <==> "count"@.is_prefix_of(old(reader).remaining()),
        r is Ok ==> r->Ok_0 == FilterValue::Count && final(reader).spec_index() == old(
            reader,
        ).spec_index() + "count"@.len(),
        r is Err ==> r->Err_0.recoverable && final(reader).cursor_spec() == old(
            reader,
        ).cursor_spec() && r->Err_0.pos == old(reader).cursor_spec().pos,
{
    match try_literal("count", reader) {
        Ok(u) => Ok(FilterValue::Count),
        Err(e) => Err(e),
    }
}

fn days_after_now_filter(reader: &mut Reader) -> (r: ParseResult<FilterValue>)
    requires
        old(reader).wf(),
    ensures
        final(reader).wf(),
        final(reader)@ == old(reader)@,
        final(reader).spec_index() >= old(reader).spec_index(),
        r is Ok <==> "daysAfterNow"@.is_prefix_of(old(reader).remaining()),
        r is Ok ==> r->Ok_0 == FilterValue::DaysAfterNow && final(reader).spec_index() == old(
            reader,
        ).spec_index() + "daysAfterNow"@.len(),
        r is Err ==> r->Err_0.recoverable && final(reader).cursor_spec() == old(
            reader,
        ).cursor_spec() && r->Err_0.pos == old(reader).cursor_spec().pos,
{
    match try_literal("daysAfterNow", reader) {
        Ok(u) => Ok(FilterValue::DaysAfterNow),
        Err(e) => Err(e),
    }
}

fn days_before_now_filter(reader: &mut Reader) -> (r: ParseResult<FilterValue>)
    requires
        old(reader).wf(),
    ensures
        final(reader).wf(),
        final(reader)@ == old(reader)@,
        final(reader).spec_index() >= old(reader).spec_index(),
        r is Ok <==> "daysBeforeNow"@.is_prefix_of(old(reader).remaining()),
        r is Ok ==> r->Ok_0 == FilterValue::DaysBeforeNow && final(reader).spec_index() == old(
            reader,
        ).spec_index() + "daysBeforeNow"@.len(),
        r is Err ==> r->Err_0.recoverable && final(reader).cursor_spec() == old(
            reader,
        ).cursor_spec() && r->Err_0.pos == old(reader).cursor_spec().pos,
{
    match try_literal("daysBeforeNow", reader) {
        Ok(u) => Ok(FilterValue::DaysBeforeNow),
        Err(e) => Err(e),
    }
}

fn decode_filter(reader: &mut Reader) -> (r: ParseResult<FilterValue>)
    requires
        old(reader).wf(),
    ensures
        final(reader).wf(),
        final(reader)@ == old(reader)@,
        final(reader).spec_index() >= old(reader).spec_index(),
        r is Ok ==> r->Ok_0 is Decode && final(reader).spec_index() > old(reader).spec_index()
            && "decode"@.is_prefix_of(old(reader).remaining()),
        r is Err && !("decode"@.is_prefix_of(old(reader).remaining())) ==> r->Err_0.recoverable
            && r->Err_0.pos == old(reader).cursor_spec().pos,
        r is Ok <==> ({
            let s = old(reader).remaining();
            &&& "decode"@.is_prefix_of(s)
            &&& "decode"@.len() < s.len() && is_space_char(s["decode"@.len() as int])
            &&& ({
                let k = "decode"@.len() as int + space_run(s.skip("decode"@.len() as int)) as int;
                quoted_accepts(s.skip(k))
            })
        }),
        r is Ok ==> final(reader).spec_index() == old(reader).spec_index() + ({
            let s = old(reader).remaining();
            let k = "decode"@.len() as int + space_run(s.skip("decode"@.len() as int)) as int;
            k + quoted_len(s.skip(k))
        }),
        r is Err ==> (r->Err_0.recoverable <==> !("decode"@.is_prefix_of(old(reader).remaining())
            && "decode"@.len() < old(reader).remaining().len() && is_space_char(
            old(reader).remaining()["decode"@.len() as int],
        ) && ({
            let k = "decode"@.len() as int + space_run(
                old(reader).remaining().skip("decode"@.len() as int),
            ) as int;
            k < old(reader).remaining().len() && old(reader).remaining()[k] == '"'
        }))),
{
    proof {
        reveal_strlit("decode");
    }
    let ghost entry = old(reader).remaining();
    match try_literal("decode", reader) {
        Ok(u) => {}
        Err(e) => {
            return Err(e);
        }
    }
    proof {
        assert(reader.remaining() =~= entry.skip("decode"@.len() as int));
    }
    let space0 = match one_or_more_spaces(reader) {
        Ok(s) => s,
        Err(e) => {
            return Err(e);
        }
    };
    proof {
        assert(reader.remaining() =~= entry.skip(
            "decode"@.len() as int + space_run(entry.skip("decode"@.len() as int)) as int,
        ));
    }
    match quoted_template(reader) {
        Ok(encoding) => Ok(FilterValue::Decode { space0, encoding }),
        Err(e) => Err(e),
    }
}

fn first_filter(reader: &mut Reader) -> (r: ParseResult<FilterValue>)
    requires
        old(reader).wf(),
    ensures
        final(reader).wf(),
        final(reader)@ == old(reader)@,
        final(reader).spec_index() >= old(reader).spec_index(),
        r is Ok <==> "first"@.is_prefix_of(old(reader).remaining()),
        r is Ok ==> r->Ok_0 == FilterValue::First && final(reader).spec_index() == old(
            reader,
        ).spec_index() + "first"@.len(),
        r is Err ==> r->Err_0.recoverable && final(reader).cursor_spec() == old(
            reader,
        ).cursor_spec() && r->Err_0.pos == old(reader).cursor_spec().pos,
{
    match try_literal("first", reader) {
        Ok(u) => Ok(FilterValue::First),
        Err(e) => Err(e),
    }
}

fn format_filter(reader: &mut Reader) -> (r: ParseResult<FilterValue>)
    requires
        old(reader).wf(),
    ensures
        final(reader).wf(),
        final(reader)@ == old(reader)@,
        final(reader).spec_index() >= old(reader).spec_index(),
        r is Ok ==> r->Ok_0 is Format && final(reader).spec_index() > old(reader).spec_index()
            && "format"@.is_prefix_of(old(reader).remaining()),
        r is Err && !("format"@.is_prefix_of(old(reader).remaining())) ==> r->Err_0.recoverable
            && r->Err_0.pos == old(reader).cursor_spec().pos,
        r is Ok <==> ({
            let s = old(reader).remaining();
            &&& "format"@.is_prefix_of(s)
            &&& "format"@.len() < s.len() && is_space_char(s["format"@.len() as int])
            &&& ({
                let k = "format"@.len() as int + space_run(s.skip("format"@.len() as int)) as int;
                quoted_accepts(s.skip(k))
            })
        }),
        r is Ok ==> final(reader).spec_index() == old(reader).spec_index() + ({
            let s = old(reader).remaining();
            let k = "format"@.len() as int + space_run(s.skip("format"@.len() as int)) as int;
            k + quoted_len(s.skip(k))
        }),
        r is Err ==> (r->Err_0.recoverable <==> !("format"@.is_prefix_of(old(reader).remaining())
            && "format"@.len() < old(reader).remaining().len() && is_space_char(
            old(reader).remaining()["format"@.len() as int],
        ) && ({
            let k = "format"@.len() as int + space_run(
                old(reader).remaining().skip("format"@.len() as int),
            ) as int;
            k < old(reader).remaining().len() && old(reader).remaining()[k] == '"'
        }))),
{
    proof {
        reveal_strlit("format");
    }
    let ghost entry = old(reader).remaining();
    match try_literal("format", reader) {
        Ok(u) => {}
        Err(e) => {
            return Err(e);
        }
    }
    proof {
        assert(reader.remaining() =~= entry.skip("format"@.len() as int));
    }
    let space0 = match one_or_more_spaces(reader) {
        Ok(s) => s,
        Err(e) => {
            return Err(e);
        }
    };
    proof {
        assert(reader.remaining() =~= entry.skip(
            "format"@.len() as int + space_run(entry.skip("format"@.len() as int)) as int,
        ));
    }
    match quoted_template(reader) {
        Ok(fmt) => Ok(FilterValue::Format { space0, fmt }),
        Err(e) => Err(e),
    }
}

fn date_format_filter(reader: &mut Reader) -> (r: ParseResult<FilterValue>)
    requires
        old(reader).wf(),
    ensures
        final(reader).wf(),
        final(reader)@ == old(reader)@,
        final(reader).spec_index() >= old(reader).spec_index(),
        r is Ok ==> r->Ok_0 is DateFormat && final(reader).spec_index() > old(reader).spec_index()
            && "dateFormat"@.is_prefix_of(old(reader).remaining()),
        r is Err && !("dateFormat"@.is_prefix_of(old(reader).remaining())) ==> r->Err_0.recoverable
            && r->Err_0.pos == old(reader).cursor_spec().pos,
        r is Ok <==> ({
            let s = old(reader).remaining();
            &&& "dateFormat"@.is_prefix_of(s)
            &&& "dateFormat"@.len() < s.len() && is_space_char(s["dateFormat"@.len() as int])
            &&& ({
                let k = "dateFormat"@.len() as int + space_run(s.skip("dateFormat"@.len() as int)) as int;
                quoted_accepts(s.skip(k))
            })
        }),
        r is Ok ==> final(reader).spec_index() == old(reader).spec_index() + ({
            let s = old(reader).remaining();
            let k = "dateFormat"@.len() as int + space_run(s.skip("dateFormat"@.len() as int)) as int;
            k + quoted_len(s.skip(k))
        }),
        r is Err ==> (r->Err_0.recoverable <==> !("dateFormat"@.is_prefix_of(old(reader).remaining())
            && "dateFormat"@.len() < old(reader).remaining().len() && is_space_char(
            old(reader).remaining()["dateFormat"@.len() as int],
        ) && ({
            let k = "dateFormat"@.len() as int + space_run(
                old(reader).remaining().skip("dateFormat"@.len() as int),
            ) as int;
            k < old(reader).remaining().len() && old(reader).remaining()[k] == '"'
        }))),
{
    proof {
        reveal_strlit("dateFormat");
    }
    let ghost entry = old(reader).remaining();
    match try_literal("dateFormat", reader) {
        Ok(u) => {}
        Err(e) => {
            return Err(e);
        }
    }
    proof {
        assert(reader.remaining() =~= entry.skip("dateFormat"@.len() as int));
    }
    let space0 = match one_or_more_spaces(reader) {
        Ok(s) => s,
        Err(e) => {
            return Err(e);
        }
    };
    proof {
        assert(reader.remaining() =~= entry.skip(
            "dateFormat"@.len() as int + space_run(entry.skip("dateFormat"@.len() as int)) as int,
        ));
    }
    match quoted_template(reader) {
        Ok(fmt) => Ok(FilterValue::DateFormat { space0, fmt }),
        Err(e) => Err(e),
    }
}

fn html_encode_filter(reader: &mut Reader) -> (r: ParseResult<FilterValue>)
    requires
        old(reader).wf(),
    ensures
        final(reader).wf(),
        final(reader)@ == old(reader)@,
        final(reader).spec_index() >= old(reader).spec_index(),
        r is Ok <==> "htmlEscape"@.is_prefix_of(old(reader).remaining()),
        r is Ok ==> r->Ok_0 == FilterValue::HtmlEscape && final(reader).spec_index() == old(
            reader,
        ).spec_index() + "htmlEscape"@.len(),
        r is Err ==> r->Err_0.recoverable && final(reader).cursor_spec() == old(
            reader,
        ).cursor_spec() && r->Err_0.pos == old(reader).cursor_spec().pos,
{
    match try_literal("htmlEscape", reader) {
        Ok(u) => Ok(FilterValue::HtmlEscape),
        Err(e) => Err(e),
    }
}

fn html_decode_filter(reader: &mut Reader) -> (r: ParseResult<FilterValue>)
    requires
        old(reader).wf(),
    ensures
        final(reader).wf(),
        final(reader)@ == old(reader)@,
        final(reader).spec_index() >= old(reader).spec_index(),
        r is Ok <==> "htmlUnescape"@.is_prefix_of(old(reader).remaining()),
        r is Ok ==> r->Ok_0 == FilterValue::HtmlUnescape && final(reader).spec_index() == old(
            reader,
        ).spec_index() + "htmlUnescape"@.len(),
        r is Err ==> r->Err_0.recoverable && final(reader).cursor_spec() == old(
            reader,
        ).cursor_spec() && r->Err_0.pos == old(reader).cursor_spec().pos,
{
    match try_literal("htmlUnescape", reader) {
        Ok(u) => Ok(FilterValue::HtmlUnescape),
        Err(e) => Err(e),
    }
}

fn jsonpath_filter(reader: &mut Reader) -> (r: ParseResult<FilterValue>)
    requires
        old(reader).wf(),
    ensures
        final(reader).wf(),
        final(reader)@ == old(reader)@,
        final(reader).spec_index() >= old(reader).spec_index(),
        r is Ok ==> r->Ok_0 is JsonPath && final(reader).spec_index() > old(reader).spec_index()
            && "jsonpath"@.is_prefix_of(old(reader).remaining()),
        r is Err && !("jsonpath"@.is_prefix_of(old(reader).remaining())) ==> r->Err_0.recoverable
            && r->Err_0.pos == old(reader).cursor_spec().pos,
        r is Ok <==> ({
            let s = old(reader).remaining();
            &&& "jsonpath"@.is_prefix_of(s)
            &&& "jsonpath"@.len() < s.len() && is_space_char(s["jsonpath"@.len() as int])
            &&& ({
                let k = "jsonpath"@.len() as int + space_run(s.skip("jsonpath"@.len() as int)) as int;
                quoted_accepts(s.skip(k))
            })
        }),
        r is Ok ==> final(reader).spec_index() == old(reader).spec_index() + ({
            let s = old(reader).remaining();
            let k = "jsonpath"@.len() as int + space_run(s.skip("jsonpath"@.len() as int)) as int;
            k + quoted_len(s.skip(k))
        }),
        r is Err ==> (r->Err_0.recoverable <==> !("jsonpath"@.is_prefix_of(old(reader).remaining())
            && "jsonpath"@.len() < old(reader).remaining().len() && is_space_char(
            old(reader).remaining()["jsonpath"@.len() as int],
        ))),
{
    proof {
        reveal_strlit("jsonpath");
    }
    let ghost entry = old(reader).remaining();
    match try_literal("jsonpath", reader) {
        Ok(u) => {}
        Err(e) => {
            return Err(e);
        }
    }
    proof {
        assert(reader.remaining() =~= entry.skip("jsonpath"@.len() as int));
    }
    let space0 = match one_or_more_spaces(reader) {
        Ok(s) => s,
        Err(e) => {
            return Err(e);
        }
    };
    proof {
        assert(reader.remaining() =~= entry.skip(
            "jsonpath"@.len() as int + space_run(entry.skip("jsonpath"@.len() as int)) as int,
        ));
    }
    match quoted_template(reader) {
        Ok(expr) => Ok(FilterValue::JsonPath { space0, expr }),
        Err(e) => Err(e.to_non_recoverable()),
    }
}

fn last_filter(reader: &mut Reader) -> (r: ParseResult<FilterValue>)
    requires
        old(reader).wf(),
    ensures
        final(reader).wf(),
        final(reader)@ == old(reader)@,
        final(reader).spec_index() >= old(reader).spec_index(),
        r is Ok <==> "last"@.is_prefix_of(old(reader).remaining()),
        r is Ok ==> r->Ok_0 == FilterValue::Last && final(reader).spec_index() == old(
            reader,
        ).spec_index() + "last"@.len(),
        r is Err ==> r->Err_0.recoverable && final(reader).cursor_spec() == old(
            reader,
        ).cursor_spec() && r->Err_0.pos == old(reader).cursor_spec().pos,
{
    match try_literal("last", reader) {
        Ok(u) => Ok(FilterValue::Last),
        Err(e) => Err(e),
    }
}

fn location_filter(reader: &mut Reader) -> (r: ParseResult<FilterValue>)
    requires
        old(reader).wf(),
    ensures
        final(reader).wf(),
        final(reader)@ == old(reader)@,
        final(reader).spec_index() >= old(reader).spec_index(),
        r is Ok <==> "location"@.is_prefix_of(old(reader).remaining()),
        r is Ok ==> r->Ok_0 == FilterValue::Location && final(reader).spec_index() == old(
            reader,
        ).spec_index() + "location"@.len(),
        r is Err ==> r->Err_0.recoverable && final(reader).cursor_spec() == old(
            reader,
        ).cursor_spec() && r->Err_0.pos == old(reader).cursor_spec().pos,
{
    match try_literal("location", reader) {
        Ok(u) => Ok(FilterValue::Location),
        Err(e) => Err(e),
    }
}

fn nth_filter(reader: &mut Reader) -> (r: ParseResult<FilterValue>)
    requires
        old(reader).wf(),
    ensures
        final(reader).wf(),
        final(reader)@ == old(reader)@,
        final(reader).spec_index() >= old(reader).spec_index(),
        r is Ok ==> r->Ok_0 is Nth && final(reader).spec_index() > old(reader).spec_index()
            && "nth"@.is_prefix_of(old(reader).remaining()),
        r is Err && !("nth"@.is_prefix_of(old(reader).remaining())) ==> r->Err_0.recoverable
            && r->Err_0.pos == old(reader).cursor_spec().pos,
        r is Ok <==> ({
            let s = old(reader).remaining();
            &&& "nth"@.is_prefix_of(s)
            &&& "nth"@.len() < s.len() && is_space_char(s["nth"@.len() as int])
            &&& ({
                let k = "nth"@.len() as int + space_run(s.skip("nth"@.len() as int)) as int;
                integer_accepts(s.skip(k)) || placeholder_accepts(s.skip(k))
            })
        }),
        r is Ok ==> final(reader).spec_index() == old(reader).spec_index() + ({
            let s = old(reader).remaining();
            let k = "nth"@.len() as int + space_run(s.skip("nth"@.len() as int)) as int;
            k + integer_value_len(s.skip(k))
        }),
        r is Err ==> (r->Err_0.recoverable <==> !("nth"@.is_prefix_of(old(reader).remaining())
            && "nth"@.len() < old(reader).remaining().len() && is_space_char(
            old(reader).remaining()["nth"@.len() as int],
        ))),
{
    proof {
        reveal_strlit("nth");
    }
    let ghost entry = old(reader).remaining();
    match try_literal("nth", reader) {
        Ok(u) => {}
        Err(e) => {
            return Err(e);
        }
    }
    proof {
        assert(reader.remaining() =~= entry.skip("nth"@.len() as int));
    }
    let space0 = match one_or_more_spaces(reader) {
        Ok(s) => s,
        Err(e) => {
            return Err(e);
        }
    };
    proof {
        assert(reader.remaining() =~= entry.skip(
            "nth"@.len() as int + space_run(entry.skip("nth"@.len() as int)) as int,
        ));
    }
    match integer_value(reader) {
        Ok(n) => Ok(FilterValue::Nth { space0, n }),
        Err(e) => Err(e),
    }
}

fn regex_filter(reader: &mut Reader) -> (r: ParseResult<FilterValue>)
    requires
        old(reader).wf(),
    ensures
        final(reader).wf(),
        final(reader)@ == old(reader)@,
        final(reader).spec_index() >= old(reader).spec_index(),
        r is Ok ==> r->Ok_0 is Regex && final(reader).spec_index() > old(reader).spec_index()
            && "regex"@.is_prefix_of(old(reader).remaining()),
        r is Err && !("regex"@.is_prefix_of(old(reader).remaining())) ==> r->Err_0.recoverable
            && r->Err_0.pos == old(reader).cursor_spec().pos,
        r is Ok <==> ({
            let s = old(reader).remaining();
            &&& "regex"@.is_prefix_of(s)
            &&& "regex"@.len() < s.len() && is_space_char(s["regex"@.len() as int])
            &&& regex_value_accepts(
                s.skip("regex"@.len() as int + space_run(s.skip("regex"@.len() as int)) as int),
            )
        }),
        r is Ok ==> final(reader).spec_index() == old(reader).spec_index() + ({
            let s = old(reader).remaining();
            let k = "regex"@.len() as int + space_run(s.skip("regex"@.len() as int)) as int;
            k + regex_value_len(s.skip(k))
        }),
        r is Err ==> (r->Err_0.recoverable <==> !("regex"@.is_prefix_of(old(reader).remaining())
            && "regex"@.len() < old(reader).remaining().len() && is_space_char(
            old(reader).remaining()["regex"@.len() as int],
        ))),
        regex_surely_commits(old(reader).remaining()) ==> r is Err && !r->Err_0.recoverable && (
        r->Err_0.kind matches ParseErrorKind::Expecting { value } && value@ == "\" or /"@)
            && r->Err_0.pos == crate::reader::pos_at(
            old(reader)@,
            old(reader).spec_index() + regex_commit_offset(old(reader).remaining()),
        ),
{
    proof {
        reveal_strlit("regex");
    }
    let ghost entry = old(reader).remaining();
    match try_literal("regex", reader) {
        Ok(u) => {}
        Err(e) => {
            return Err(e);
        }
    }
    proof {
        assert(reader.remaining() =~= entry.skip("regex"@.len() as int));
    }
    let space0 = match one_or_more_spaces(reader) {
        Ok(s) => s,
        Err(e) => {
            return Err(e);
        }
    };
    proof {
        let k = regex_commit_offset(entry) as int;
        assert(reader.spec_index() == old(reader).spec_index() + k);
        assert(reader.remaining() =~= entry.skip(k));
        if k < entry.len() {
            assert(reader.remaining()[0] == entry[k]);
        }
    }
    match regex_value(reader) {
        Ok(value) => Ok(FilterValue::Regex { space0, value }),
        Err(e) => Err(e),
    }
}

/// Scans a slash-delimited regex literal's content from index `i` (past the
/// opening slash): a backslash takes the next character verbatim, anything
/// else one position, up to the closing slash. Yields the index just past
/// it, or a negative number when unterminated.
pub open spec fn regex_body_end(s: Seq<char>, i: int) -> int
    decreases s.len() - i,
{
    if i < 0 || i >= s.len() {
        -1
    } else if s[i] == '/' {
        i + 1
    } else if s[i] == '\\' {
        if i + 1 < s.len() {
            regex_body_end(s, i + 2)
        } else {
            -1
        }
    } else {
        regex_body_end(s, i + 1)
    }
}

/// The text begins a well-formed regex argument: a quoted template, or a
/// slash-delimited literal closed by a slash.
pub open spec fn regex_value_accepts(s: Seq<char>) -> bool {
    if s.len() == 0 {
        false
    } else if s[0] == '"' {
        quoted_accepts(s)
    } else if s[0] == '/' {
        regex_body_end(s, 1) >= 0
    } else {
        false
    }
}

/// How many characters a well-formed regex argument takes.
pub open spec fn regex_value_len(s: Seq<char>) -> int {
    if s.len() > 0 && s[0] == '"' {
        quoted_len(s)
    } else {
        regex_body_end(s, 1)
    }
}

/// Parses a regex argument: a quoted template or a slash-delimited literal.
/// Anything else is a committed failure demanding a quote or a slash.
pub fn regex_value(reader: &mut Reader) -> (r: ParseResult<RegexValue>)
    requires
        old(reader).wf(),
    ensures
        final(reader).wf(),
        final(reader)@ == old(reader)@,
        final(reader).spec_index() >= old(reader).spec_index(),
        r is Err ==> !r->Err_0.recoverable,
        r is Ok <==> regex_value_accepts(old(reader).remaining()),
        r is Ok ==> final(reader).spec_index() == old(reader).spec_index() + regex_value_len(
            old(reader).remaining(),
        ),
        r is Ok ==> final(reader).spec_index() > old(reader).spec_index(),
        old(reader).remaining().len() == 0 || (old(reader).remaining()[0] != '"' && old(
            reader,
        ).remaining()[0] != '/') ==> {
            &&& r is Err
            &&& r->Err_0.pos == old(reader).cursor_spec().pos
            &&& r->Err_0.kind matches ParseErrorKind::Expecting { value } && value@ == "\" or /"@
        },
{
    let at = reader.cursor();
    let first = reader.peek();
    match first {
        Some(c) => {
            if c == '"' {
                match quoted_template(reader) {
                    Ok(t) => Ok(RegexValue::Template(t)),
                    Err(e) => Err(e.to_non_recoverable()),
                }
            } else if c == '/' {
                match regex_literal(reader) {
                    Ok(lit) => Ok(RegexValue::Regex(lit)),
                    Err(e) => Err(e.to_non_recoverable()),
                }
            } else {
                Err(expecting("\" or /", at.pos, false))
            }
        }
        None => Err(expecting("\" or /", at.pos, false)),
    }
}

/// Parses a slash-delimited regex literal; `\/` denotes a literal slash and
/// every other escape is kept verbatim.
fn regex_literal(reader: &mut Reader) -> (r: ParseResult<RegexLiteral>)
    requires
        old(reader).wf(),
        old(reader).remaining().len() > 0,
        old(reader).remaining()[0] == '/',
    ensures
        final(reader).wf(),
        final(reader)@ == old(reader)@,
        final(reader).spec_index() >= old(reader).spec_index(),
        r is Err ==> !r->Err_0.recoverable,
        r is Ok <==> regex_body_end(old(reader).remaining(), 1) >= 0,
        r is Ok ==> final(reader).spec_index() == old(reader).spec_index() + regex_body_end(
            old(reader).remaining(),
            1,
        ),
        r is Ok ==> final(reader).spec_index() > old(reader).spec_index(),
{
    let ghost entry = old(reader).remaining();
    let start = reader.cursor();
    let opened = reader.read();
    let mut value = String::new();
    loop
        invariant_except_break
            reader.wf(),
            reader@ == old(reader)@,
            entry == old(reader).remaining(),
            reader.spec_index() > old(reader).spec_index(),
            regex_body_end(entry, reader.spec_index() - old(reader).spec_index())
                == regex_body_end(entry, 1),
        ensures
            reader.wf(),
            reader@ == old(reader)@,
            reader.spec_index() > old(reader).spec_index(),
            reader.spec_index() == old(reader).spec_index() + regex_body_end(entry, 1),
        decreases reader@.len() - reader.spec_index(),
    {
        proof {
            let rel = reader.spec_index() - old(reader).spec_index();
            if rel < entry.len() {
                assert(entry[rel] == reader@[reader.spec_index()]);
            }
            if rel + 1 < entry.len() {
                assert(entry[rel + 1] == reader@[reader.spec_index() + 1]);
            }
        }
        let at = reader.cursor();
        match reader.read() {
            None => {
                return Err(expecting("/", at.pos, false));
            }
            Some(c) => {
                if c == '/' {
                    break;
                } else if c == '\\' {
                    match reader.read() {
                        Some(next) => {
                            if next == '/' {
                                push_char(&mut value, '/');
                            } else {
                                push_char(&mut value, '\\');
                                push_char(&mut value, next);
                            }
                        }
                        None => {
                            return Err(expecting("/", at.pos, false));
                        }
                    }
                } else {
                    push_char(&mut value, c);
                }
            }
        }
    }
    let end = reader.cursor();
    Ok(RegexLiteral { value, source_info: SourceInfo { start: start.pos, end: end.pos } })
}

fn replace_filter(reader: &mut Reader) -> (r: ParseResult<FilterValue>)
    requires
        old(reader).wf(),
    ensures
        final(reader).wf(),
        final(reader)@ == old(reader)@,
        final(reader).spec_index() >= old(reader).spec_index(),
        r is Ok ==> r->Ok_0 is Replace && final(reader).spec_index() > old(reader).spec_index()
            && "replace"@.is_prefix_of(old(reader).remaining()),
        r is Err && !("replace"@.is_prefix_of(old(reader).remaining())) ==> r->Err_0.recoverable
            && r->Err_0.pos == old(reader).cursor_spec().pos,
        r is Ok <==> ({
            let s = old(reader).remaining();
            &&& "replace"@.is_prefix_of(s)
            &&& "replace"@.len() < s.len() && is_space_char(s["replace"@.len() as int])
            &&& ({
                let k = "replace"@.len() as int + space_run(
                    s.skip("replace"@.len() as int),
                ) as int;
                &&& quoted_accepts(s.skip(k))
                &&& ({
                    let k2 = k + quoted_len(s.skip(k));
                    &&& k2 < s.len() && is_space_char(s[k2])
                    &&& quoted_accepts(s.skip(k2 + space_run(s.skip(k2)) as int))
                })
            })
        }),
        r is Ok ==> final(reader).spec_index() == old(reader).spec_index() + ({
            let s = old(reader).remaining();
            let k = "replace"@.len() as int + space_run(s.skip("replace"@.len() as int)) as int;
            let k3 = k + quoted_len(s.skip(k)) + space_run(
                s.skip(k + quoted_len(s.skip(k))),
            ) as int;
            k3 + quoted_len(s.skip(k3))
        }),
        r is Err ==> (r->Err_0.recoverable <==> ({
            let s = old(reader).remaining();
            ||| !("replace"@.is_prefix_of(s))
            ||| !("replace"@.len() < s.len() && is_space_char(s["replace"@.len() as int]))
            ||| ({
                let k = "replace"@.len() as int + space_run(
                    s.skip("replace"@.len() as int),
                ) as int;
                let k2 = k + quoted_len(s.skip(k));
                quoted_accepts(s.skip(k)) && !(k2 < s.len() && is_space_char(s[k2]))
            })
        })),
{
    proof {
        reveal_strlit("replace");
    }
    let ghost entry = old(reader).remaining();
    match try_literal("replace", reader) {
        Ok(u) => {}
        Err(e) => {
            return Err(e);
        }
    }
    proof {
        assert(reader.remaining() =~= entry.skip("replace"@.len() as int));
    }
    let space0 = match one_or_more_spaces(reader) {
        Ok(s) => s,
        Err(e) => {
            return Err(e);
        }
    };
    let ghost k = "replace"@.len() as int + space_run(entry.skip("replace"@.len() as int)) as int;
    proof {
        assert(reader.remaining() =~= entry.skip(k));
    }
    let old_value = match quoted_template(reader) {
        Ok(t) => t,
        Err(e) => {
            return Err(e.to_non_recoverable());
        }
    };
    let ghost k2 = k + quoted_len(entry.skip(k));
    proof {
        assert(reader.remaining() =~= entry.skip(k2));
        if k2 < entry.len() {
            assert(entry[k2] == reader@[reader.spec_index()]);
        }
    }
    let space1 = match one_or_more_spaces(reader) {
        Ok(s) => s,
        Err(e) => {
            return Err(e);
        }
    };
    proof {
        assert(reader.remaining() =~= entry.skip(k2 + space_run(entry.skip(k2)) as int));
    }
    let new_value = match quoted_template(reader) {
        Ok(t) => t,
        Err(e) => {
            return Err(e.to_non_recoverable());
        }
    };
    Ok(FilterValue::Replace { space0, old_value, space1, new_value })
}

fn replace_regex_filter(reader: &mut Reader) -> (r: ParseResult<FilterValue>)
    requires
        old(reader).wf(),
    ensures
        final(reader).wf(),
        final(reader)@ == old(reader)@,
        final(reader).spec_index() >= old(reader).spec_index(),
        r is Ok ==> r->Ok_0 is ReplaceRegex && final(reader).spec_index() > old(reader).spec_index()
            && "replaceRegex"@.is_prefix_of(old(reader).remaining()),
        r is Err && !("replaceRegex"@.is_prefix_of(old(reader).remaining())) ==> r->Err_0.recoverable
            && r->Err_0.pos == old(reader).cursor_spec().pos,
        r is Ok <==> ({
            let s = old(reader).remaining();
            &&& "replaceRegex"@.is_prefix_of(s)
            &&& "replaceRegex"@.len() < s.len() && is_space_char(s["replaceRegex"@.len() as int])
            &&& ({
                let k = "replaceRegex"@.len() as int + space_run(
                    s.skip("replaceRegex"@.len() as int),
                ) as int;
                &&& regex_value_accepts(s.skip(k))
                &&& ({
                    let k2 = k + regex_value_len(s.skip(k));
                    &&& k2 < s.len() && is_space_char(s[k2])
                    &&& quoted_accepts(s.skip(k2 + space_run(s.skip(k2)) as int))
                })
            })
        }),
        r is Ok ==> final(reader).spec_index() == old(reader).spec_index() + ({
            let s = old(reader).remaining();
            let k = "replaceRegex"@.len() as int + space_run(
                s.skip("replaceRegex"@.len() as int),
            ) as int;
            let k3 = k + regex_value_len(s.skip(k)) + space_run(
                s.skip(k + regex_value_len(s.skip(k))),
            ) as int;
            k3 + quoted_len(s.skip(k3))
        }),
        r is Err ==> (r->Err_0.recoverable <==> ({
            let s = old(reader).remaining();
            ||| !("replaceRegex"@.is_prefix_of(s))
            ||| !("replaceRegex"@.len() < s.len() && is_space_char(
                s["replaceRegex"@.len() as int],
            ))
            ||| ({
                let k = "replaceRegex"@.len() as int + space_run(
                    s.skip("replaceRegex"@.len() as int),
                ) as int;
                let k2 = k + regex_value_len(s.skip(k));
                regex_value_accepts(s.skip(k)) && !(k2 < s.len() && is_space_char(s[k2]))
            })
        })),
{
    proof {
        reveal_strlit("replaceRegex");
    }
    let ghost entry = old(reader).remaining();
    match try_literal("replaceRegex", reader) {
        Ok(u) => {}
        Err(e) => {
            return Err(e);
        }
    }
    proof {
        assert(reader.remaining() =~= entry.skip("replaceRegex"@.len() as int));
    }
    let space0 = match one_or_more_spaces(reader) {
        Ok(s) => s,
        Err(e) => {
            return Err(e);
        }
    };
    let ghost k = "replaceRegex"@.len() as int + space_run(
        entry.skip("replaceRegex"@.len() as int),
    ) as int;
    proof {
        assert(reader.remaining() =~= entry.skip(k));
    }
    let pattern = match regex_value(reader) {
        Ok(p) => p,
        Err(e) => {
            return Err(e);
        }
    };
    let ghost k2 = k + regex_value_len(entry.skip(k));
    proof {
        assert(reader.remaining() =~= entry.skip(k2));
        if k2 < entry.len() {
            assert(entry[k2] == reader@[reader.spec_index()]);
        }
    }
    let space1 = match one_or_more_spaces(reader) {
        Ok(s) => s,
        Err(e) => {
            return Err(e);
        }
    };
    proof {
        assert(reader.remaining() =~= entry.skip(k2 + space_run(entry.skip(k2)) as int));
    }
    let new_value = match quoted_template(reader) {
        Ok(t) => t,
        Err(e) => {
            return Err(e.to_non_recoverable());
        }
    };
    Ok(FilterValue::ReplaceRegex { space0, pattern, space1, new_value })
}

fn split_filter(reader: &mut Reader) -> (r: ParseResult<FilterValue>)
    requires
        old(reader).wf(),
    ensures
        final(reader).wf(),
        final(reader)@ == old(reader)@,
        final(reader).spec_index() >= old(reader).spec_index(),
        r is Ok ==> r->Ok_0 is Split && final(reader).spec_index() > old(reader).spec_index()
            && "split"@.is_prefix_of(old(reader).remaining()),
        r is Err && !("split"@.is_prefix_of(old(reader).remaining())) ==> r->Err_0.recoverable
            && r->Err_0.pos == old(reader).cursor_spec().pos,
        r is Ok <==> ({
            let s = old(reader).remaining();
            &&& "split"@.is_prefix_of(s)
            &&& "split"@.len() < s.len() && is_space_char(s["split"@.len() as int])
            &&& ({
                let k = "split"@.len() as int + space_run(s.skip("split"@.len() as int)) as int;
                quoted_accepts(s.skip(k))
            })
        }),
        r is Ok ==> final(reader).spec_index() == old(reader).spec_index() + ({
            let s = old(reader).remaining();
            let k = "split"@.len() as int + space_run(s.skip("split"@.len() as int)) as int;
            k + quoted_len(s.skip(k))
        }),
        r is Err ==> (r->Err_0.recoverable <==> !("split"@.is_prefix_of(old(reader).remaining())
            && "split"@.len() < old(reader).remaining().len() && is_space_char(
            old(reader).remaining()["split"@.len() as int],
        ))),
{
    proof {
        reveal_strlit("split");
    }
    let ghost entry = old(reader).remaining();
    match try_literal("split", reader) {
        Ok(u) => {}
        Err(e) => {
            return Err(e);
        }
    }
    proof {
        assert(reader.remaining() =~= entry.skip("split"@.len() as int));
    }
    let space0 = match one_or_more_spaces(reader) {
        Ok(s) => s,
        Err(e) => {
            return Err(e);
        }
    };
    proof {
        assert(reader.remaining() =~= entry.skip(
            "split"@.len() as int + space_run(entry.skip("split"@.len() as int)) as int,
        ));
    }
    match quoted_template(reader) {
        Ok(sep) => Ok(FilterValue::Split { space0, sep }),
        Err(e) => Err(e.to_non_recoverable()),
    }
}

fn to_date_filter(reader: &mut Reader) -> (r: ParseResult<FilterValue>)
    requires
        old(reader).wf(),
    ensures
        final(reader).wf(),
        final(reader)@ == old(reader)@,
        final(reader).spec_index() >= old(reader).spec_index(),
        r is Ok ==> r->Ok_0 is ToDate && final(reader).spec_index() > old(reader).spec_index()
            && "toDate"@.is_prefix_of(old(reader).remaining()),
        r is Err && !("toDate"@.is_prefix_of(old(reader).remaining())) ==> r->Err_0.recoverable
            && r->Err_0.pos == old(reader).cursor_spec().pos,
        r is Ok <==> ({
            let s = old(reader).remaining();
            &&& "toDate"@.is_prefix_of(s)
            &&& "toDate"@.len() < s.len() && is_space_char(s["toDate"@.len() as int])
            &&& ({
                let k = "toDate"@.len() as int + space_run(s.skip("toDate"@.len() as int)) as int;
                quoted_accepts(s.skip(k))
            })
        }),
        r is Ok ==> final(reader).spec_index() == old(reader).spec_index() + ({
            let s = old(reader).remaining();
            let k = "toDate"@.len() as int + space_run(s.skip("toDate"@.len() as int)) as int;
            k + quoted_len(s.skip(k))
        }),
        r is Err ==> (r->Err_0.recoverable <==> !("toDate"@.is_prefix_of(old(reader).remaining())
            && "toDate"@.len() < old(reader).remaining().len() && is_space_char(
            old(reader).remaining()["toDate"@.len() as int],
        ) && ({
            let k = "toDate"@.len() as int + space_run(
                old(reader).remaining().skip("toDate"@.len() as int),
            ) as int;
            k < old(reader).remaining().len() && old(reader).remaining()[k] == '"'
        }))),
{
    proof {
        reveal_strlit("toDate");
    }
    let ghost entry = old(reader).remaining();
    match try_literal("toDate", reader) {
        Ok(u) => {}
        Err(e) => {
            return Err(e);
        }
    }
    proof {
        assert(reader.remaining() =~= entry.skip("toDate"@.len() as int));
    }
    let space0 = match one_or_more_spaces(reader) {
        Ok(s) => s,
        Err(e) => {
            return Err(e);
        }
    };
    proof {
        assert(reader.remaining() =~= entry.skip(
            "toDate"@.len() as int + space_run(entry.skip("toDate"@.len() as int)) as int,
        ));
    }
    match quoted_template(reader) {
        Ok(fmt) => Ok(FilterValue::ToDate { space0, fmt }),
        Err(e) => Err(e),
    }
}

fn to_float_filter(reader: &mut Reader) -> (r: ParseResult<FilterValue>)
    requires
        old(reader).wf(),
    ensures
        final(reader).wf(),
        final(reader)@ == old(reader)@,
        final(reader).spec_index() >= old(reader).spec_index(),
        r is Ok <==> "toFloat"@.is_prefix_of(old(reader).remaining()),
        r is Ok ==> r->Ok_0 == FilterValue::ToFloat && final(reader).spec_index() == old(
            reader,
        ).spec_index() + "toFloat"@.len(),
        r is Err ==> r->Err_0.recoverable && final(reader).cursor_spec() == old(
            reader,
        ).cursor_spec() && r->Err_0.pos == old(reader).cursor_spec().pos,
{
    match try_literal("toFloat", reader) {
        Ok(u) => Ok(FilterValue::ToFloat),
        Err(e) => Err(e),
    }
}

fn to_hex_filter(reader: &mut Reader) -> (r: ParseResult<FilterValue>)
    requires
        old(reader).wf(),
    ensures
        final(reader).wf(),
        final(reader)@ == old(reader)@,
        final(reader).spec_index() >= old(reader).spec_index(),
        r is Ok <==> "toHex"@.is_prefix_of(old(reader).remaining()),
        r is Ok ==> r->Ok_0 == FilterValue::ToHex && final(reader).spec_index() == old(
            reader,
        ).spec_index() + "toHex"@.len(),
        r is Err ==> r->Err_0.recoverable && final(reader).cursor_spec() == old(
            reader,
        ).cursor_spec() && r->Err_0.pos == old(reader).cursor_spec().pos,
{
    match try_literal("toHex", reader) {
        Ok(u) => Ok(FilterValue::ToHex),
        Err(e) => Err(e),
    }
}

fn to_int_filter(reader: &mut Reader) -> (r: ParseResult<FilterValue>)
    requires
        old(reader).wf(),
    ensures
        final(reader).wf(),
        final(reader)@ == old(reader)@,
        final(reader).spec_index() >= old(reader).spec_index(),
        r is Ok <==> "toInt"@.is_prefix_of(old(reader).remaining()),
        r is Ok ==> r->Ok_0 == FilterValue::ToInt && final(reader).spec_index() == old(
            reader,
        ).spec_index() + "toInt"@.len(),
        r is Err ==> r->Err_0.recoverable && final(reader).cursor_spec() == old(
            reader,
        ).cursor_spec() && r->Err_0.pos == old(reader).cursor_spec().pos,
{
    match try_literal("toInt", reader) {
        Ok(u) => Ok(FilterValue::ToInt),
        Err(e) => Err(e),
    }
}

fn to_string_filter(reader: &mut Reader) -> (r: ParseResult<FilterValue>)
    requires
        old(reader).wf(),
    ensures
        final(reader).wf(),
        final(reader)@ == old(reader)@,
        final(reader).spec_index() >= old(reader).spec_index(),
        r is Ok <==> "toString"@.is_prefix_of(old(reader).remaining()),
        r is Ok ==> r->Ok_0 == FilterValue::ToString && final(reader).spec_index() == old(
            reader,
        ).spec_index() + "toString"@.len(),
        r is Err ==> r->Err_0.recoverable && final(reader).cursor_spec() == old(
            reader,
        ).cursor_spec() && r->Err_0.pos == old(reader).cursor_spec().pos,
{
    match try_literal("toString", reader) {
        Ok(u) => Ok(FilterValue::ToString),
        Err(e) => Err(e),
    }
}

fn url_encode_filter(reader: &mut Reader) -> (r: ParseResult<FilterValue>)
    requires
        old(reader).wf(),
    ensures
        final(reader).wf(),
        final(reader)@ == old(reader)@,
        final(reader).spec_index() >= old(reader).spec_index(),
        r is Ok <==> "urlEncode"@.is_prefix_of(old(reader).remaining()),
        r is Ok ==> r->Ok_0 == FilterValue::UrlEncode && final(reader).spec_index() == old(
            reader,
        ).spec_index() + "urlEncode"@.len(),
        r is Err ==> r->Err_0.recoverable && final(reader).cursor_spec() == old(
            reader,
        ).cursor_spec() && r->Err_0.pos == old(reader).cursor_spec().pos,
{
    match try_literal("urlEncode", reader) {
        Ok(u) => Ok(FilterValue::UrlEncode),
        Err(e) => Err(e),
    }
}

fn url_decode_filter(reader: &mut Reader) -> (r: ParseResult<FilterValue>)
    requires
        old(reader).wf(),
    ensures
        final(reader).wf(),
        final(reader)@ == old(reader)@,
        final(reader).spec_index() >= old(reader).spec_index(),
        r is Ok <==> "urlDecode"@.is_prefix_of(old(reader).remaining()),
        r is Ok ==> r->Ok_0 == FilterValue::UrlDecode && final(reader).spec_index() == old(
            reader,
        ).spec_index() + "urlDecode"@.len(),
        r is Err ==> r->Err_0.recoverable && final(reader).cursor_spec() == old(
            reader,
        ).cursor_spec() && r->Err_0.pos == old(reader).cursor_spec().pos,
{
    match try_literal("urlDecode", reader) {
        Ok(u) => Ok(FilterValue::UrlDecode),
        Err(e) => Err(e),
    }
}

fn url_query_param_filter(reader: &mut Reader) -> (r: ParseResult<FilterValue>)
    requires
        old(reader).wf(),
    ensures
        final(reader).wf(),
        final(reader)@ == old(reader)@,
        final(reader).spec_index() >= old(reader).spec_index(),
        r is Ok ==> r->Ok_0 is UrlQueryParam && final(reader).spec_index() > old(reader).spec_index()
            && "urlQueryParam"@.is_prefix_of(old(reader).remaining()),
        r is Err && !("urlQueryParam"@.is_prefix_of(old(reader).remaining())) ==> r->Err_0.recoverable
            && r->Err_0.pos == old(reader).cursor_spec().pos,
        r is Ok <==> ({
            let s = old(reader).remaining();
            &&& "urlQueryParam"@.is_prefix_of(s)
            &&& "urlQueryParam"@.len() < s.len() && is_space_char(s["urlQueryParam"@.len() as int])
            &&& ({
                let k = "urlQueryParam"@.len() as int + space_run(s.skip("urlQueryParam"@.len() as int)) as int;
                quoted_accepts(s.skip(k))
            })
        }),
        r is Ok ==> final(reader).spec_index() == old(reader).spec_index() + ({
            let s = old(reader).remaining();
            let k = "urlQueryParam"@.len() as int + space_run(s.skip("urlQueryParam"@.len() as int)) as int;
            k + quoted_len(s.skip(k))
        }),
        r is Err ==> (r->Err_0.recoverable <==> !("urlQueryParam"@.is_prefix_of(old(reader).remaining())
            && "urlQueryParam"@.len() < old(reader).remaining().len() && is_space_char(
            old(reader).remaining()["urlQueryParam"@.len() as int],
        ))),
{
    proof {
        reveal_strlit("urlQueryParam");
    }
    let ghost entry = old(reader).remaining();
    match try_literal("urlQueryParam", reader) {
        Ok(u) => {}
        Err(e) => {
            return Err(e);
        }
    }
    proof {
        assert(reader.remaining() =~= entry.skip("urlQueryParam"@.len() as int));
    }
    let space0 = match one_or_more_spaces(reader) {
        Ok(s) => s,
        Err(e) => {
            return Err(e);
        }
    };
    proof {
        assert(reader.remaining() =~= entry.skip(
            "urlQueryParam"@.len() as int + space_run(entry.skip("urlQueryParam"@.len() as int)) as int,
        ));
    }
    match quoted_template(reader) {
        Ok(param) => Ok(FilterValue::UrlQueryParam { space0, param }),
        Err(e) => Err(e.to_non_recoverable()),
    }
}

fn utf8_decode_filter(reader: &mut Reader) -> (r: ParseResult<FilterValue>)
    requires
        old(reader).wf(),
    ensures
        final(reader).wf(),
        final(reader)@ == old(reader)@,
        final(reader).spec_index() >= old(reader).spec_index(),
        r is Ok <==> "utf8Decode"@.is_prefix_of(old(reader).remaining()),
        r is Ok ==> r->Ok_0 == FilterValue::Utf8Decode && final(reader).spec_index() == old(
            reader,
        ).spec_index() + "utf8Decode"@.len(),
        r is Err ==> r->Err_0.recoverable && final(reader).cursor_spec() == old(
            reader,
        ).cursor_spec() && r->Err_0.pos == old(reader).cursor_spec().pos,
{
    match try_literal("utf8Decode", reader) {
        Ok(u) => Ok(FilterValue::Utf8Decode),
        Err(e) => Err(e),
    }
}

fn utf8_encode_filter(reader: &mut Reader) -> (r: ParseResult<FilterValue>)
    requires
        old(reader).wf(),
    ensures
        final(reader).wf(),
        final(reader)@ == old(reader)@,
        final(reader).spec_index() >= old(reader).spec_index(),
        r is Ok <==> "utf8Encode"@.is_prefix_of(old(reader).remaining()),
        r is Ok ==> r->Ok_0 == FilterValue::Utf8Encode && final(reader).spec_index() == old(
            reader,
        ).spec_index() + "utf8Encode"@.len(),
        r is Err ==> r->Err_0.recoverable && final(reader).cursor_spec() == old(
            reader,
        ).cursor_spec() && r->Err_0.pos == old(reader).cursor_spec().pos,
{
    match try_literal("utf8Encode", reader) {
        Ok(u) => Ok(FilterValue::Utf8Encode),
        Err(e) => Err(e),
    }
}

fn xpath_filter(reader: &mut Reader) -> (r: ParseResult<FilterValue>)
    requires
        old(reader).wf(),
    ensures
        final(reader).wf(),
        final(reader)@ == old(reader)@,
        final(reader).spec_index() >= old(reader).spec_index(),
        r is Ok ==> r->Ok_0 is XPath && final(reader).spec_index() > old(reader).spec_index()
            && "xpath"@.is_prefix_of(old(reader).remaining()),
        r is Err && !("xpath"@.is_prefix_of(old(reader).remaining())) ==> r->Err_0.recoverable
            && r->Err_0.pos == old(reader).cursor_spec().pos,
        r is Ok <==> ({
            let s = old(reader).remaining();
            &&& "xpath"@.is_prefix_of(s)
            &&& "xpath"@.len() < s.len() && is_space_char(s["xpath"@.len() as int])
            &&& ({
                let k = "xpath"@.len() as int + space_run(s.skip("xpath"@.len() as int)) as int;
                quoted_accepts(s.skip(k))
            })
        }),
        r is Ok ==> final(reader).spec_index() == old(reader).spec_index() + ({
            let s = old(reader).remaining();
            let k = "xpath"@.len() as int + space_run(s.skip("xpath"@.len() as int)) as int;
            k + quoted_len(s.skip(k))
        }),
        r is Err ==> (r->Err_0.recoverable <==> !("xpath"@.is_prefix_of(old(reader).remaining())
            && "xpath"@.len() < old(reader).remaining().len() && is_space_char(
            old(reader).remaining()["xpath"@.len() as int],
        ))),
{
    proof {
        reveal_strlit("xpath");
    }
    let ghost entry = old(reader).remaining();
    match try_literal("xpath", reader) {
        Ok(u) => {}
        Err(e) => {
            return Err(e);
        }
    }
    proof {
        assert(reader.remaining() =~= entry.skip("xpath"@.len() as int));
    }
    let space0 = match one_or_more_spaces(reader) {
        Ok(s) => s,
        Err(e) => {
            return Err(e);
        }
    };
    proof {
        assert(reader.remaining() =~= entry.skip(
            "xpath"@.len() as int + space_run(entry.skip("xpath"@.len() as int)) as int,
        ));
    }
    match quoted_template(reader) {
        Ok(expr) => Ok(FilterValue::XPath { space0, expr }),
        Err(e) => Err(e.to_non_recoverable()),
    }
}

/// One script-filter argument stands at the head of a text.
pub open spec fn arg_accepts(s: Seq<char>) -> bool {
    if s.len() == 0 {
        false
    } else if s[0] == '{' {
        placeholder_accepts(s)
    } else if s[0] == '"' {
        quoted_accepts(s)
    } else if is_digit_char(s[0]) || s[0] == '-' {
        bare_number_accepts(s)
    } else {
        false
    }
}

/// How many characters the argument at the head of a text takes.
pub open spec fn arg_len(s: Seq<char>) -> int {
    if s.len() == 0 {
        0
    } else if s[0] == '{' {
        placeholder_len(s)
    } else if s[0] == '"' {
        quoted_len(s)
    } else {
        bare_number_len(s)
    }
}

/// A malformed argument at the head of a text aborts the whole parse rather
/// than ending the list: an opened placeholder or quoted string that does
/// not accept.
pub open spec fn arg_commits(s: Seq<char>) -> bool {
    if s.len() == 0 {
        false
    } else if s[0] == '{' {
        "{{"@.is_prefix_of(s) && !placeholder_accepts(s)
    } else if s[0] == '"' {
        !quoted_accepts(s)
    } else {
        false
    }
}

/// Scans a script filter's argument list from offset `k`: each argument
/// needs at least one blank before it; the list ends before blanks that no
/// argument follows, leaving them unconsumed. Yields the consumed length and
/// the argument count, or nothing when an argument fails committed.
pub open spec fn args_scan(s: Seq<char>, k: int) -> Option<(int, nat)>
    decreases s.len() - k,
{
    if k < 0 || k > s.len() {
        None
    } else {
        let r = space_run(s.skip(k)) as int;
        if r == 0 {
            Some((k, 0))
        } else {
            let k2 = k + r;
            if arg_accepts(s.skip(k2)) {
                let j = k2 + arg_len(s.skip(k2));
                if k < j <= s.len() {
                    match args_scan(s, j) {
                        Some(rest) => Some((rest.0, (rest.1 + 1) as nat)),
                        None => None,
                    }
                } else {
                    None
                }
            } else if arg_commits(s.skip(k2)) {
                None
            } else {
                Some((k, 0))
            }
        }
    }
}

fn jsfilter_filter(reader: &mut Reader) -> (r: ParseResult<FilterValue>)
    requires
        old(reader).wf(),
    ensures
        final(reader).wf(),
        final(reader)@ == old(reader)@,
        final(reader).spec_index() >= old(reader).spec_index(),
        r is Ok ==> r->Ok_0 is JsFilter && final(reader).spec_index() > old(reader).spec_index()
            && "jsfilter"@.is_prefix_of(old(reader).remaining()),
        r is Err && !("jsfilter"@.is_prefix_of(old(reader).remaining())) ==> r->Err_0.recoverable
            && r->Err_0.pos == old(reader).cursor_spec().pos,
        r is Err ==> (r->Err_0.recoverable <==> !("jsfilter"@.is_prefix_of(
            old(reader).remaining(),
        ) && "jsfilter"@.len() < old(reader).remaining().len() && is_space_char(
            old(reader).remaining()["jsfilter"@.len() as int],
        ))),
        r is Ok <==> ({
            let s = old(reader).remaining();
            &&& "jsfilter"@.is_prefix_of(s)
            &&& "jsfilter"@.len() < s.len() && is_space_char(s["jsfilter"@.len() as int])
            &&& ({
                let n = "jsfilter"@.len() as int + space_run(
                    s.skip("jsfilter"@.len() as int),
                ) as int;
                &&& script_name_len(s.skip(n)) > 0
                &&& args_scan(s, n + script_name_len(s.skip(n)) as int) is Some
            })
        }),
        r is Ok ==> ({
            let s = old(reader).remaining();
            let n = "jsfilter"@.len() as int + space_run(s.skip("jsfilter"@.len() as int)) as int;
            let scan = args_scan(s, n + script_name_len(s.skip(n)) as int)->0;
            &&& final(reader).spec_index() == old(reader).spec_index() + scan.0
            &&& (r->Ok_0 matches FilterValue::JsFilter { space0, name, args } && args@.len()
                == scan.1 && name.delimiter is None && name.elements@.len() == 1 && (
            name.elements@[0] matches TemplateElement::Text { value, source } && value@ == s.skip(
                n,
            ).take(script_name_len(s.skip(n)) as int)))
        }),
{
    proof {
        reveal_strlit("jsfilter");
    }
    let ghost entry = old(reader).remaining();
    match try_literal("jsfilter", reader) {
        Ok(u) => {}
        Err(e) => {
            return Err(e);
        }
    }
    proof {
        assert(reader.remaining() =~= entry.skip("jsfilter"@.len() as int));
    }
    let space0 = match one_or_more_spaces(reader) {
        Ok(s) => s,
        Err(e) => {
            return Err(e);
        }
    };
    let ghost n0 = "jsfilter"@.len() as int + space_run(
        entry.skip("jsfilter"@.len() as int),
    ) as int;
    proof {
        assert(reader.remaining() =~= entry.skip(n0));
    }
    // The keyword has matched: a malformed name is a committed failure.
    let name = match jsfilter_name(reader) {
        Ok(n) => n,
        Err(e) => {
            return Err(e.to_non_recoverable());
        }
    };
    let ghost k0 = n0 + script_name_len(entry.skip(n0)) as int;
    proof {
        assert(reader.spec_index() == old(reader).spec_index() + k0);
    }
    let mut args: Vec<(Whitespace, Template)> = Vec::new();
    loop
        invariant_except_break
            reader.wf(),
            reader@ == old(reader)@,
            entry == old(reader).remaining(),
            reader.spec_index() > old(reader).spec_index(),
            "jsfilter"@.is_prefix_of(entry),
            "jsfilter"@.len() < entry.len(),
            is_space_char(entry["jsfilter"@.len() as int]),
            n0 == "jsfilter"@.len() as int + space_run(entry.skip("jsfilter"@.len() as int)) as int,
            script_name_len(entry.skip(n0)) > 0,
            k0 == n0 + script_name_len(entry.skip(n0)) as int,
            reader.spec_index() - old(reader).spec_index() >= k0,
            args_scan(entry, k0) == (match args_scan(
                entry,
                reader.spec_index() - old(reader).spec_index(),
            ) {
                Some(t) => Some((t.0, (t.1 + args@.len()) as nat)),
                None => None::<(int, nat)>,
            }),
        ensures
            reader.wf(),
            reader@ == old(reader)@,
            reader.spec_index() > old(reader).spec_index(),
            args_scan(entry, k0) == Some(
                (reader.spec_index() - old(reader).spec_index(), args@.len() as nat),
            ),
        decreases reader@.len() - reader.spec_index(),
    {
        let ghost rel = reader.spec_index() - old(reader).spec_index();
        proof {
            assert(reader.remaining() =~= entry.skip(rel));
        }
        let save = reader.cursor();
        match one_or_more_spaces(reader) {
            Ok(space) => {
                let ghost k2 = rel + space_run(entry.skip(rel)) as int;
                proof {
                    assert(reader.remaining() =~= entry.skip(k2));
                }
                match jsfilter_arg(reader) {
                    Ok(arg) => {
                        args.push((space, arg));
                        proof {
                            let arg_text = entry.skip(k2);
                            assert(arg_accepts(arg_text));
                            assert(reader.spec_index() - old(reader).spec_index() == k2
                                + arg_len(arg_text));
                        }
                    }
                    Err(e) => {
                        if e.recoverable {
                            reader.seek(save);
                            proof {
                                let arg_text = entry.skip(k2);
                                assert(!arg_accepts(arg_text));
                                assert(!arg_commits(arg_text));
                                assert(args_scan(entry, rel) == Some((rel, 0nat)));
                            }
                            break;
                        } else {
                            proof {
                                let arg_text = entry.skip(k2);
                                assert(!arg_accepts(arg_text));
                                assert(arg_commits(arg_text));
                                assert(args_scan(entry, rel) is None);
                            }
                            return Err(e);
                        }
                    }
                }
            }
            Err(e2) => {
                proof {
                    assert(args_scan(entry, rel) == Some((rel, 0nat)));
                }
                break;
            }
        }
    }
    Ok(FilterValue::JsFilter { space0, name, args })
}

/// The length of the run of name characters at the head of a text: letters,
/// digits and underscores.
pub open spec fn script_name_tail_run(s: Seq<char>) -> nat
    decreases s.len(),
{
    if s.len() == 0 || !(is_alnum_char(s[0]) || s[0] == '_') {
        0
    } else {
        (1 + script_name_tail_run(s.skip(1))) as nat
    }
}

/// A name-character prefix of length `n` whose next character leaves the
/// class is the longest such run.
proof fn lemma_script_name_tail_run_of(s: Seq<char>, n: int)
    requires
        0 <= n <= s.len(),
        forall|j: int| 0 <= j < n ==> is_alnum_char(#[trigger] s[j]) || s[j] == '_',
        n == s.len() || !(is_alnum_char(s[n]) || s[n] == '_'),
    ensures
        script_name_tail_run(s) == n,
    decreases n,
{
    if n > 0 {
        assert(forall|j: int| 0 <= j < n - 1 ==> s.skip(1)[j] == s[j + 1]);
        lemma_script_name_tail_run_of(s.skip(1), n - 1);
    }
}

/// The length of the script-filter name at the head of a text: a letter or
/// underscore, then letters, digits and underscores. Zero when no name
/// stands there.
pub open spec fn script_name_len(s: Seq<char>) -> nat {
    if s.len() == 0 || !(is_alpha_char(s[0]) || s[0] == '_') {
        0
    } else {
        (1 + script_name_tail_run(s.skip(1))) as nat
    }
}

/// Parses an unquoted filter name: a letter or underscore, then letters,
/// digits or underscores. Succeeds if and only if such a name stands at the
/// cursor, consuming exactly it.
fn jsfilter_name(reader: &mut Reader) -> (r: ParseResult<Template>)
    requires
        old(reader).wf(),
    ensures
        final(reader).wf(),
        final(reader)@ == old(reader)@,
        final(reader).spec_index() >= old(reader).spec_index(),
        r is Ok <==> script_name_len(old(reader).remaining()) > 0,
        r is Ok ==> {
            &&& final(reader).spec_index() == old(reader).spec_index() + script_name_len(
                old(reader).remaining(),
            )
            &&& r->Ok_0.delimiter is None
            &&& r->Ok_0.source_info.start == old(reader).cursor_spec().pos
            &&& r->Ok_0.source_info.end == final(reader).cursor_spec().pos
            &&& r->Ok_0.elements@.len() == 1
            &&& (r->Ok_0.elements@[0] matches TemplateElement::Text { value, source } && value@
                == old(reader).remaining().take(script_name_len(old(reader).remaining()) as int)
                && source@ == value@)
        },
        r is Err ==> {
            &&& r->Err_0.recoverable
            &&& r->Err_0.pos == old(reader).cursor_spec().pos
            &&& (r->Err_0.kind matches ParseErrorKind::Expecting { value } && value@
                == "filter name"@)
        },
{
    let ghost entry = old(reader).remaining();
    let start = reader.cursor();
    let mut name = String::new();

    match reader.peek() {
        Some(c) => {
            if is_alpha(c) || c == '_' {
                let got = reader.read();
                push_char(&mut name, c);
            } else {
                return Err(expecting("filter name", start.pos, true));
            }
        }
        None => {
            return Err(expecting("filter name", start.pos, true));
        }
    }
    loop
        invariant_except_break
            reader.wf(),
            reader@ == old(reader)@,
            name@.len() >= 1,
            is_alpha_char(entry[0]) || entry[0] == '_',
            entry == old(reader).remaining(),
            reader.spec_index() == old(reader).spec_index() + name@.len(),
            name@ == entry.take(name@.len() as int),
            forall|j: int|
                1 <= j < name@.len() ==> is_alnum_char(#[trigger] name@[j]) || name@[j] == '_',
        ensures
            reader.wf(),
            reader@ == old(reader)@,
            name@.len() >= 1,
            reader.spec_index() == old(reader).spec_index() + name@.len(),
            name@ == entry.take(name@.len() as int),
            forall|j: int|
                1 <= j < name@.len() ==> is_alnum_char(#[trigger] name@[j]) || name@[j] == '_',
            reader.spec_index() == reader@.len() || !(is_alnum_char(
                reader@[reader.spec_index()],
            ) || reader@[reader.spec_index()] == '_'),
        decreases reader@.len() - reader.spec_index(),
    {
        match reader.peek() {
            Some(c) => {
                if is_alnum(c) || c == '_' {
                    let got = reader.read();
                    push_char(&mut name, c);
                    proof {
                        assert(name@ =~= entry.take(name@.len() as int));
                    }
                } else {
                    break;
                }
            }
            None => {
                break;
            }
        }
    }
    proof {
        let n = name@.len() as int;
        let tail = entry.skip(1);
        assert(forall|j: int| 0 <= j < n - 1 ==> #[trigger] tail[j] == name@[j + 1]);
        if n - 1 < tail.len() {
            assert(tail[n - 1] == reader@[reader.spec_index()]);
        }
        lemma_script_name_tail_run_of(tail, n - 1);
    }
    let end = reader.cursor();
    let source_info = SourceInfo { start: start.pos, end: end.pos };
    let source = name.clone();
    let element = TemplateElement::Text { value: name, source };
    let mut elements: Vec<TemplateElement> = Vec::new();
    elements.push(element);
    Ok(Template { delimiter: None, elements, source_info })
}

/// The text begins a bare numeric argument: an optional minus sign, then
/// digits.
pub open spec fn bare_number_accepts(s: Seq<char>) -> bool {
    digit_run_len(s.skip(sign_len(s))) > 0
}

/// How many characters a bare numeric argument takes: the optional sign and
/// digits, then one optional dot when digits follow it.
pub open spec fn bare_number_len(s: Seq<char>) -> int {
    let k = sign_len(s) + digit_run_len(s.skip(sign_len(s))) as int;
    if k + 1 < s.len() && s[k] == '.' && is_digit_char(s[k + 1]) {
        k + 1 + digit_run_len(s.skip(k + 1)) as int
    } else {
        k
    }
}

/// Parses one script-filter argument: a placeholder, a quoted string, or a
/// bare numeric literal (an optional minus sign, digits, and one optional
/// dot with trailing digits).
fn jsfilter_arg(reader: &mut Reader) -> (r: ParseResult<Template>)
    requires
        old(reader).wf(),
    ensures
        final(reader).wf(),
        final(reader)@ == old(reader)@,
        final(reader).spec_index() >= old(reader).spec_index(),
        r is Err && r->Err_0.recoverable ==> final(reader).cursor_spec() == old(
            reader,
        ).cursor_spec(),
        r is Ok ==> final(reader).spec_index() > old(reader).spec_index(),
        r is Ok ==> r->Ok_0.source_info.start == old(reader).cursor_spec().pos
            && r->Ok_0.source_info.end == final(reader).cursor_spec().pos,
        old(reader).remaining().len() == 0 ==> r is Err && r->Err_0.recoverable,
        old(reader).remaining().len() > 0 ==> ({
            let s = old(reader).remaining();
            &&& (s[0] == '{' ==> (r is Ok <==> placeholder_accepts(s)))
            &&& (s[0] == '{' && r is Ok ==> final(reader).spec_index() == old(
                reader,
            ).spec_index() + placeholder_len(s) && r->Ok_0.delimiter is None
                && r->Ok_0.elements@.len() == 1 && (r->Ok_0.elements@[0]
                matches TemplateElement::Placeholder(p) && p.expr.name@ == placeholder_name(s)))
            &&& (s[0] == '"' ==> (r is Ok <==> quoted_accepts(s)))
            &&& (s[0] == '"' && r is Ok ==> final(reader).spec_index() == old(
                reader,
            ).spec_index() + quoted_len(s) && r->Ok_0.delimiter == Some('"'))
            &&& (s[0] == '"' && r is Err ==> !r->Err_0.recoverable)
            &&& (s[0] == '{' && r is Err ==> (r->Err_0.recoverable <==> !("{{"@.is_prefix_of(
                s,
            ))))
            &&& ((is_digit_char(s[0]) || s[0] == '-') && r is Err ==> r->Err_0.recoverable)
            &&& (is_digit_char(s[0]) || s[0] == '-' ==> (r is Ok <==> bare_number_accepts(s)))
            &&& ((is_digit_char(s[0]) || s[0] == '-') && r is Ok ==> final(reader).spec_index()
                == old(reader).spec_index() + bare_number_len(s) && r->Ok_0.delimiter is None
                && r->Ok_0.elements@.len() == 1 && (r->Ok_0.elements@[0]
                matches TemplateElement::Text { value, source } && value@ == s.take(
                bare_number_len(s),
            ) && source@ == value@))
            &&& (!(s[0] == '{' || s[0] == '"' || is_digit_char(s[0]) || s[0] == '-') ==> r
                is Err && r->Err_0.recoverable)
        }),
{
    let ghost arg_entry = old(reader).remaining();
    let start = reader.cursor();
    match reader.peek() {
        Some(c) => {
            if c == '{' {
                let p = match placeholder(reader) {
                    Ok(p) => p,
                    Err(e) => {
                        return Err(e);
                    }
                };
                let end = reader.cursor();
                let source_info = SourceInfo { start: start.pos, end: end.pos };
                let element = TemplateElement::Placeholder(p);
                let mut elements: Vec<TemplateElement> = Vec::new();
                elements.push(element);
                return Ok(Template { delimiter: None, elements, source_info });
            }
            if c == '"' {
                match quoted_template(reader) {
                    Ok(t) => {
                        return Ok(t);
                    }
                    Err(e) => {
                        return Err(e);
                    }
                }
            }
            if is_digit(c) || c == '-' {
                let mut num_str = String::new();
                if c == '-' {
                    let got = reader.read();
                    push_char(&mut num_str, '-');
                }
                proof {
                    assert(reader.remaining() =~= arg_entry.skip(sign_len(arg_entry)));
                }
                let intrun = match digit_run(reader) {
                    Some(run) => run,
                    None => {
                        reader.seek(start);
                        return Err(expecting("argument", start.pos, true));
                    }
                };
                num_str.append(intrun.0.as_str());
                let ghost k = sign_len(arg_entry) + digit_run_len(
                    arg_entry.skip(sign_len(arg_entry)),
                ) as int;
                proof {
                    assert(reader.spec_index() == old(reader).spec_index() + k);
                    assert(reader.remaining() =~= arg_entry.skip(k));
                    if k < arg_entry.len() {
                        assert(arg_entry[k] == reader@[reader.spec_index()]);
                    }
                    if k + 1 < arg_entry.len() {
                        assert(arg_entry[k + 1] == reader@[reader.spec_index() + 1]);
                    }
                }
                // One optional dot, consumed only when digits follow it.
                let save_dot = reader.cursor();
                let has_dot = match reader.peek() {
                    Some(d) => d == '.',
                    None => false,
                };
                if has_dot {
                    let got = reader.read();
                    let frac_follows = match reader.peek() {
                        Some(d2) => is_digit(d2),
                        None => false,
                    };
                    if frac_follows {
                        proof {
                            assert(reader.remaining() =~= arg_entry.skip(k + 1));
                        }
                        let frac = match digit_run(reader) {
                            Some(run2) => run2,
                            None => vstd::pervasive::unreached(),
                        };
                        push_char(&mut num_str, '.');
                        num_str.append(frac.0.as_str());
                    } else {
                        reader.seek(save_dot);
                    }
                }
                proof {
                    assert(num_str@ =~= arg_entry.take(bare_number_len(arg_entry)));
                }
                let end = reader.cursor();
                let source_info = SourceInfo { start: start.pos, end: end.pos };
                let source = num_str.clone();
                let element = TemplateElement::Text { value: num_str, source };
                let mut elements: Vec<TemplateElement> = Vec::new();
                elements.push(element);
                return Ok(Template { delimiter: None, elements, source_info });
            }
            Err(expecting("argument", start.pos, true))
        }
        None => Err(expecting("argument", start.pos, true)),
    }
}

} // verus!
