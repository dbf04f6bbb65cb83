//! Core recognizers: literals, whitespace, quoted templates, placeholders.
//!
//! Recognizers that select an alternative fail *recoverably* when their
//! leading token is absent, leaving the reader where it was; once committed,
//! any further failure is reported as non-recoverable with a precise position.

use vstd::prelude::*;

use crate::ast::{Expr, Placeholder, SourceInfo, Template, TemplateElement, Whitespace};
use crate::chars::{is_alnum, is_alnum_char, is_alpha, is_alpha_char, is_digit, is_space, is_space_char};
use crate::parse_error::{ParseError, ParseErrorKind, ParseResult};
use crate::reader::Reader;
use crate::text::push_char;

verus! {

/// A recoverable `Expecting` failure at the given reader position.
pub fn expecting(value: &str, pos: crate::reader::Pos, recoverable: bool) -> (e: ParseError)
    ensures
        e.pos == pos,
        e.recoverable == recoverable,
        e.kind matches ParseErrorKind::Expecting { value: v } && v@ == value@,
{
    ParseError {
        pos,
        recoverable,
        kind: ParseErrorKind::Expecting { value: String::from_str(value) },
    }
}

/// Consumes the exact literal `s`, or fails recoverably with the reader left
/// untouched. Succeeds if and only if the remaining input starts with `s`.
pub fn try_literal(s: &str, reader: &mut Reader) -> (r: ParseResult<()>)
    requires
        old(reader).wf(),
    ensures
        final(reader).wf(),
        final(reader)@ == old(reader)@,
        r is Ok <==> s@.is_prefix_of(old(reader).remaining()),
        r is Ok ==> final(reader).spec_index() == old(reader).spec_index() + s@.len(),
        r is Err ==> {
            &&& final(reader).cursor_spec() == old(reader).cursor_spec()
            &&& r->Err_0.recoverable
            &&& r->Err_0.pos == old(reader).cursor_spec().pos
        },
    {
    let start = reader.cursor();
    let n = s.unicode_len();
    let mut i: usize = 0;
    while i < n
        invariant
            reader.wf(),
            reader@ == old(reader)@,
            n == s@.len(),
            i <= n,
            start == old(reader).cursor_spec(),
            start.pos == crate::reader::pos_at(reader@, start.index as int),
            start.index + i == reader.spec_index(),
            reader.spec_index() <= reader@.len(),
            forall|j: int| 0 <= j < i ==> old(reader).remaining()[j] == s@[j],
        decreases n - i,
    {
        let expected = s.get_char(i);
        let got = reader.read();
        match got {
            Some(c) => {
                if c == expected {
                    i = i + 1;
                } else {
                    proof {
                        assert(old(reader).remaining()[i as int] == c);
                        assert(!s@.is_prefix_of(old(reader).remaining()));
                    }
                    reader.seek(start);
                    return Err(expecting(s, start.pos, true));
                }
            }
            None => {
                proof {
                    assert(old(reader).remaining().len() == i);
                    assert(!s@.is_prefix_of(old(reader).remaining()));
                }
                reader.seek(start);
                return Err(expecting(s, start.pos, true));
            }
        }
    }
    proof {
        assert(s@ =~= old(reader).remaining().take(n as int));
        assert(s@.is_prefix_of(old(reader).remaining()));
    }
    Ok(())
}

/// The length of the longest run of blank characters at the head of a text.
pub open spec fn space_run(s: Seq<char>) -> nat
    decreases s.len(),
{
    if s.len() == 0 || !is_space_char(s[0]) {
        0
    } else {
        (1 + space_run(s.skip(1))) as nat
    }
}

/// A blank prefix of length `n` whose next character is not blank is the
/// longest blank run.
pub proof fn lemma_space_run_of(s: Seq<char>, n: int)
    requires
        0 <= n <= s.len(),
        forall|j: int| 0 <= j < n ==> is_space_char(#[trigger] s[j]),
        n == s.len() || !is_space_char(s[n]),
    ensures
        space_run(s) == n,
    decreases n,
{
    if n > 0 {
        assert(forall|j: int| 0 <= j < n - 1 ==> s.skip(1)[j] == s[j + 1]);
        lemma_space_run_of(s.skip(1), n - 1);
    }
}

/// Consumes the longest run of blank characters, possibly empty.
pub fn zero_or_more_spaces(reader: &mut Reader) -> (r: Whitespace)
    requires
        old(reader).wf(),
    ensures
        final(reader).wf(),
        final(reader)@ == old(reader)@,
        final(reader).spec_index() == old(reader).spec_index() + r.value@.len(),
        forall|j: int| 0 <= j < r.value@.len() ==> is_space_char(#[trigger] r.value@[j]),
        r.value@ == old(reader).remaining().take(r.value@.len() as int),
        final(reader).spec_index() < final(reader)@.len() ==> !is_space_char(
            final(reader)@[final(reader).spec_index()],
        ),
        r.value@.len() == space_run(old(reader).remaining()),
        r.value@.len() == 0 <==> (old(reader).remaining().len() == 0 || !is_space_char(
            old(reader).remaining()[0],
        )),
{
    let start = reader.cursor();
    let mut value = String::new();
    loop
        invariant_except_break
            reader.wf(),
            reader@ == old(reader)@,
            reader.spec_index() == old(reader).spec_index() + value@.len(),
            forall|j: int| 0 <= j < value@.len() ==> is_space_char(#[trigger] value@[j]),
            value@ == old(reader).remaining().take(value@.len() as int),
        ensures
            reader.wf(),
            reader@ == old(reader)@,
            reader.spec_index() == old(reader).spec_index() + value@.len(),
            forall|j: int| 0 <= j < value@.len() ==> is_space_char(#[trigger] value@[j]),
            value@ == old(reader).remaining().take(value@.len() as int),
            reader.spec_index() == reader@.len() || !is_space_char(
                reader@[reader.spec_index()],
            ),
        decreases reader@.len() - reader.spec_index(),
    {
        match reader.peek() {
            Some(c) => {
                if is_space(c) {
                    let got = reader.read();
                    push_char(&mut value, c);
                    proof {
                        assert(value@ =~= old(reader).remaining().take(value@.len() as int));
                    }
                } else {
                    break;
                }
            }
            None => {
                break;
            }
        }
    }
    proof {
        let rem = old(reader).remaining();
        let n = value@.len() as int;
        assert(forall|j: int| 0 <= j < n ==> rem[j] == value@[j]);
        if n < rem.len() {
            assert(rem[n] == reader@[reader.spec_index()]);
        }
        lemma_space_run_of(rem, n);
        if value@.len() > 0 {
            assert(is_space_char(rem[0]));
        }
    }
    let end = reader.cursor();
    Whitespace { value, source_info: SourceInfo { start: start.pos, end: end.pos } }
}

/// Consumes at least one blank character, or fails recoverably.
pub fn one_or_more_spaces(reader: &mut Reader) -> (r: ParseResult<Whitespace>)
    requires
        old(reader).wf(),
    ensures
        final(reader).wf(),
        final(reader)@ == old(reader)@,
        r is Ok <==> (old(reader).remaining().len() > 0 && is_space_char(
            old(reader).remaining()[0],
        )),
        r is Ok ==> {
            &&& r->Ok_0.value@.len() > 0
            &&& r->Ok_0.value@.len() == space_run(old(reader).remaining())
            &&& final(reader).spec_index() == old(reader).spec_index() + r->Ok_0.value@.len()
            &&& forall|j: int|
                0 <= j < r->Ok_0.value@.len() ==> is_space_char(#[trigger] r->Ok_0.value@[j])
        },
        r is Err ==> {
            &&& final(reader).cursor_spec() == old(reader).cursor_spec()
            &&& r->Err_0.recoverable
        },
{
    let start = reader.cursor();
    let space = zero_or_more_spaces(reader);
    if space.value.as_str().unicode_len() == 0 {
        reader.seek(start);
        Err(expecting("space", start.pos, true))
    } else {
        proof {
            let rem = old(reader).remaining();
            let n = space.value@.len() as int;
            assert(forall|j: int| 0 <= j < n ==> rem[j] == space.value@[j]);
            if n < rem.len() {
                assert(rem[n] == reader@[reader.spec_index()]);
            }
            lemma_space_run_of(rem, n);
        }
        Ok(space)
    }
}

/// The length of the run of name-tail characters at the head of a text:
/// letters, digits, underscores and dashes.
pub open spec fn name_tail_run(s: Seq<char>) -> nat
    decreases s.len(),
{
    if s.len() == 0 || !(is_alnum_char(s[0]) || s[0] == '_' || s[0] == '-') {
        0
    } else {
        (1 + name_tail_run(s.skip(1))) as nat
    }
}

/// A name-tail prefix of length `n` whose next character leaves the class is
/// the longest such run.
pub proof fn lemma_name_tail_run_of(s: Seq<char>, n: int)
    requires
        0 <= n <= s.len(),
        forall|j: int|
            0 <= j < n ==> is_alnum_char(#[trigger] s[j]) || s[j] == '_' || s[j] == '-',
        n == s.len() || !(is_alnum_char(s[n]) || s[n] == '_' || s[n] == '-'),
    ensures
        name_tail_run(s) == n,
    decreases n,
{
    if n > 0 {
        assert(forall|j: int| 0 <= j < n - 1 ==> s.skip(1)[j] == s[j + 1]);
        lemma_name_tail_run_of(s.skip(1), n - 1);
    }
}

/// The length of the variable name at the head of a text: a letter or
/// underscore, then letters, digits, underscores and dashes. Zero when no
/// name stands there.
pub open spec fn expr_name_len(s: Seq<char>) -> nat {
    if s.len() == 0 || !(is_alpha_char(s[0]) || s[0] == '_') {
        0
    } else {
        (1 + name_tail_run(s.skip(1))) as nat
    }
}

/// Parses a variable reference: a letter or underscore, then letters, digits,
/// underscores or dashes.
fn expr_name(reader: &mut Reader) -> (r: ParseResult<Expr>)
    requires
        old(reader).wf(),
    ensures
        final(reader).wf(),
        final(reader)@ == old(reader)@,
        final(reader).spec_index() >= old(reader).spec_index(),
        r is Ok <==> expr_name_len(old(reader).remaining()) > 0,
        r is Ok ==> {
            &&& r->Ok_0.name@ == old(reader).remaining().take(
                expr_name_len(old(reader).remaining()) as int,
            )
            &&& final(reader).spec_index() == old(reader).spec_index() + expr_name_len(
                old(reader).remaining(),
            )
        },
        r is Err ==> {
            &&& final(reader).cursor_spec() == old(reader).cursor_spec()
            &&& !r->Err_0.recoverable
            &&& r->Err_0.pos == old(reader).cursor_spec().pos
        },
{
    let ghost entry = old(reader).remaining();
    let start = reader.cursor();
    let mut name = String::new();
    match reader.peek() {
        Some(c) => {
            if is_alpha(c) || c == '_' {
                let got = reader.read();
                push_char(&mut name, c);
            } else {
                return Err(expecting("variable name", start.pos, false));
            }
        }
        None => {
            return Err(expecting("variable name", start.pos, false));
        }
    }
    loop
        invariant_except_break
            reader.wf(),
            reader@ == old(reader)@,
            name@.len() >= 1,
            is_alpha_char(entry[0]) || entry[0] == '_',
            entry == old(reader).remaining(),
            reader.spec_index() == old(reader).spec_index() + name@.len(),
            name@ == entry.take(name@.len() as int),
            forall|j: int|
                1 <= j < name@.len() ==> is_alnum_char(#[trigger] name@[j]) || name@[j] == '_'
                    || name@[j] == '-',
        ensures
            reader.wf(),
            reader@ == old(reader)@,
            name@.len() >= 1,
            reader.spec_index() == old(reader).spec_index() + name@.len(),
            name@ == entry.take(name@.len() as int),
            forall|j: int|
                1 <= j < name@.len() ==> is_alnum_char(#[trigger] name@[j]) || name@[j] == '_'
                    || name@[j] == '-',
            reader.spec_index() == reader@.len() || !(is_alnum_char(
                reader@[reader.spec_index()],
            ) || reader@[reader.spec_index()] == '_' || reader@[reader.spec_index()] == '-'),
        decreases reader@.len() - reader.spec_index(),
    {
        match reader.peek() {
            Some(c) => {
                if is_alnum(c) || c == '_' || c == '-' {
                    let got = reader.read();
                    push_char(&mut name, c);
                    proof {
                        assert(name@ =~= entry.take(name@.len() as int));
                    }
                } else {
                    break;
                }
            }
            None => {
                break;
            }
        }
    }
    proof {
        let n = name@.len() as int;
        let tail = entry.skip(1);
        assert(forall|j: int| 0 <= j < n - 1 ==> #[trigger] tail[j] == name@[j + 1]);
        if n - 1 < tail.len() {
            assert(tail[n - 1] == reader@[reader.spec_index()]);
        }
        lemma_name_tail_run_of(tail, n - 1);
    }
    let end = reader.cursor();
    Ok(Expr { name, source_info: SourceInfo { start: start.pos, end: end.pos } })
}

/// Where the variable name inside a placeholder starts: past the opening
/// braces and the blanks.
pub open spec fn placeholder_name_at(s: Seq<char>) -> int {
    2 + space_run(s.skip(2)) as int
}

/// Where the closing braces of a placeholder must stand: past the name and
/// the blanks after it.
pub open spec fn placeholder_close_at(s: Seq<char>) -> int {
    let a = placeholder_name_at(s);
    let b = a + expr_name_len(s.skip(a)) as int;
    b + space_run(s.skip(b)) as int
}

/// The text begins a well-formed placeholder: opening braces, blanks, a
/// variable name, blanks, closing braces.
pub open spec fn placeholder_accepts(s: Seq<char>) -> bool {
    &&& "{{"@.is_prefix_of(s)
    &&& expr_name_len(s.skip(placeholder_name_at(s))) > 0
    &&& "}}"@.is_prefix_of(s.skip(placeholder_close_at(s)))
}

/// How many characters a well-formed placeholder takes.
pub open spec fn placeholder_len(s: Seq<char>) -> int {
    placeholder_close_at(s) + 2
}

/// The variable name inside a well-formed placeholder.
pub open spec fn placeholder_name(s: Seq<char>) -> Seq<char> {
    s.skip(placeholder_name_at(s)).take(expr_name_len(s.skip(placeholder_name_at(s))) as int)
}

/// Where a malformed placeholder is reported: at the start when the opening
/// braces are absent, at the name position when no name stands there, else
/// at the spot where the closing braces were expected.
pub open spec fn placeholder_fail_at(s: Seq<char>) -> int {
    if !("{{"@.is_prefix_of(s)) {
        0
    } else if expr_name_len(s.skip(placeholder_name_at(s))) == 0 {
        placeholder_name_at(s)
    } else {
        placeholder_close_at(s)
    }
}

/// Parses `{{ expr }}`. Fails recoverably only when the opening braces are
/// absent; once they matched, the placeholder must be well formed. Succeeds
/// if and only if a well-formed placeholder stands at the cursor, consuming
/// exactly it and carrying its variable name.
pub fn placeholder(reader: &mut Reader) -> (r: ParseResult<Placeholder>)
    requires
        old(reader).wf(),
    ensures
        final(reader).wf(),
        final(reader)@ == old(reader)@,
        final(reader).spec_index() >= old(reader).spec_index(),
        r is Err && r->Err_0.recoverable ==> final(reader).cursor_spec() == old(
            reader,
        ).cursor_spec(),
        r is Err && !("{{"@.is_prefix_of(old(reader).remaining())) ==> r->Err_0.recoverable,
        r is Err && "{{"@.is_prefix_of(old(reader).remaining()) ==> !r->Err_0.recoverable,
        r is Err ==> r->Err_0.pos == crate::reader::pos_at(
            old(reader)@,
            old(reader).spec_index() + placeholder_fail_at(old(reader).remaining()),
        ),
        r is Ok <==> placeholder_accepts(old(reader).remaining()),
        r is Ok ==> {
            &&& final(reader).spec_index() == old(reader).spec_index() + placeholder_len(
                old(reader).remaining(),
            )
            &&& r->Ok_0.expr.name@ == placeholder_name(old(reader).remaining())
        },
{
    proof {
        reveal_strlit("{{");
        reveal_strlit("}}");
    }
    let ghost entry = old(reader).remaining();
    let start = reader.cursor();
    let lit = try_literal("{{", reader);
    match lit {
        Ok(u) => {}
        Err(e) => {
            return Err(e);
        }
    }
    proof {
        assert(reader.remaining() =~= entry.skip(2));
    }
    let space0 = zero_or_more_spaces(reader);
    proof {
        assert(reader.remaining() =~= entry.skip(placeholder_name_at(entry)));
    }
    let expr = match expr_name(reader) {
        Ok(e) => e,
        Err(e) => {
            return Err(e);
        }
    };
    proof {
        let a = placeholder_name_at(entry);
        assert(reader.remaining() =~= entry.skip(a + expr_name_len(entry.skip(a)) as int));
    }
    let space1 = zero_or_more_spaces(reader);
    proof {
        assert(reader.remaining() =~= entry.skip(placeholder_close_at(entry)));
    }
    let close = try_literal("}}", reader);
    match close {
        Ok(u) => {}
        Err(e) => {
            let at = reader.cursor();
            return Err(expecting("}}", at.pos, false));
        }
    }
    let end = reader.cursor();
    Ok(
        Placeholder {
            space0,
            expr,
            space1,
            source_info: SourceInfo { start: start.pos, end: end.pos },
        },
    )
}

/// The escape characters a template accepts after a backslash.
pub open spec fn legal_escape(c: char) -> bool {
    c == '"' || c == '\\' || c == 'n' || c == 'r' || c == 't' || c == 'b' || c == 'f'
}

/// Scans a quoted template's content from index `i` (past the opening
/// quote): literal characters, backslash escapes and embedded placeholders,
/// up to the closing quote. Yields the index just past the closing quote,
/// or a negative number when the content is ill formed or unterminated.
pub open spec fn template_body_end(s: Seq<char>, i: int) -> int
    decreases s.len() - i,
    via template_body_end_dec
{
    if i < 0 || i >= s.len() {
        -1
    } else if s[i] == '"' {
        i + 1
    } else if s[i] == '\\' {
        if i + 1 < s.len() && legal_escape(s[i + 1]) {
            template_body_end(s, i + 2)
        } else {
            -1
        }
    } else if s[i] == '{' && i + 1 < s.len() && s[i + 1] == '{' {
        if placeholder_accepts(s.skip(i)) {
            let j = i + placeholder_len(s.skip(i));
            if j <= s.len() {
                template_body_end(s, j)
            } else {
                -1
            }
        } else {
            -1
        }
    } else {
        template_body_end(s, i + 1)
    }
}

#[via_fn]
proof fn template_body_end_dec(s: Seq<char>, i: int) {
    if 0 <= i < s.len() && s[i] == '{' && i + 1 < s.len() && s[i + 1] == '{'
        && placeholder_accepts(s.skip(i)) {
        assert(placeholder_len(s.skip(i)) >= 5);
    }
}

/// The text begins a well-formed quoted template: an opening quote, then
/// well-formed content up to a closing quote.
pub open spec fn quoted_accepts(s: Seq<char>) -> bool {
    s.len() > 0 && s[0] == '"' && template_body_end(s, 1) >= 0
}

/// How many characters a well-formed quoted template takes.
pub open spec fn quoted_len(s: Seq<char>) -> int {
    template_body_end(s, 1)
}

/// The character denoted by a backslash escape, if the escape is legal.
fn decode_escape(c: char) -> (r: Option<char>)
    ensures
        r is Some <==> legal_escape(c),
{
    if c == '"' {
        Some('"')
    } else if c == '\\' {
        Some('\\')
    } else if c == 'n' {
        Some('\n')
    } else if c == 'r' {
        Some('\r')
    } else if c == 't' {
        Some('\t')
    } else if c == 'b' {
        Some('\u{8}')
    } else if c == 'f' {
        Some('\u{c}')
    } else {
        None
    }
}

/// Parses a double-quoted template: literal text, backslash escapes and
/// embedded `{{ expr }}` placeholders, up to the closing quote. Fails
/// recoverably only when the opening quote is absent.
pub fn quoted_template(reader: &mut Reader) -> (r: ParseResult<Template>)
    requires
        old(reader).wf(),
    ensures
        final(reader).wf(),
        final(reader)@ == old(reader)@,
        final(reader).spec_index() >= old(reader).spec_index(),
        r is Err && r->Err_0.recoverable ==> final(reader).cursor_spec() == old(
            reader,
        ).cursor_spec(),
        r is Err && (old(reader).remaining().len() == 0 || old(reader).remaining()[0] != '"')
            ==> r->Err_0.recoverable,
        r is Err && old(reader).remaining().len() > 0 && old(reader).remaining()[0] == '"'
            ==> !r->Err_0.recoverable,
        r is Ok ==> r->Ok_0.delimiter == Some('"') && final(reader).spec_index() > old(
            reader,
        ).spec_index(),
        r is Ok <==> quoted_accepts(old(reader).remaining()),
        r is Ok ==> final(reader).spec_index() == old(reader).spec_index() + quoted_len(
            old(reader).remaining(),
        ),
        r is Ok ==> r->Ok_0.source_info.start == old(reader).cursor_spec().pos
            && r->Ok_0.source_info.end == final(reader).cursor_spec().pos,
{
    let ghost entry = old(reader).remaining();
    let start = reader.cursor();
    match reader.peek() {
        Some(c) => {
            if c != '"' {
                return Err(expecting("\"", start.pos, true));
            }
        }
        None => {
            return Err(expecting("\"", start.pos, true));
        }
    }
    let got = reader.read();
    let mut elements: Vec<TemplateElement> = Vec::new();
    let mut value = String::new();
    let mut source = String::new();
    loop
        invariant_except_break
            reader.wf(),
            reader@ == old(reader)@,
            reader.spec_index() > old(reader).spec_index(),
            entry == old(reader).remaining(),
            entry.len() > 0,
            entry[0] == '"',
            template_body_end(entry, reader.spec_index() - old(reader).spec_index())
                == template_body_end(entry, 1),
        ensures
            reader.wf(),
            reader@ == old(reader)@,
            entry.len() > 0,
            entry[0] == '"',
            reader.spec_index() > old(reader).spec_index(),
            reader.spec_index() == old(reader).spec_index() + template_body_end(entry, 1),
        decreases reader@.len() - reader.spec_index(),
    {
        proof {
            let rel = reader.spec_index() - old(reader).spec_index();
            if rel < entry.len() {
                assert(entry[rel] == reader@[reader.spec_index()]);
            }
            if rel + 1 < entry.len() {
                assert(entry[rel + 1] == reader@[reader.spec_index() + 1]);
            }
        }
        let at = reader.cursor();
        match reader.peek() {
            None => {
                return Err(expecting("\"", at.pos, false));
            }
            Some(c) => {
                if c == '"' {
                    let got2 = reader.read();
                    break;
                } else if c == '{' {
                    // A `{{` opens a placeholder; a lone `{` is literal text.
                    let save = reader.cursor();
                    let got2 = reader.read();
                    let two = match reader.peek() {
                        Some(c2) => c2 == '{',
                        None => false,
                    };
                    reader.seek(save);
                    if two {
                        if value.as_str().unicode_len() > 0 {
                            elements.push(TemplateElement::Text { value, source });
                            value = String::new();
                            source = String::new();
                        }
                        proof {
                            let rel = reader.spec_index() - old(reader).spec_index();
                            assert(reader.remaining() =~= entry.skip(rel));
                        }
                        match placeholder(reader) {
                            Ok(p) => {
                                elements.push(TemplateElement::Placeholder(p));
                            }
                            Err(e) => {
                                return Err(e.to_non_recoverable());
                            }
                        }
                    } else {
                        let got3 = reader.read();
                        push_char(&mut value, '{');
                        push_char(&mut source, '{');
                    }
                } else if c == '\\' {
                    let got2 = reader.read();
                    let raw = match reader.read() {
                        Some(r2) => r2,
                        None => {
                            return Err(expecting("escape character", at.pos, false));
                        }
                    };
                    let decoded = match decode_escape(raw) {
                        Some(d) => d,
                        None => {
                            return Err(expecting("escape character", at.pos, false));
                        }
                    };
                    push_char(&mut value, decoded);
                    // The source keeps the escape verbatim.
                    push_char(&mut source, '\\');
                    push_char(&mut source, raw);
                } else {
                    let got2 = reader.read();
                    push_char(&mut value, c);
                    push_char(&mut source, c);
                }
            }
        }
    }
    if value.as_str().unicode_len() > 0 {
        elements.push(TemplateElement::Text { value, source });
    }
    let end = reader.cursor();
    Ok(
        Template {
            delimiter: Some('"'),
            elements,
            source_info: SourceInfo { start: start.pos, end: end.pos },
        },
    )
}

} // verus!
