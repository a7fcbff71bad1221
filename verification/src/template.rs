//! The interpolatable string-template grammars: quoted and unquoted
//! templates made of literal segments and `{{ name }}` expressions.
//!
//! The `encoded` field of a literal segment keeps the exact source spelling
//! (escapes included), so a template's segments concatenate back to the
//! input slice.

use vstd::prelude::*;

use crate::ast::Expr;
use crate::ast::SourceInfo;
use crate::ast::Template;
use crate::ast::TemplateElement;
use crate::ast::Variable;
use crate::ast::elements_text;
use crate::ast::expr_text;
use crate::ast::lemma_elements_text_push;
use crate::ast::template_text;
use crate::error::ParseError;
use crate::error::ParseResult;
use crate::primitives::CharClass;
use crate::primitives::in_class;
use crate::primitives::is_uq_terminator;
use crate::primitives::lemma_run_end_props;
use crate::primitives::lemma_subrange_join;
use crate::primitives::push_all;
use crate::primitives::read_class;
use crate::primitives::run_end;
use crate::primitives::string_of;
use crate::primitives::try_consume_char;
use crate::primitives::zero_or_more_spaces;
use crate::reader::Reader;
use crate::reader::pos_at;

verus! {

// ---------------------------------------------------------------------------
// Interpolated expressions.
// ---------------------------------------------------------------------------

/// Where the spacing after `{{` ends.
pub open spec fn expr_name_start(s: Seq<char>, i: int) -> int {
    run_end(CharClass::Space, s, i + 2)
}

/// Where the variable name inside `{{ }}` ends.
pub open spec fn expr_name_end(s: Seq<char>, i: int) -> int {
    run_end(CharClass::VarName, s, expr_name_start(s, i))
}

/// Where the spacing before `}}` ends.
pub open spec fn expr_close_start(s: Seq<char>, i: int) -> int {
    run_end(CharClass::Space, s, expr_name_end(s, i))
}

/// Where the whole expression ends, after `}}`.
pub open spec fn expr_end(s: Seq<char>, i: int) -> int {
    expr_close_start(s, i) + 2
}

/// An interpolated expression is accepted at `i`: `{{`, spacing, a nonempty
/// variable name, spacing, `}}`.
pub open spec fn expr_ok(s: Seq<char>, i: int) -> bool {
    &&& 0 <= i
    &&& i + 1 < s.len()
    &&& s[i] == '{'
    &&& s[i + 1] == '{'
    &&& expr_name_end(s, i) > expr_name_start(s, i)
    &&& expr_close_start(s, i) + 1 < s.len()
    &&& s[expr_close_start(s, i)] == '}'
    &&& s[expr_close_start(s, i) + 1] == '}'
}

/// Parse a `{{ name }}` expression.  The caller has already seen the double
/// brace, so every failure inside is fatal.
fn expr(reader: &mut Reader) -> (r: ParseResult<Expr>)
    requires
        old(reader).wf(),
        old(reader).cursor() + 1 < old(reader).text().len(),
        old(reader).text()[old(reader).cursor()] == '{',
        old(reader).text()[old(reader).cursor() + 1] == '{',
    ensures
        final(reader).wf(),
        final(reader).text() == old(reader).text(),
        0 <= old(reader).cursor() <= final(reader).cursor() <= final(reader).text().len(),
        r is Err ==> !r->Err_0.recoverable,
        r is Ok ==> expr_ok(old(reader).text(), old(reader).cursor()),
        expr_ok(old(reader).text(), old(reader).cursor()) ==> (r matches Ok(x) && final(reader).cursor() == expr_end(old(reader).text(), old(reader).cursor()) && expr_text(x) == old(reader).text().subrange(old(reader).cursor(), final(reader).cursor()) && x.variable.name@ == old(reader).text().subrange(
            expr_name_start(old(reader).text(), old(reader).cursor()),
            expr_name_end(old(reader).text(), old(reader).cursor()),
        )),
        r is Ok ==> final(reader).cursor() > old(reader).cursor(),
{
    let ghost s = reader.text();
    let ghost i0 = reader.cursor();
    proof {
        crate::reader::lemma_wf(reader);
    }
    let c1 = try_consume_char(reader, '{');
    let c2 = try_consume_char(reader, '{');
    proof {
        assert(c1 && c2);
    }
    let space0 = zero_or_more_spaces(reader);
    let ghost j = reader.cursor();
    let nstart = reader.snapshot();
    let name_chars = read_class(reader, CharClass::VarName);
    if name_chars.len() == 0 {
        return Err(ParseError::expecting("variable name", nstart.pos, false));
    }
    let name = string_of(&name_chars);
    let nend = reader.snapshot();
    let ghost ne = reader.cursor();
    let variable = Variable { name, source_info: SourceInfo { start: nstart.pos, end: nend.pos } };
    let space1 = zero_or_more_spaces(reader);
    let ghost l = reader.cursor();
    let pos2 = reader.current_pos();
    if !try_consume_char(reader, '}') {
        return Err(ParseError::expecting("}}", pos2, false));
    }
    if !try_consume_char(reader, '}') {
        return Err(ParseError::expecting("}}", pos2, false));
    }
    let x = Expr { space0, variable, space1 };
    proof {
        assert(expr_text(x) =~= s.subrange(i0, l + 2));
    }
    Ok(x)
}

// ---------------------------------------------------------------------------
// Unquoted templates.
// ---------------------------------------------------------------------------

/// The plain shape of an unquoted template: a nonempty run of plain literal
/// characters (no interpolation), ended by spacing, a comment, a line ending
/// or the end of input.
pub open spec fn uq_simple_ok(s: Seq<char>, i: int) -> bool {
    &&& 0 <= i
    &&& run_end(CharClass::UnquotedPlain, s, i) > i
    &&& (run_end(CharClass::UnquotedPlain, s, i) == s.len() || is_uq_terminator(
        s[run_end(CharClass::UnquotedPlain, s, i)],
    ))
}

/// Where the plain unquoted template ends.
pub open spec fn uq_simple_end(s: Seq<char>, i: int) -> int {
    run_end(CharClass::UnquotedPlain, s, i)
}

/// Where the element stream of an unquoted template ends: literal
/// characters, lone `{`s and accepted expressions up to spacing, `#`, a
/// line ending or the end of input; `None` when an opened expression is
/// malformed.
pub open spec fn uq_body_end(s: Seq<char>, i: int) -> Option<int>
    decreases s.len() - i,
{
    if !(0 <= i < s.len()) {
        if i == s.len() {
            Some(i)
        } else {
            None
        }
    } else if is_uq_terminator(s[i]) {
        Some(i)
    } else if s[i] == '{' && i + 1 < s.len() && s[i + 1] == '{' {
        if expr_ok(s, i) && i < expr_end(s, i) <= s.len() {
            uq_body_end(s, expr_end(s, i))
        } else {
            None
        }
    } else {
        uq_body_end(s, i + 1)
    }
}

/// An unquoted template is accepted at `i`: a nonempty element stream.
pub open spec fn uq_accepts(s: Seq<char>, i: int) -> bool {
    uq_body_end(s, i) matches Some(e) && e > i
}

/// Where the accepted unquoted template ends.
pub open spec fn uq_end(s: Seq<char>, i: int) -> int {
    uq_body_end(s, i)->Some_0
}

/// Stepping over a run of plain literal characters leaves the element
/// stream's end unchanged.
pub proof fn lemma_uq_body_run(s: Seq<char>, a: int, b: int)
    requires
        0 <= a <= b <= s.len(),
        forall|j: int| a <= j < b ==> in_class(CharClass::UnquotedPlain, #[trigger] s[j]),
    ensures
        uq_body_end(s, a) == uq_body_end(s, b),
    decreases b - a,
{
    if a < b {
        assert(in_class(CharClass::UnquotedPlain, s[a]));
        lemma_uq_body_run(s, a + 1, b);
    }
}

/// Parse an unquoted template: literal text and `{{ name }}` expressions up
/// to spacing, a comment, a line ending or the end of input.  An empty
/// capture is a recoverable failure.
pub fn unquoted_template(reader: &mut Reader) -> (r: ParseResult<Template>)
    requires
        old(reader).wf(),
    ensures
        final(reader).wf(),
        final(reader).text() == old(reader).text(),
        0 <= old(reader).cursor() <= final(reader).cursor() <= final(reader).text().len(),
        r matches Ok(t) ==> (t.delimiter is None && t.elements@.len() > 0 && template_text(t)
            == old(reader).text().subrange(old(reader).cursor(), final(reader).cursor())
            && t.source_info == (SourceInfo {
            start: pos_at(old(reader).text(), old(reader).cursor()),
            end: pos_at(old(reader).text(), final(reader).cursor()),
        })),
        r matches Err(e) && e.recoverable ==> (old(reader).cursor() == old(reader).text().len()
            || is_uq_terminator(old(reader).text()[old(reader).cursor()])) && final(reader).cursor() == old(reader).cursor(),
        old(reader).cursor() == old(reader).text().len() || is_uq_terminator(
            old(reader).text()[old(reader).cursor()],
        ) ==> (r matches Err(e) && e.recoverable && e.pos == pos_at(
            old(reader).text(),
            old(reader).cursor(),
        )),
        uq_simple_ok(old(reader).text(), old(reader).cursor()) ==> (r matches Ok(t) && final(reader).cursor() == uq_simple_end(old(reader).text(), old(reader).cursor())
            && t.elements@.len() == 1 && (t.elements@[0] matches TemplateElement::String {
            value,
            encoded,
        } && value@ == old(reader).text().subrange(old(reader).cursor(), final(reader).cursor())
            && encoded@ == old(reader).text().subrange(
            old(reader).cursor(),
            final(reader).cursor(),
        ))),
        r is Ok <==> uq_accepts(old(reader).text(), old(reader).cursor()),
        r is Ok ==> final(reader).cursor() == uq_end(old(reader).text(), old(reader).cursor()),
{
    let ghost s = reader.text();
    let ghost i0 = reader.cursor();
    proof {
        crate::reader::lemma_wf(reader);
        lemma_run_end_props(CharClass::UnquotedPlain, s, i0);
    }
    let start = reader.snapshot();
    let mut elements: Vec<TemplateElement> = Vec::new();
    let mut lit_value: Vec<char> = Vec::new();
    let mut lit_encoded: Vec<char> = Vec::new();
    proof {
        assert(elements_text(elements@) + lit_encoded@ =~= s.subrange(i0, i0));
    }
    loop
        invariant
            reader.wf(),
            reader.text() == s,
            s == old(reader).text(),
            i0 == old(reader).cursor(),
            0 <= i0 <= reader.cursor() <= s.len(),
            elements_text(elements@) + lit_encoded@ == s.subrange(i0, reader.cursor()),
            lit_value@ == lit_encoded@,
            elements@.len() == 0 && lit_encoded@.len() == 0 ==> reader.cursor() == i0,
            uq_simple_ok(s, i0) ==> (elements@.len() == 0 && (reader.cursor() == i0
                || reader.cursor() == uq_simple_end(s, i0))),
            (i0 == s.len() || is_uq_terminator(s[i0])) ==> (reader.cursor() == i0
                && elements@.len() == 0 && lit_encoded@.len() == 0),
            uq_body_end(s, i0) == uq_body_end(s, reader.cursor()),
        ensures
            reader.wf(),
            reader.text() == s,
            0 <= i0 <= reader.cursor() <= s.len(),
            elements_text(elements@) + lit_encoded@ == s.subrange(i0, reader.cursor()),
            lit_value@ == lit_encoded@,
            elements@.len() == 0 && lit_encoded@.len() == 0 ==> reader.cursor() == i0,
            uq_simple_ok(s, i0) ==> (elements@.len() == 0 && reader.cursor() == uq_simple_end(
                s,
                i0,
            )),
            reader.cursor() == s.len() || is_uq_terminator(s[reader.cursor()]),
            uq_body_end(s, i0) == Some(reader.cursor()),
        decreases s.len() - reader.cursor(),
    {
        let ghost cur = reader.cursor();
        let run = read_class(reader, CharClass::UnquotedPlain);
        if run.len() > 0 {
            push_all(&mut lit_value, &run);
            push_all(&mut lit_encoded, &run);
            proof {
                lemma_subrange_join(s, i0, cur, reader.cursor());
            }
        }
        let ghost cur2 = reader.cursor();
        proof {
            lemma_run_end_props(CharClass::UnquotedPlain, s, cur);
            lemma_uq_body_run(s, cur, cur2);
        }
        let c_opt = reader.peek();
        match c_opt {
            None => {
                break ;
            },
            Some(c) => {
                if c == '{' {
                    let ahead = reader.peek_ahead(1);
                    if ahead == Some('{') {
                        if lit_encoded.len() > 0 {
                            let v = string_of(&lit_value);
                            let en = string_of(&lit_encoded);
                            proof {
                                lemma_elements_text_push(
                                    elements@,
                                    TemplateElement::String { value: v, encoded: en },
                                );
                            }
                            elements.push(TemplateElement::String { value: v, encoded: en });
                            lit_value = Vec::new();
                            lit_encoded = Vec::new();
                        }
                        let x = match expr(reader) {
                            Ok(x) => x,
                            Err(e) => {
                                return Err(e);
                            },
                        };
                        proof {
                            lemma_elements_text_push(elements@, TemplateElement::Expression(x));
                            lemma_subrange_join(s, i0, cur2, reader.cursor());
                        }
                        elements.push(TemplateElement::Expression(x));
                    } else {
                        let _ = reader.read();
                        lit_value.push('{');
                        lit_encoded.push('{');
                        proof {
                            assert(elements_text(elements@) + lit_encoded@ =~= s.subrange(
                                i0,
                                reader.cursor(),
                            ));
                        }
                    }
                } else {
                    proof {
                        assert(is_uq_terminator(c));
                    }
                    break ;
                }
            },
        }
    }
    if lit_encoded.len() > 0 {
        let v = string_of(&lit_value);
        let en = string_of(&lit_encoded);
        proof {
            lemma_elements_text_push(
                elements@,
                TemplateElement::String { value: v, encoded: en },
            );
        }
        elements.push(TemplateElement::String { value: v, encoded: en });
    }
    if elements.len() == 0 {
        return Err(ParseError::expecting("string", start.pos, true));
    }
    let end = reader.snapshot();
    Ok(
        Template {
            delimiter: None,
            elements,
            source_info: SourceInfo { start: start.pos, end: end.pos },
        },
    )
}

// ---------------------------------------------------------------------------
// Quoted templates.
// ---------------------------------------------------------------------------

/// Where the plain content of a quoted template ends.
pub open spec fn q_content_end(s: Seq<char>, i: int) -> int {
    run_end(CharClass::QuotedPlain, s, i + 1)
}

/// The plain shape of a quoted template: `"`, a run of plain literal
/// characters (no escapes, no interpolation), and the closing `"`.
pub open spec fn q_simple_ok(s: Seq<char>, i: int) -> bool {
    &&& 0 <= i < s.len()
    &&& s[i] == '"'
    &&& q_content_end(s, i) < s.len()
    &&& s[q_content_end(s, i)] == '"'
}

/// Where the plain quoted template ends, after the closing quote.
pub open spec fn q_simple_end(s: Seq<char>, i: int) -> int {
    q_content_end(s, i) + 1
}

/// The characters a backslash may escape inside a quoted template.
pub open spec fn is_escape_char(c: char) -> bool {
    c == '"' || c == '\\' || c == 'n' || c == 'r' || c == 't' || c == 'b' || c == 'f'
}

/// Where the element stream of a quoted template ends: the index of the
/// closing quote, reached over literal characters, escapes, lone `{`s and
/// accepted expressions; `None` when the input ends first, an escape is
/// unknown, or an opened expression is malformed.
pub open spec fn q_body_end(s: Seq<char>, i: int) -> Option<int>
    decreases s.len() - i,
{
    if !(0 <= i < s.len()) {
        None
    } else if s[i] == '"' {
        Some(i)
    } else if s[i] == '\\' {
        if i + 1 < s.len() && is_escape_char(s[i + 1]) {
            q_body_end(s, i + 2)
        } else {
            None
        }
    } else if s[i] == '{' && i + 1 < s.len() && s[i + 1] == '{' {
        if expr_ok(s, i) && i < expr_end(s, i) <= s.len() {
            q_body_end(s, expr_end(s, i))
        } else {
            None
        }
    } else {
        q_body_end(s, i + 1)
    }
}

/// A quoted template is accepted at `i`: an opening quote and an element
/// stream that reaches a closing quote.
pub open spec fn q_accepts(s: Seq<char>, i: int) -> bool {
    &&& 0 <= i < s.len()
    &&& s[i] == '"'
    &&& q_body_end(s, i + 1) is Some
}

/// Where the accepted quoted template ends, after the closing quote.
pub open spec fn q_end(s: Seq<char>, i: int) -> int {
    q_body_end(s, i + 1)->Some_0 + 1
}

/// Stepping over a run of plain literal characters leaves the element
/// stream's end unchanged.
pub proof fn lemma_q_body_run(s: Seq<char>, a: int, b: int)
    requires
        0 <= a <= b <= s.len(),
        forall|j: int| a <= j < b ==> in_class(CharClass::QuotedPlain, #[trigger] s[j]),
    ensures
        q_body_end(s, a) == q_body_end(s, b),
    decreases b - a,
{
    if a < b {
        assert(in_class(CharClass::QuotedPlain, s[a]));
        lemma_q_body_run(s, a + 1, b);
    }
}

/// Parse a quoted template: `"`, literal text with escapes and `{{ name }}`
/// expressions, and a closing `"`.  A missing opening quote is recoverable;
/// anything wrong after it (an unknown escape, a missing closing quote) is
/// fatal.
#[verifier::rlimit(60)]
pub fn quoted_template(reader: &mut Reader) -> (r: ParseResult<Template>)
    requires
        old(reader).wf(),
    ensures
        final(reader).wf(),
        final(reader).text() == old(reader).text(),
        0 <= old(reader).cursor() <= final(reader).cursor() <= final(reader).text().len(),
        r matches Ok(t) ==> (t.delimiter == Some('"') && template_text(t) == old(reader).text().subrange(old(reader).cursor(), final(reader).cursor()) && t.source_info
            == (SourceInfo {
            start: pos_at(old(reader).text(), old(reader).cursor()),
            end: pos_at(old(reader).text(), final(reader).cursor()),
        })),
        r matches Err(e) && e.recoverable ==> (old(reader).cursor() == old(reader).text().len()
            || old(reader).text()[old(reader).cursor()] != '"') && final(reader).cursor() == old(reader).cursor(),
        old(reader).cursor() == old(reader).text().len() || old(reader).text()[old(reader).cursor()] != '"' ==> (r matches Err(e) && e.recoverable && e.pos == pos_at(
            old(reader).text(),
            old(reader).cursor(),
        )),
        q_simple_ok(old(reader).text(), old(reader).cursor()) ==> (r matches Ok(t) && final(reader).cursor() == q_simple_end(old(reader).text(), old(reader).cursor()) && (q_content_end(
            old(reader).text(),
            old(reader).cursor(),
        ) == old(reader).cursor() + 1 ==> t.elements@.len() == 0) && (q_content_end(
            old(reader).text(),
            old(reader).cursor(),
        ) > old(reader).cursor() + 1 ==> t.elements@.len() == 1 && (t.elements@[0] matches
            TemplateElement::String { value, encoded } && value@ == old(reader).text().subrange(
            old(reader).cursor() + 1,
            q_content_end(old(reader).text(), old(reader).cursor()),
        ) && encoded@ == old(reader).text().subrange(
            old(reader).cursor() + 1,
            q_content_end(old(reader).text(), old(reader).cursor()),
        )))),
        r is Ok <==> q_accepts(old(reader).text(), old(reader).cursor()),
        r is Ok ==> final(reader).cursor() == q_end(old(reader).text(), old(reader).cursor()),
{
    let ghost s = reader.text();
    let ghost i0 = reader.cursor();
    proof {
        crate::reader::lemma_wf(reader);
    }
    let start = reader.snapshot();
    let pos0 = reader.current_pos();
    if !try_consume_char(reader, '"') {
        return Err(ParseError::expecting("\"", pos0, true));
    }
    proof {
        lemma_run_end_props(CharClass::QuotedPlain, s, i0 + 1);
    }
    let mut elements: Vec<TemplateElement> = Vec::new();
    let mut lit_value: Vec<char> = Vec::new();
    let mut lit_encoded: Vec<char> = Vec::new();
    proof {
        assert(elements_text(elements@) + lit_encoded@ =~= s.subrange(i0 + 1, i0 + 1));
    }
    loop
        invariant
            reader.wf(),
            reader.text() == s,
            s == old(reader).text(),
            i0 == old(reader).cursor(),
            0 <= i0 < i0 + 1 <= reader.cursor() <= s.len(),
            s[i0] == '"',
            elements_text(elements@) + lit_encoded@ == s.subrange(i0 + 1, reader.cursor()),
            q_simple_ok(s, i0) ==> (elements@.len() == 0 && lit_value@ == lit_encoded@ && (
            reader.cursor() == i0 + 1 || reader.cursor() == q_content_end(s, i0))),
            q_body_end(s, i0 + 1) == q_body_end(s, reader.cursor()),
        ensures
            reader.wf(),
            reader.text() == s,
            i0 + 1 <= reader.cursor() < s.len(),
            s[reader.cursor()] == '"',
            elements_text(elements@) + lit_encoded@ == s.subrange(i0 + 1, reader.cursor()),
            q_simple_ok(s, i0) ==> (elements@.len() == 0 && lit_value@ == lit_encoded@
                && reader.cursor() == q_content_end(s, i0)),
            q_body_end(s, i0 + 1) == Some(reader.cursor()),
        decreases s.len() - reader.cursor(),
    {
        let ghost cur = reader.cursor();
        let run = read_class(reader, CharClass::QuotedPlain);
        if run.len() > 0 {
            push_all(&mut lit_value, &run);
            push_all(&mut lit_encoded, &run);
            proof {
                lemma_subrange_join(s, i0 + 1, cur, reader.cursor());
            }
        }
        let ghost cur2 = reader.cursor();
        proof {
            lemma_run_end_props(CharClass::QuotedPlain, s, cur);
            lemma_q_body_run(s, cur, cur2);
            assert(elements_text(elements@) + lit_encoded@ =~= s.subrange(i0 + 1, cur2));
        }
        let c_opt = reader.peek();
        match c_opt {
            None => {
                let pos = reader.current_pos();
                return Err(ParseError::expecting("\"", pos, false));
            },
            Some(c) => {
                if c == '"' {
                    break ;
                } else if c == '\\' {
                    let _ = reader.read();
                    let n_opt = reader.read();
                    let n = match n_opt {
                        Some(n) => n,
                        None => {
                            let pos = reader.current_pos();
                            return Err(ParseError::expecting("\"", pos, false));
                        },
                    };
                    let decoded = if n == '"' {
                        '"'
                    } else if n == '\\' {
                        '\\'
                    } else if n == 'n' {
                        '\n'
                    } else if n == 'r' {
                        '\r'
                    } else if n == 't' {
                        '\t'
                    } else if n == 'b' {
                        '\u{0008}'
                    } else if n == 'f' {
                        '\u{000C}'
                    } else {
                        let pos = reader.current_pos();
                        return Err(ParseError::expecting("escape character", pos, false));
                    };
                    proof {
                        assert(s[cur2] == '\\');
                        assert(s[cur2 + 1] == n);
                        assert(reader.cursor() == cur2 + 2);
                    }
                    lit_value.push(decoded);
                    lit_encoded.push('\\');
                    lit_encoded.push(n);
                    proof {
                        assert(elements_text(elements@) + lit_encoded@ =~= s.subrange(
                            i0 + 1,
                            reader.cursor(),
                        ));
                    }
                } else if c == '{' {
                    let ahead = reader.peek_ahead(1);
                    if ahead == Some('{') {
                        if lit_encoded.len() > 0 {
                            let v = string_of(&lit_value);
                            let en = string_of(&lit_encoded);
                            proof {
                                lemma_elements_text_push(
                                    elements@,
                                    TemplateElement::String { value: v, encoded: en },
                                );
                            }
                            elements.push(TemplateElement::String { value: v, encoded: en });
                            lit_value = Vec::new();
                            lit_encoded = Vec::new();
                        }
                        let x = match expr(reader) {
                            Ok(x) => x,
                            Err(e) => {
                                return Err(e);
                            },
                        };
                        proof {
                            lemma_elements_text_push(elements@, TemplateElement::Expression(x));
                            lemma_subrange_join(s, i0 + 1, cur2, reader.cursor());
                        }
                        elements.push(TemplateElement::Expression(x));
                    } else {
                        let _ = reader.read();
                        lit_value.push('{');
                        lit_encoded.push('{');
                        proof {
                            assert(elements_text(elements@) + lit_encoded@ =~= s.subrange(
                                i0 + 1,
                                reader.cursor(),
                            ));
                        }
                    }
                } else {
                    proof {
                        assert(false);
                    }
                }
            },
        }
    }
    if lit_encoded.len() > 0 {
        let v = string_of(&lit_value);
        let en = string_of(&lit_encoded);
        proof {
            lemma_elements_text_push(
                elements@,
                TemplateElement::String { value: v, encoded: en },
            );
        }
        elements.push(TemplateElement::String { value: v, encoded: en });
    }
    let ghost close = reader.cursor();
    let consumed = try_consume_char(reader, '"');
    proof {
        assert(consumed);
        lemma_subrange_join(s, i0, i0 + 1, close);
    }
    let end = reader.snapshot();
    let t = Template {
        delimiter: Some('"'),
        elements,
        source_info: SourceInfo { start: start.pos, end: end.pos },
    };
    proof {
        assert(template_text(t) =~= s.subrange(i0, reader.cursor()));
    }
    Ok(t)
}

} // verus!
