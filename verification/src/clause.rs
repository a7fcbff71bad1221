//! The clause parser: keyword recognition, dispatch to the matching value
//! grammar, and assembly of the final clause node with all its trivia.
//!
//! An unrecognized keyword is a recoverable failure at the keyword's first
//! character, so an enclosing parser can treat "not an option clause" as a
//! normal alternative.  Once a keyword has matched, exactly one value
//! grammar is legal, and every later failure is fatal.

use vstd::prelude::*;

use crate::ast::EntryOption;
use crate::ast::OptionKind;
use crate::ast::Retry;
use crate::ast::VariableDefinition;
use crate::ast::VariableValue;
use crate::ast::entry_text;
use crate::ast::entry_text_minus_zero;
use crate::ast::int_text;
use crate::ast::is_digit;
use crate::ast::kind_has_zero_int;
use crate::ast::kind_value_text;
use crate::ast::kind_value_text_minus_zero;
use crate::ast::known_keyword;
use crate::ast::lts_text;
use crate::ast::option_keyword;
use crate::ast::retry_text;
use crate::ast::variable_definition_text;
use crate::ast::variable_value_text;
use crate::error::ParseError;
use crate::error::ParseErrorKind;
use crate::error::ParseResult;
use crate::filename::filename_end;
use crate::primitives::CharClass;
use crate::primitives::boolean;
use crate::primitives::digit_run_end;
use crate::primitives::float;
use crate::primitives::float_end;
use crate::primitives::float_ok_at;
use crate::primitives::has_prefix;
use crate::primitives::int_digits_start;
use crate::primitives::int_neg_at;
use crate::primitives::integer;
use crate::primitives::integer_end;
use crate::primitives::integer_ok_at;
use crate::primitives::integer_value;
use crate::primitives::lemma_run_end_props;
use crate::primitives::lemma_subrange_join;
use crate::primitives::line_terminator;
use crate::primitives::lt_end;
use crate::primitives::natural;
use crate::primitives::natural_ok_at;
use crate::primitives::natural_value;
use crate::primitives::null;
use crate::primitives::optional_line_terminators;
use crate::primitives::read_class;
use crate::primitives::run_end;
use crate::primitives::skip_lts;
use crate::primitives::string_of;
use crate::primitives::try_consume_char;
use crate::primitives::zero_or_more_spaces;
use crate::reader::Reader;
use crate::reader::pos_at;
use crate::ast::SourceInfo;
use crate::ast::TemplateElement;
use crate::template::q_accepts;
use crate::template::q_end;
use crate::template::q_simple_end;
use crate::template::q_content_end;
use crate::template::q_simple_ok;
use crate::template::quoted_template;
use crate::template::uq_accepts;
use crate::template::uq_end;
use crate::template::uq_simple_end;
use crate::template::uq_simple_ok;
use crate::template::unquoted_template;

verus! {

// ---------------------------------------------------------------------------
// Capture helpers.
// ---------------------------------------------------------------------------

/// Does the captured text contain a `:`?
pub open spec fn contains_colon(t: Seq<char>) -> bool {
    exists|j: int| 0 <= j < t.len() && t[j] == ':'
}

/// Decide whether a captured run contains a `:`.
fn vec_contains_colon(v: &Vec<char>) -> (r: bool)
    ensures
        r == contains_colon(v@),
{
    let mut i: usize = 0;
    while i < v.len()
        invariant
            i <= v.len(),
            forall|j: int| 0 <= j < i ==> v@[j] != ':',
        decreases v.len() - i,
    {
        if v[i] == ':' {
            return true;
        }
        i += 1;
    }
    false
}

/// Decide whether a captured run spells exactly the given literal.
fn vec_eq_str(v: &Vec<char>, s: &str) -> (r: bool)
    ensures
        r == (v@ == s@),
{
    let n = s.unicode_len();
    if v.len() != n {
        proof {
            assert(v@ != s@);
        }
        return false;
    }
    let mut i: usize = 0;
    while i < n
        invariant
            i <= n,
            n == s@.len(),
            v@.len() == n,
            forall|j: int| 0 <= j < i ==> v@[j] == s@[j],
        decreases n - i,
    {
        if v[i] != s.get_char(i) {
            return false;
        }
        i += 1;
    }
    proof {
        assert(v@ =~= s@);
    }
    true
}

// ---------------------------------------------------------------------------
// The string-valued grammars: provider, proxy, resolve, connect-to.
// ---------------------------------------------------------------------------

/// Parse an `aws-sigv4` provider: a nonempty run of provider characters.
/// An empty capture is fatal.
pub fn aws_sigv4(reader: &mut Reader) -> (r: ParseResult<String>)
    requires
        old(reader).wf(),
    ensures
        final(reader).wf(),
        final(reader).text() == old(reader).text(),
        0 <= old(reader).cursor() <= final(reader).cursor() <= final(reader).text().len(),
        r is Err ==> !r->Err_0.recoverable,
        run_end(CharClass::Provider, old(reader).text(), old(reader).cursor()) > old(reader).cursor() ==> (r matches Ok(v) && v@ == old(reader).text().subrange(
            old(reader).cursor(),
            final(reader).cursor(),
        ) && final(reader).cursor() == run_end(
            CharClass::Provider,
            old(reader).text(),
            old(reader).cursor(),
        )),
        run_end(CharClass::Provider, old(reader).text(), old(reader).cursor()) == old(reader).cursor() ==> (r matches Err(e) && e.pos == pos_at(
            old(reader).text(),
            old(reader).cursor(),
        ) && (e.kind matches ParseErrorKind::Expecting { value: v } && v@ == "aws-sigv4 provider"@)
            && final(reader).cursor() == old(reader).cursor()),
{
    let start = reader.snapshot();
    let chars = read_class(reader, CharClass::Provider);
    if chars.len() == 0 {
        return Err(ParseError::expecting("aws-sigv4 provider", start.pos, false));
    }
    Ok(string_of(&chars))
}

/// Parse a proxy name: a nonempty run of proxy-name characters.
/// An empty capture is fatal.
pub fn proxy(reader: &mut Reader) -> (r: ParseResult<String>)
    requires
        old(reader).wf(),
    ensures
        final(reader).wf(),
        final(reader).text() == old(reader).text(),
        0 <= old(reader).cursor() <= final(reader).cursor() <= final(reader).text().len(),
        r is Err ==> !r->Err_0.recoverable,
        run_end(CharClass::ProxyName, old(reader).text(), old(reader).cursor()) > old(reader).cursor() ==> (r matches Ok(v) && v@ == old(reader).text().subrange(
            old(reader).cursor(),
            final(reader).cursor(),
        ) && final(reader).cursor() == run_end(
            CharClass::ProxyName,
            old(reader).text(),
            old(reader).cursor(),
        )),
        run_end(CharClass::ProxyName, old(reader).text(), old(reader).cursor()) == old(reader).cursor() ==> (r matches Err(e) && e.pos == pos_at(
            old(reader).text(),
            old(reader).cursor(),
        ) && (e.kind matches ParseErrorKind::Expecting { value: v } && v@ == "proxy name"@)
            && final(reader).cursor() == old(reader).cursor()),
{
    let start = reader.snapshot();
    let chars = read_class(reader, CharClass::ProxyName);
    if chars.len() == 0 {
        return Err(ParseError::expecting("proxy name", start.pos, false));
    }
    Ok(string_of(&chars))
}

/// The `resolve` and `connect-to` values are accepted at `i` when the run of
/// host/port characters is nonempty and contains at least one `:`.
pub open spec fn hostport_accept(s: Seq<char>, i: int) -> bool {
    &&& run_end(CharClass::HostPort, s, i) > i
    &&& contains_colon(s.subrange(i, run_end(CharClass::HostPort, s, i)))
}

/// Parse a `resolve` value: a nonempty run that must contain at least one
/// `:` (the `HOST:PORT:ADDR` shape is re-split downstream).  Both an empty
/// capture and a missing `:` are fatal; a capture with a `:` is never
/// rejected.
pub fn resolve(reader: &mut Reader) -> (r: ParseResult<String>)
    requires
        old(reader).wf(),
    ensures
        final(reader).wf(),
        final(reader).text() == old(reader).text(),
        0 <= old(reader).cursor() <= final(reader).cursor() <= final(reader).text().len(),
        r is Err ==> !r->Err_0.recoverable,
        hostport_accept(old(reader).text(), old(reader).cursor()) ==> (r matches Ok(v) && v@ == old(reader).text().subrange(old(reader).cursor(), final(reader).cursor()) && final(reader).cursor()
            == run_end(CharClass::HostPort, old(reader).text(), old(reader).cursor())
            && contains_colon(v@)),
        !hostport_accept(old(reader).text(), old(reader).cursor()) ==> (r matches Err(e) && e.pos
            == pos_at(old(reader).text(), old(reader).cursor())),
        run_end(CharClass::HostPort, old(reader).text(), old(reader).cursor()) == old(reader).cursor() ==> (r matches Err(e) && (e.kind matches ParseErrorKind::Expecting { value: v }
            && v@ == "resolve"@) && final(reader).cursor() == old(reader).cursor()),
        run_end(CharClass::HostPort, old(reader).text(), old(reader).cursor()) > old(reader).cursor() && !hostport_accept(old(reader).text(), old(reader).cursor()) ==> (r matches Err(e)
            && (e.kind matches ParseErrorKind::Expecting { value: v } && v@
            == "HOST:PORT:ADDR"@)),
        r matches Ok(v) ==> contains_colon(v@),
{
    let ghost s0 = reader.text();
    let ghost c0 = reader.cursor();
    proof {
        crate::reader::lemma_wf(reader);
        lemma_run_end_props(CharClass::HostPort, s0, c0);
    }
    let start = reader.snapshot();
    let chars = read_class(reader, CharClass::HostPort);
    if chars.len() == 0 {
        return Err(ParseError::expecting("resolve", start.pos, false));
    }
    if !vec_contains_colon(&chars) {
        return Err(ParseError::expecting("HOST:PORT:ADDR", start.pos, false));
    }
    Ok(string_of(&chars))
}

/// Parse a `connect-to` value: the same shape and validation as `resolve`,
/// with the `HOST1:PORT1:HOST2:PORT2` diagnostic.
pub fn connect_to(reader: &mut Reader) -> (r: ParseResult<String>)
    requires
        old(reader).wf(),
    ensures
        final(reader).wf(),
        final(reader).text() == old(reader).text(),
        0 <= old(reader).cursor() <= final(reader).cursor() <= final(reader).text().len(),
        r is Err ==> !r->Err_0.recoverable,
        hostport_accept(old(reader).text(), old(reader).cursor()) ==> (r matches Ok(v) && v@ == old(reader).text().subrange(old(reader).cursor(), final(reader).cursor()) && final(reader).cursor()
            == run_end(CharClass::HostPort, old(reader).text(), old(reader).cursor())
            && contains_colon(v@)),
        !hostport_accept(old(reader).text(), old(reader).cursor()) ==> (r matches Err(e) && e.pos
            == pos_at(old(reader).text(), old(reader).cursor())),
        run_end(CharClass::HostPort, old(reader).text(), old(reader).cursor()) == old(reader).cursor() ==> (r matches Err(e) && (e.kind matches ParseErrorKind::Expecting { value: v }
            && v@ == "connect-to"@) && final(reader).cursor() == old(reader).cursor()),
        run_end(CharClass::HostPort, old(reader).text(), old(reader).cursor()) > old(reader).cursor() && !hostport_accept(old(reader).text(), old(reader).cursor()) ==> (r matches Err(e)
            && (e.kind matches ParseErrorKind::Expecting { value: v } && v@
            == "HOST1:PORT1:HOST2:PORT2"@)),
        r matches Ok(v) ==> contains_colon(v@),
{
    let ghost s0 = reader.text();
    let ghost c0 = reader.cursor();
    proof {
        crate::reader::lemma_wf(reader);
        lemma_run_end_props(CharClass::HostPort, s0, c0);
    }
    let start = reader.snapshot();
    let chars = read_class(reader, CharClass::HostPort);
    if chars.len() == 0 {
        return Err(ParseError::expecting("connect-to", start.pos, false));
    }
    if !vec_contains_colon(&chars) {
        return Err(ParseError::expecting("HOST1:PORT1:HOST2:PORT2", start.pos, false));
    }
    Ok(string_of(&chars))
}

// ---------------------------------------------------------------------------
// The retry sentinel.
// ---------------------------------------------------------------------------

/// The retry value is accepted at `i`: a signed integer that is `-1`, `0`,
/// or positive and within machine range.
pub open spec fn retry_accept(s: Seq<char>, i: int) -> bool {
    &&& integer_ok_at(s, i)
    &&& (integer_value(s, i) == -1 || (0 <= integer_value(s, i) <= usize::MAX))
}

/// Parse a retry setting: `-1` maps to `Infinite`, `0` to `Never`, a
/// positive count to `Finite`; any other value is fatal.  The signed-integer
/// grammar runs under commitment, so even a missing integer is fatal here.
pub fn retry(reader: &mut Reader) -> (r: ParseResult<Retry>)
    requires
        old(reader).wf(),
    ensures
        final(reader).wf(),
        final(reader).text() == old(reader).text(),
        0 <= old(reader).cursor() <= final(reader).cursor() <= final(reader).text().len(),
        r is Err ==> !r->Err_0.recoverable,
        retry_accept(old(reader).text(), old(reader).cursor()) ==> (r matches Ok(v) && final(reader).cursor() == integer_end(old(reader).text(), old(reader).cursor()) && (integer_value(
            old(reader).text(),
            old(reader).cursor(),
        ) == -1 ==> v == Retry::Infinite) && (integer_value(old(reader).text(), old(reader).cursor())
            == 0 ==> v == Retry::Never) && (integer_value(old(reader).text(), old(reader).cursor())
            > 0 ==> (v matches Retry::Finite(n) && n as int == integer_value(
            old(reader).text(),
            old(reader).cursor(),
        )))),
        !retry_accept(old(reader).text(), old(reader).cursor()) ==> r is Err,
        integer_ok_at(old(reader).text(), old(reader).cursor()) && integer_value(
            old(reader).text(),
            old(reader).cursor(),
        ) < -1 ==> (r matches Err(e) && e.pos == pos_at(old(reader).text(), old(reader).cursor())
            && (e.kind matches ParseErrorKind::Expecting { value: v } && v@
            == "Expecting a retry value"@)),
        r matches Ok(v) ==> (old(reader).text().subrange(
            old(reader).cursor(),
            final(reader).cursor(),
        ) == retry_text(v) || (v == Retry::Never && old(reader).text().subrange(
            old(reader).cursor(),
            final(reader).cursor(),
        ) == seq!['-', '0'])),
{
    let pos = reader.current_pos();
    let value = match integer(reader) {
        Ok(v) => v,
        Err(e) => {
            return Err(e.into_nonrecoverable());
        },
    };
    if value == -1 {
        proof {
            assert(retry_text(Retry::Infinite) == int_text(-1));
        }
        Ok(Retry::Infinite)
    } else if value == 0 {
        Ok(Retry::Never)
    } else if value > 0 {
        if value as u64 > usize::MAX as u64 {
            return Err(ParseError::expecting("Expecting a retry value", pos, false));
        }
        Ok(Retry::Finite(value as usize))
    } else {
        Err(ParseError::expecting("Expecting a retry value", pos, false))
    }
}

// ---------------------------------------------------------------------------
// Variable definitions.
// ---------------------------------------------------------------------------

/// Parse a variable name: a nonempty run of name characters.
/// An empty capture is fatal.
pub fn variable_name(reader: &mut Reader) -> (r: ParseResult<String>)
    requires
        old(reader).wf(),
    ensures
        final(reader).wf(),
        final(reader).text() == old(reader).text(),
        0 <= old(reader).cursor() <= final(reader).cursor() <= final(reader).text().len(),
        r is Err ==> !r->Err_0.recoverable,
        run_end(CharClass::VarName, old(reader).text(), old(reader).cursor()) > old(reader).cursor() ==> (r matches Ok(v) && v@ == old(reader).text().subrange(
            old(reader).cursor(),
            final(reader).cursor(),
        ) && final(reader).cursor() == run_end(
            CharClass::VarName,
            old(reader).text(),
            old(reader).cursor(),
        )),
        run_end(CharClass::VarName, old(reader).text(), old(reader).cursor()) == old(reader).cursor() ==> (r matches Err(e) && e.pos == pos_at(
            old(reader).text(),
            old(reader).cursor(),
        ) && (e.kind matches ParseErrorKind::Expecting { value: v } && v@ == "variable name"@)
            && final(reader).cursor() == old(reader).cursor()),
{
    let start = reader.snapshot();
    let chars = read_class(reader, CharClass::VarName);
    if chars.len() == 0 {
        return Err(ParseError::expecting("variable name", start.pos, false));
    }
    Ok(string_of(&chars))
}

/// Is `null` spelled at `i`?
pub open spec fn vv_null_at(s: Seq<char>, i: int) -> bool {
    has_prefix(s, i, "null"@)
}

/// Is `true` spelled at `i`?
pub open spec fn vv_true_at(s: Seq<char>, i: int) -> bool {
    has_prefix(s, i, "true"@)
}

/// Is `false` spelled at `i`?
pub open spec fn vv_false_at(s: Seq<char>, i: int) -> bool {
    has_prefix(s, i, "false"@)
}

/// Does a number (a digit, or a sign followed by a digit) start at `i`?
pub open spec fn vv_numeric_at(s: Seq<char>, i: int) -> bool {
    ||| (0 <= i < s.len() && is_digit(s[i]))
    ||| (int_neg_at(s, i) && i + 1 < s.len() && is_digit(s[i + 1]))
}

/// A variable value is accepted at `i`, following the trial order: null,
/// boolean, float, integer, quoted template, unquoted template.  For the
/// template alternatives this covers their plain shapes.
pub open spec fn vv_accepts(s: Seq<char>, i: int) -> bool {
    if vv_null_at(s, i) || vv_true_at(s, i) || vv_false_at(s, i) {
        true
    } else if vv_numeric_at(s, i) {
        float_ok_at(s, i) || (natural_ok_at(s, int_digits_start(s, i)) && !(integer_end(s, i)
            < s.len() && s[integer_end(s, i)] == '.') && integer_ok_at(s, i))
    } else if 0 <= i < s.len() && s[i] == '"' {
        q_accepts(s, i)
    } else {
        uq_accepts(s, i)
    }
}

/// Where the accepted variable value ends.
pub open spec fn vv_end(s: Seq<char>, i: int) -> int {
    if vv_null_at(s, i) {
        i + "null"@.len()
    } else if vv_true_at(s, i) {
        i + "true"@.len()
    } else if vv_false_at(s, i) {
        i + "false"@.len()
    } else if vv_numeric_at(s, i) {
        if float_ok_at(s, i) {
            float_end(s, i)
        } else {
            integer_end(s, i)
        }
    } else if 0 <= i < s.len() && s[i] == '"' {
        q_end(s, i)
    } else {
        uq_end(s, i)
    }
}

/// What an accepted variable value is, case by case in the trial order, and
/// where it ends: the null and boolean literals, the float or integer a
/// numeric token denotes, or a template whose delimiter, span and (for the
/// plain shapes) single literal segment are pinned.
pub open spec fn vv_result_ok(s: Seq<char>, i: int, v: VariableValue, e: int) -> bool {
    if vv_null_at(s, i) {
        v == VariableValue::Null && e == i + "null"@.len()
    } else if vv_true_at(s, i) {
        v == VariableValue::Bool(true) && e == i + "true"@.len()
    } else if vv_false_at(s, i) {
        v == VariableValue::Bool(false) && e == i + "false"@.len()
    } else if vv_numeric_at(s, i) {
        if float_ok_at(s, i) {
            v matches VariableValue::Float(f) && f.negative == int_neg_at(s, i) && f.whole as int
                == natural_value(s, int_digits_start(s, i)) && f.fraction@ == s.subrange(
                integer_end(s, i) + 1,
                float_end(s, i),
            ) && e == float_end(s, i)
        } else {
            v matches VariableValue::Integer(n) && n as int == integer_value(s, i) && e
                == integer_end(s, i)
        }
    } else if 0 <= i < s.len() && s[i] == '"' {
        v matches VariableValue::String(t) && t.delimiter == Some('"') && e == q_end(s, i)
            && t.source_info == (SourceInfo { start: pos_at(s, i), end: pos_at(s, e) }) && (
        q_simple_ok(s, i) ==> (q_content_end(s, i) == i + 1 ==> t.elements@.len() == 0) && (
        q_content_end(s, i) > i + 1 ==> t.elements@.len() == 1 && (t.elements@[0] matches
            TemplateElement::String { value, encoded } && value@ == s.subrange(
            i + 1,
            q_content_end(s, i),
        ) && encoded@ == s.subrange(i + 1, q_content_end(s, i)))))
    } else {
        v matches VariableValue::String(t) && t.delimiter is None && e == uq_end(s, i)
            && t.source_info == (SourceInfo { start: pos_at(s, i), end: pos_at(s, e) }) && (
        uq_simple_ok(s, i) ==> t.elements@.len() == 1 && (t.elements@[0] matches
            TemplateElement::String { value, encoded } && value@ == s.subrange(i, e) && encoded@
            == s.subrange(i, e)))
    }
}

/// Parse a variable value by ordered trial: null, boolean, float, integer,
/// quoted template, unquoted template.  The order is the tie-break: `true`
/// is a boolean, not a string; a numeric token is a number before it can be
/// a string; the unquoted template is the catch-all.  Whatever goes wrong,
/// the aggregate failure is the single fatal diagnostic `variable value`.
pub fn variable_value(reader: &mut Reader) -> (r: ParseResult<VariableValue>)
    requires
        old(reader).wf(),
    ensures
        final(reader).wf(),
        final(reader).text() == old(reader).text(),
        0 <= old(reader).cursor() <= final(reader).cursor() <= final(reader).text().len(),
        r is Err ==> !r->Err_0.recoverable,
        vv_null_at(old(reader).text(), old(reader).cursor()) ==> (r matches Ok(v) && v
            == VariableValue::Null && final(reader).cursor() == vv_end(
            old(reader).text(),
            old(reader).cursor(),
        )),
        !vv_null_at(old(reader).text(), old(reader).cursor()) && vv_true_at(
            old(reader).text(),
            old(reader).cursor(),
        ) ==> (r matches Ok(v) && v == VariableValue::Bool(true) && final(reader).cursor()
            == vv_end(old(reader).text(), old(reader).cursor())),
        !vv_null_at(old(reader).text(), old(reader).cursor()) && !vv_true_at(
            old(reader).text(),
            old(reader).cursor(),
        ) && vv_false_at(old(reader).text(), old(reader).cursor()) ==> (r matches Ok(v) && v
            == VariableValue::Bool(false) && final(reader).cursor() == vv_end(
            old(reader).text(),
            old(reader).cursor(),
        )),
        !vv_null_at(old(reader).text(), old(reader).cursor()) && !vv_true_at(
            old(reader).text(),
            old(reader).cursor(),
        ) && !vv_false_at(old(reader).text(), old(reader).cursor()) && vv_numeric_at(
            old(reader).text(),
            old(reader).cursor(),
        ) && float_ok_at(old(reader).text(), old(reader).cursor()) ==> (r matches Ok(v) && v
            matches VariableValue::Float(f) && f.negative == int_neg_at(
            old(reader).text(),
            old(reader).cursor(),
        ) && f.whole as int == natural_value(
            old(reader).text(),
            int_digits_start(old(reader).text(), old(reader).cursor()),
        ) && final(reader).cursor() == float_end(old(reader).text(), old(reader).cursor())),
        !vv_null_at(old(reader).text(), old(reader).cursor()) && !vv_true_at(
            old(reader).text(),
            old(reader).cursor(),
        ) && !vv_false_at(old(reader).text(), old(reader).cursor()) && vv_numeric_at(
            old(reader).text(),
            old(reader).cursor(),
        ) && !float_ok_at(old(reader).text(), old(reader).cursor()) && natural_ok_at(
            old(reader).text(),
            int_digits_start(old(reader).text(), old(reader).cursor()),
        ) && !(integer_end(old(reader).text(), old(reader).cursor()) < old(reader).text().len()
            && old(reader).text()[integer_end(old(reader).text(), old(reader).cursor())] == '.')
            && integer_ok_at(old(reader).text(), old(reader).cursor()) ==> (r matches Ok(v) && v
            matches VariableValue::Integer(n) && n as int == integer_value(
            old(reader).text(),
            old(reader).cursor(),
        ) && final(reader).cursor() == integer_end(old(reader).text(), old(reader).cursor())),
        !vv_null_at(old(reader).text(), old(reader).cursor()) && !vv_true_at(
            old(reader).text(),
            old(reader).cursor(),
        ) && !vv_false_at(old(reader).text(), old(reader).cursor()) && !vv_numeric_at(
            old(reader).text(),
            old(reader).cursor(),
        ) && 0 <= old(reader).cursor() < old(reader).text().len() && old(reader).text()[old(reader).cursor()] == '"' && q_simple_ok(old(reader).text(), old(reader).cursor()) ==> (r matches
            Ok(v) && v matches VariableValue::String(t) && t.delimiter == Some('"') && final(reader).cursor() == q_simple_end(old(reader).text(), old(reader).cursor())),
        !vv_null_at(old(reader).text(), old(reader).cursor()) && !vv_true_at(
            old(reader).text(),
            old(reader).cursor(),
        ) && !vv_false_at(old(reader).text(), old(reader).cursor()) && !vv_numeric_at(
            old(reader).text(),
            old(reader).cursor(),
        ) && !(0 <= old(reader).cursor() < old(reader).text().len() && old(reader).text()[old(reader).cursor()] == '"') && uq_simple_ok(old(reader).text(), old(reader).cursor()) ==> (r
            matches Ok(v) && v matches VariableValue::String(t) && t.delimiter is None && final(reader).cursor() == uq_simple_end(old(reader).text(), old(reader).cursor())),
        r matches Ok(v) ==> (old(reader).text().subrange(old(reader).cursor(), final(reader).cursor()) == variable_value_text(v) || (v == VariableValue::Integer(0i64) && old(reader).text().subrange(old(reader).cursor(), final(reader).cursor()) == seq!['-', '0'])),
        !vv_accepts(old(reader).text(), old(reader).cursor()) ==> r is Err,
        vv_accepts(old(reader).text(), old(reader).cursor()) ==> r is Ok,
        !vv_null_at(old(reader).text(), old(reader).cursor()) && !vv_true_at(old(reader).text(), old(reader).cursor()) && !vv_false_at(old(reader).text(), old(reader).cursor()) && !vv_numeric_at(old(reader).text(), old(reader).cursor()) && (old(reader).cursor() == old(reader).text().len() || crate::primitives::is_uq_terminator(old(reader).text()[old(reader).cursor()])) ==> (r matches Err(e) && !e.recoverable && e.pos == pos_at(old(reader).text(), old(reader).cursor()) && (e.kind matches ParseErrorKind::Expecting { value: v } && v@ == "variable value"@)),
        r matches Ok(v) ==> vv_result_ok(
            old(reader).text(),
            old(reader).cursor(),
            v,
            final(reader).cursor(),
        ),
{
    let ghost s = reader.text();
    let ghost i0 = reader.cursor();
    proof {
        crate::reader::lemma_wf(reader);
    }
    let save = reader.snapshot();
    match null(reader) {
        Ok(_) => {
            return Ok(VariableValue::Null);
        },
        Err(_) => {
            reader.restore(save);
        },
    }
    match boolean(reader) {
        Ok(value) => {
            return Ok(VariableValue::Bool(value));
        },
        Err(_) => {
            reader.restore(save);
        },
    }
    match float(reader) {
        Ok(value) => {
            return Ok(VariableValue::Float(value));
        },
        Err(e) => {
            if !e.recoverable {
                return Err(ParseError::expecting("variable value", e.pos, false));
            }
            reader.restore(save);
        },
    }
    match integer(reader) {
        Ok(value) => {
            return Ok(VariableValue::Integer(value));
        },
        Err(e) => {
            if !e.recoverable {
                return Err(ParseError::expecting("variable value", e.pos, false));
            }
            reader.restore(save);
        },
    }
    match quoted_template(reader) {
        Ok(value) => {
            return Ok(VariableValue::String(value));
        },
        Err(e) => {
            if !e.recoverable {
                return Err(ParseError::expecting("variable value", e.pos, false));
            }
            reader.restore(save);
        },
    }
    match unquoted_template(reader) {
        Ok(value) => Ok(VariableValue::String(value)),
        Err(e) => Err(ParseError::expecting("variable value", e.pos, false)),
    }
}

/// Where the name of a variable definition ends.
pub open spec fn vd_name_end(s: Seq<char>, i: int) -> int {
    run_end(CharClass::VarName, s, i)
}

/// Where the `=` of a variable definition must stand.
pub open spec fn vd_eq_pos(s: Seq<char>, i: int) -> int {
    run_end(CharClass::Space, s, vd_name_end(s, i))
}

/// Where the value of a variable definition starts.
pub open spec fn vd_value_start(s: Seq<char>, i: int) -> int {
    run_end(CharClass::Space, s, vd_eq_pos(s, i) + 1)
}

/// A variable definition is accepted at `i`: a nonempty name, `=` after
/// optional spacing, and an accepted value.
pub open spec fn vd_accepts(s: Seq<char>, i: int) -> bool {
    &&& vd_name_end(s, i) > i
    &&& vd_eq_pos(s, i) < s.len()
    &&& s[vd_eq_pos(s, i)] == '='
    &&& vv_accepts(s, vd_value_start(s, i))
}

/// Where the accepted variable definition ends.
pub open spec fn vd_end(s: Seq<char>, i: int) -> int {
    vv_end(s, vd_value_start(s, i))
}

/// Parse a variable definition: `name = value` with the spacing around `=`
/// captured.  Every failure is fatal: the `variable` keyword has committed
/// to this grammar.
pub fn variable_definition(reader: &mut Reader) -> (r: ParseResult<VariableDefinition>)
    requires
        old(reader).wf(),
    ensures
        final(reader).wf(),
        final(reader).text() == old(reader).text(),
        0 <= old(reader).cursor() <= final(reader).cursor() <= final(reader).text().len(),
        r is Err ==> !r->Err_0.recoverable,
        vd_name_end(old(reader).text(), old(reader).cursor()) == old(reader).cursor() ==> r is Err,
        vd_name_end(old(reader).text(), old(reader).cursor()) > old(reader).cursor() && !(vd_eq_pos(
            old(reader).text(),
            old(reader).cursor(),
        ) < old(reader).text().len() && old(reader).text()[vd_eq_pos(
            old(reader).text(),
            old(reader).cursor(),
        )] == '=') ==> r is Err,
        vd_accepts(old(reader).text(), old(reader).cursor()) ==> (r matches Ok(d) && final(reader).cursor() == vd_end(old(reader).text(), old(reader).cursor())),
        !vd_accepts(old(reader).text(), old(reader).cursor()) ==> r is Err,
        r matches Ok(d) ==> final(reader).cursor() == vd_end(old(reader).text(), old(reader).cursor()),
        r matches Ok(d) ==> vv_result_ok(
            old(reader).text(),
            vd_value_start(old(reader).text(), old(reader).cursor()),
            d.value,
            final(reader).cursor(),
        ),
        r matches Ok(d) ==> (d.space0.source_info == (SourceInfo {
            start: pos_at(old(reader).text(), vd_name_end(old(reader).text(), old(reader).cursor())),
            end: pos_at(old(reader).text(), vd_eq_pos(old(reader).text(), old(reader).cursor())),
        }) && d.space1.source_info == (SourceInfo {
            start: pos_at(old(reader).text(), vd_eq_pos(old(reader).text(), old(reader).cursor()) + 1),
            end: pos_at(old(reader).text(), vd_value_start(old(reader).text(), old(reader).cursor())),
        })),
        r matches Ok(d) ==> (d.name@ == old(reader).text().subrange(
            old(reader).cursor(),
            vd_name_end(old(reader).text(), old(reader).cursor()),
        ) && d.space0.value@ == old(reader).text().subrange(
            vd_name_end(old(reader).text(), old(reader).cursor()),
            vd_eq_pos(old(reader).text(), old(reader).cursor()),
        ) && d.space1.value@ == old(reader).text().subrange(
            vd_eq_pos(old(reader).text(), old(reader).cursor()) + 1,
            vd_value_start(old(reader).text(), old(reader).cursor()),
        )),
        r matches Ok(d) ==> (old(reader).text().subrange(old(reader).cursor(), final(reader).cursor()) == variable_definition_text(d) || (d.value == VariableValue::Integer(0i64)
            && old(reader).text().subrange(old(reader).cursor(), final(reader).cursor())
            == crate::ast::kind_value_text_minus_zero(OptionKind::Variable(d)))),
{
    let ghost s = reader.text();
    let ghost i0 = reader.cursor();
    proof {
        crate::reader::lemma_wf(reader);
        lemma_run_end_props(CharClass::VarName, s, i0);
    }
    let name = match variable_name(reader) {
        Ok(n) => n,
        Err(e) => {
            return Err(e);
        },
    };
    let ghost ne = reader.cursor();
    let space0 = zero_or_more_spaces(reader);
    let ghost ep = reader.cursor();
    let pos1 = reader.current_pos();
    if !try_consume_char(reader, '=') {
        return Err(ParseError::expecting("=", pos1, false));
    }
    let space1 = zero_or_more_spaces(reader);
    let ghost vs = reader.cursor();
    let value = match variable_value(reader) {
        Ok(v) => v,
        Err(e) => {
            return Err(e);
        },
    };
    let d = VariableDefinition { name, space0, space1, value };
    proof {
        let ve = reader.cursor();
        lemma_subrange_join(s, i0, ne, ep);
        lemma_subrange_join(s, i0, ep, ep + 1);
        lemma_subrange_join(s, i0, ep + 1, vs);
        lemma_subrange_join(s, i0, vs, ve);
        assert(s.subrange(ep, ep + 1) =~= seq!['=']);
        if s.subrange(vs, ve) == variable_value_text(d.value) {
            assert(variable_definition_text(d) =~= s.subrange(i0, ve));
        } else {
            assert(d.value == VariableValue::Integer(0i64));
            assert(crate::ast::kind_value_text_minus_zero(OptionKind::Variable(d)) =~= s.subrange(
                i0,
                ve,
            ));
        }
    }
    Ok(d)
}



// ---------------------------------------------------------------------------
// Per-keyword value grammars.
// ---------------------------------------------------------------------------

/// Is a strict boolean literal spelled at `i`?
pub open spec fn bool_value_ok(s: Seq<char>, i: int) -> bool {
    vv_true_at(s, i) || vv_false_at(s, i)
}

/// The boolean spelled at `i`.
pub open spec fn bool_value(s: Seq<char>, i: int) -> bool {
    vv_true_at(s, i)
}

/// Where the boolean literal at `i` ends.
pub open spec fn bool_value_end(s: Seq<char>, i: int) -> int {
    if vv_true_at(s, i) {
        i + "true"@.len()
    } else {
        i + "false"@.len()
    }
}
/// Parse the value of `compressed`: a strict boolean; anything else is fatal.
pub fn option_compressed(reader: &mut Reader) -> (r: ParseResult<OptionKind>)
    requires
        old(reader).wf(),
    ensures
        final(reader).wf(),
        final(reader).text() == old(reader).text(),
        0 <= old(reader).cursor() <= final(reader).cursor() <= final(reader).text().len(),
        r is Err ==> !r->Err_0.recoverable,
        !(bool_value_ok(old(reader).text(), old(reader).cursor())) ==> (r matches Err(e) && e.pos
            == pos_at(old(reader).text(), old(reader).cursor())),
        r matches Ok(k) ==> (old(reader).text().subrange(old(reader).cursor(), final(reader).cursor()) == kind_value_text(k) || (kind_has_zero_int(k) && old(reader).text().subrange(old(reader).cursor(), final(reader).cursor()) == kind_value_text_minus_zero(k))),
        r matches Ok(k) ==> kind_payload_ok(
            old(reader).text(),
            old(reader).cursor(),
            final(reader).cursor(),
            k,
        ),
        bool_value_ok(old(reader).text(), old(reader).cursor()) ==> (r matches Ok(k) && k == OptionKind::Compressed(bool_value(old(reader).text(), old(reader).cursor())) && final(reader).cursor() == bool_value_end(old(reader).text(), old(reader).cursor())),
{
    let value = match boolean(reader) {
        Ok(v) => v,
        Err(e) => {
            return Err(e.into_nonrecoverable());
        },
    };
    Ok(OptionKind::Compressed(value))
}
/// Parse the value of `insecure`: a strict boolean; anything else is fatal.
pub fn option_insecure(reader: &mut Reader) -> (r: ParseResult<OptionKind>)
    requires
        old(reader).wf(),
    ensures
        final(reader).wf(),
        final(reader).text() == old(reader).text(),
        0 <= old(reader).cursor() <= final(reader).cursor() <= final(reader).text().len(),
        r is Err ==> !r->Err_0.recoverable,
        !(bool_value_ok(old(reader).text(), old(reader).cursor())) ==> (r matches Err(e) && e.pos
            == pos_at(old(reader).text(), old(reader).cursor())),
        r matches Ok(k) ==> (old(reader).text().subrange(old(reader).cursor(), final(reader).cursor()) == kind_value_text(k) || (kind_has_zero_int(k) && old(reader).text().subrange(old(reader).cursor(), final(reader).cursor()) == kind_value_text_minus_zero(k))),
        r matches Ok(k) ==> kind_payload_ok(
            old(reader).text(),
            old(reader).cursor(),
            final(reader).cursor(),
            k,
        ),
        bool_value_ok(old(reader).text(), old(reader).cursor()) ==> (r matches Ok(k) && k == OptionKind::Insecure(bool_value(old(reader).text(), old(reader).cursor())) && final(reader).cursor() == bool_value_end(old(reader).text(), old(reader).cursor())),
{
    let value = match boolean(reader) {
        Ok(v) => v,
        Err(e) => {
            return Err(e.into_nonrecoverable());
        },
    };
    Ok(OptionKind::Insecure(value))
}
/// Parse the value of `http1.0`: a strict boolean; anything else is fatal.
pub fn option_http_10(reader: &mut Reader) -> (r: ParseResult<OptionKind>)
    requires
        old(reader).wf(),
    ensures
        final(reader).wf(),
        final(reader).text() == old(reader).text(),
        0 <= old(reader).cursor() <= final(reader).cursor() <= final(reader).text().len(),
        r is Err ==> !r->Err_0.recoverable,
        !(bool_value_ok(old(reader).text(), old(reader).cursor())) ==> (r matches Err(e) && e.pos
            == pos_at(old(reader).text(), old(reader).cursor())),
        r matches Ok(k) ==> (old(reader).text().subrange(old(reader).cursor(), final(reader).cursor()) == kind_value_text(k) || (kind_has_zero_int(k) && old(reader).text().subrange(old(reader).cursor(), final(reader).cursor()) == kind_value_text_minus_zero(k))),
        r matches Ok(k) ==> kind_payload_ok(
            old(reader).text(),
            old(reader).cursor(),
            final(reader).cursor(),
            k,
        ),
        bool_value_ok(old(reader).text(), old(reader).cursor()) ==> (r matches Ok(k) && k == OptionKind::Http10(bool_value(old(reader).text(), old(reader).cursor())) && final(reader).cursor() == bool_value_end(old(reader).text(), old(reader).cursor())),
{
    let value = match boolean(reader) {
        Ok(v) => v,
        Err(e) => {
            return Err(e.into_nonrecoverable());
        },
    };
    Ok(OptionKind::Http10(value))
}
/// Parse the value of `http1.1`: a strict boolean; anything else is fatal.
pub fn option_http_11(reader: &mut Reader) -> (r: ParseResult<OptionKind>)
    requires
        old(reader).wf(),
    ensures
        final(reader).wf(),
        final(reader).text() == old(reader).text(),
        0 <= old(reader).cursor() <= final(reader).cursor() <= final(reader).text().len(),
        r is Err ==> !r->Err_0.recoverable,
        !(bool_value_ok(old(reader).text(), old(reader).cursor())) ==> (r matches Err(e) && e.pos
            == pos_at(old(reader).text(), old(reader).cursor())),
        r matches Ok(k) ==> (old(reader).text().subrange(old(reader).cursor(), final(reader).cursor()) == kind_value_text(k) || (kind_has_zero_int(k) && old(reader).text().subrange(old(reader).cursor(), final(reader).cursor()) == kind_value_text_minus_zero(k))),
        r matches Ok(k) ==> kind_payload_ok(
            old(reader).text(),
            old(reader).cursor(),
            final(reader).cursor(),
            k,
        ),
        bool_value_ok(old(reader).text(), old(reader).cursor()) ==> (r matches Ok(k) && k == OptionKind::Http11(bool_value(old(reader).text(), old(reader).cursor())) && final(reader).cursor() == bool_value_end(old(reader).text(), old(reader).cursor())),
{
    let value = match boolean(reader) {
        Ok(v) => v,
        Err(e) => {
            return Err(e.into_nonrecoverable());
        },
    };
    Ok(OptionKind::Http11(value))
}
/// Parse the value of `http2`: a strict boolean; anything else is fatal.
pub fn option_http_2(reader: &mut Reader) -> (r: ParseResult<OptionKind>)
    requires
        old(reader).wf(),
    ensures
        final(reader).wf(),
        final(reader).text() == old(reader).text(),
        0 <= old(reader).cursor() <= final(reader).cursor() <= final(reader).text().len(),
        r is Err ==> !r->Err_0.recoverable,
        !(bool_value_ok(old(reader).text(), old(reader).cursor())) ==> (r matches Err(e) && e.pos
            == pos_at(old(reader).text(), old(reader).cursor())),
        r matches Ok(k) ==> (old(reader).text().subrange(old(reader).cursor(), final(reader).cursor()) == kind_value_text(k) || (kind_has_zero_int(k) && old(reader).text().subrange(old(reader).cursor(), final(reader).cursor()) == kind_value_text_minus_zero(k))),
        r matches Ok(k) ==> kind_payload_ok(
            old(reader).text(),
            old(reader).cursor(),
            final(reader).cursor(),
            k,
        ),
        bool_value_ok(old(reader).text(), old(reader).cursor()) ==> (r matches Ok(k) && k == OptionKind::Http2(bool_value(old(reader).text(), old(reader).cursor())) && final(reader).cursor() == bool_value_end(old(reader).text(), old(reader).cursor())),
{
    let value = match boolean(reader) {
        Ok(v) => v,
        Err(e) => {
            return Err(e.into_nonrecoverable());
        },
    };
    Ok(OptionKind::Http2(value))
}
/// Parse the value of `http3`: a strict boolean; anything else is fatal.
pub fn option_http_3(reader: &mut Reader) -> (r: ParseResult<OptionKind>)
    requires
        old(reader).wf(),
    ensures
        final(reader).wf(),
        final(reader).text() == old(reader).text(),
        0 <= old(reader).cursor() <= final(reader).cursor() <= final(reader).text().len(),
        r is Err ==> !r->Err_0.recoverable,
        !(bool_value_ok(old(reader).text(), old(reader).cursor())) ==> (r matches Err(e) && e.pos
            == pos_at(old(reader).text(), old(reader).cursor())),
        r matches Ok(k) ==> (old(reader).text().subrange(old(reader).cursor(), final(reader).cursor()) == kind_value_text(k) || (kind_has_zero_int(k) && old(reader).text().subrange(old(reader).cursor(), final(reader).cursor()) == kind_value_text_minus_zero(k))),
        r matches Ok(k) ==> kind_payload_ok(
            old(reader).text(),
            old(reader).cursor(),
            final(reader).cursor(),
            k,
        ),
        bool_value_ok(old(reader).text(), old(reader).cursor()) ==> (r matches Ok(k) && k == OptionKind::Http3(bool_value(old(reader).text(), old(reader).cursor())) && final(reader).cursor() == bool_value_end(old(reader).text(), old(reader).cursor())),
{
    let value = match boolean(reader) {
        Ok(v) => v,
        Err(e) => {
            return Err(e.into_nonrecoverable());
        },
    };
    Ok(OptionKind::Http3(value))
}
/// Parse the value of `ipv4`: a strict boolean; anything else is fatal.
pub fn option_ipv4(reader: &mut Reader) -> (r: ParseResult<OptionKind>)
    requires
        old(reader).wf(),
    ensures
        final(reader).wf(),
        final(reader).text() == old(reader).text(),
        0 <= old(reader).cursor() <= final(reader).cursor() <= final(reader).text().len(),
        r is Err ==> !r->Err_0.recoverable,
        !(bool_value_ok(old(reader).text(), old(reader).cursor())) ==> (r matches Err(e) && e.pos
            == pos_at(old(reader).text(), old(reader).cursor())),
        r matches Ok(k) ==> (old(reader).text().subrange(old(reader).cursor(), final(reader).cursor()) == kind_value_text(k) || (kind_has_zero_int(k) && old(reader).text().subrange(old(reader).cursor(), final(reader).cursor()) == kind_value_text_minus_zero(k))),
        r matches Ok(k) ==> kind_payload_ok(
            old(reader).text(),
            old(reader).cursor(),
            final(reader).cursor(),
            k,
        ),
        bool_value_ok(old(reader).text(), old(reader).cursor()) ==> (r matches Ok(k) && k == OptionKind::IpV4(bool_value(old(reader).text(), old(reader).cursor())) && final(reader).cursor() == bool_value_end(old(reader).text(), old(reader).cursor())),
{
    let value = match boolean(reader) {
        Ok(v) => v,
        Err(e) => {
            return Err(e.into_nonrecoverable());
        },
    };
    Ok(OptionKind::IpV4(value))
}
/// Parse the value of `ipv6`: a strict boolean; anything else is fatal.
pub fn option_ipv6(reader: &mut Reader) -> (r: ParseResult<OptionKind>)
    requires
        old(reader).wf(),
    ensures
        final(reader).wf(),
        final(reader).text() == old(reader).text(),
        0 <= old(reader).cursor() <= final(reader).cursor() <= final(reader).text().len(),
        r is Err ==> !r->Err_0.recoverable,
        !(bool_value_ok(old(reader).text(), old(reader).cursor())) ==> (r matches Err(e) && e.pos
            == pos_at(old(reader).text(), old(reader).cursor())),
        r matches Ok(k) ==> (old(reader).text().subrange(old(reader).cursor(), final(reader).cursor()) == kind_value_text(k) || (kind_has_zero_int(k) && old(reader).text().subrange(old(reader).cursor(), final(reader).cursor()) == kind_value_text_minus_zero(k))),
        r matches Ok(k) ==> kind_payload_ok(
            old(reader).text(),
            old(reader).cursor(),
            final(reader).cursor(),
            k,
        ),
        bool_value_ok(old(reader).text(), old(reader).cursor()) ==> (r matches Ok(k) && k == OptionKind::IpV6(bool_value(old(reader).text(), old(reader).cursor())) && final(reader).cursor() == bool_value_end(old(reader).text(), old(reader).cursor())),
{
    let value = match boolean(reader) {
        Ok(v) => v,
        Err(e) => {
            return Err(e.into_nonrecoverable());
        },
    };
    Ok(OptionKind::IpV6(value))
}
/// Parse the value of `location`: a strict boolean; anything else is fatal.
pub fn option_follow_location(reader: &mut Reader) -> (r: ParseResult<OptionKind>)
    requires
        old(reader).wf(),
    ensures
        final(reader).wf(),
        final(reader).text() == old(reader).text(),
        0 <= old(reader).cursor() <= final(reader).cursor() <= final(reader).text().len(),
        r is Err ==> !r->Err_0.recoverable,
        !(bool_value_ok(old(reader).text(), old(reader).cursor())) ==> (r matches Err(e) && e.pos
            == pos_at(old(reader).text(), old(reader).cursor())),
        r matches Ok(k) ==> (old(reader).text().subrange(old(reader).cursor(), final(reader).cursor()) == kind_value_text(k) || (kind_has_zero_int(k) && old(reader).text().subrange(old(reader).cursor(), final(reader).cursor()) == kind_value_text_minus_zero(k))),
        r matches Ok(k) ==> kind_payload_ok(
            old(reader).text(),
            old(reader).cursor(),
            final(reader).cursor(),
            k,
        ),
        bool_value_ok(old(reader).text(), old(reader).cursor()) ==> (r matches Ok(k) && k == OptionKind::FollowLocation(bool_value(old(reader).text(), old(reader).cursor())) && final(reader).cursor() == bool_value_end(old(reader).text(), old(reader).cursor())),
{
    let value = match boolean(reader) {
        Ok(v) => v,
        Err(e) => {
            return Err(e.into_nonrecoverable());
        },
    };
    Ok(OptionKind::FollowLocation(value))
}
/// Parse the value of `path-as-is`: a strict boolean; anything else is fatal.
pub fn option_path_as_is(reader: &mut Reader) -> (r: ParseResult<OptionKind>)
    requires
        old(reader).wf(),
    ensures
        final(reader).wf(),
        final(reader).text() == old(reader).text(),
        0 <= old(reader).cursor() <= final(reader).cursor() <= final(reader).text().len(),
        r is Err ==> !r->Err_0.recoverable,
        !(bool_value_ok(old(reader).text(), old(reader).cursor())) ==> (r matches Err(e) && e.pos
            == pos_at(old(reader).text(), old(reader).cursor())),
        r matches Ok(k) ==> (old(reader).text().subrange(old(reader).cursor(), final(reader).cursor()) == kind_value_text(k) || (kind_has_zero_int(k) && old(reader).text().subrange(old(reader).cursor(), final(reader).cursor()) == kind_value_text_minus_zero(k))),
        r matches Ok(k) ==> kind_payload_ok(
            old(reader).text(),
            old(reader).cursor(),
            final(reader).cursor(),
            k,
        ),
        bool_value_ok(old(reader).text(), old(reader).cursor()) ==> (r matches Ok(k) && k == OptionKind::PathAsIs(bool_value(old(reader).text(), old(reader).cursor())) && final(reader).cursor() == bool_value_end(old(reader).text(), old(reader).cursor())),
{
    let value = match boolean(reader) {
        Ok(v) => v,
        Err(e) => {
            return Err(e.into_nonrecoverable());
        },
    };
    Ok(OptionKind::PathAsIs(value))
}
/// Parse the value of `verbose`: a strict boolean; anything else is fatal.
pub fn option_verbose(reader: &mut Reader) -> (r: ParseResult<OptionKind>)
    requires
        old(reader).wf(),
    ensures
        final(reader).wf(),
        final(reader).text() == old(reader).text(),
        0 <= old(reader).cursor() <= final(reader).cursor() <= final(reader).text().len(),
        r is Err ==> !r->Err_0.recoverable,
        !(bool_value_ok(old(reader).text(), old(reader).cursor())) ==> (r matches Err(e) && e.pos
            == pos_at(old(reader).text(), old(reader).cursor())),
        r matches Ok(k) ==> (old(reader).text().subrange(old(reader).cursor(), final(reader).cursor()) == kind_value_text(k) || (kind_has_zero_int(k) && old(reader).text().subrange(old(reader).cursor(), final(reader).cursor()) == kind_value_text_minus_zero(k))),
        r matches Ok(k) ==> kind_payload_ok(
            old(reader).text(),
            old(reader).cursor(),
            final(reader).cursor(),
            k,
        ),
        bool_value_ok(old(reader).text(), old(reader).cursor()) ==> (r matches Ok(k) && k == OptionKind::Verbose(bool_value(old(reader).text(), old(reader).cursor())) && final(reader).cursor() == bool_value_end(old(reader).text(), old(reader).cursor())),
{
    let value = match boolean(reader) {
        Ok(v) => v,
        Err(e) => {
            return Err(e.into_nonrecoverable());
        },
    };
    Ok(OptionKind::Verbose(value))
}
/// Parse the value of `very-verbose`: a strict boolean; anything else is fatal.
pub fn option_very_verbose(reader: &mut Reader) -> (r: ParseResult<OptionKind>)
    requires
        old(reader).wf(),
    ensures
        final(reader).wf(),
        final(reader).text() == old(reader).text(),
        0 <= old(reader).cursor() <= final(reader).cursor() <= final(reader).text().len(),
        r is Err ==> !r->Err_0.recoverable,
        !(bool_value_ok(old(reader).text(), old(reader).cursor())) ==> (r matches Err(e) && e.pos
            == pos_at(old(reader).text(), old(reader).cursor())),
        r matches Ok(k) ==> (old(reader).text().subrange(old(reader).cursor(), final(reader).cursor()) == kind_value_text(k) || (kind_has_zero_int(k) && old(reader).text().subrange(old(reader).cursor(), final(reader).cursor()) == kind_value_text_minus_zero(k))),
        r matches Ok(k) ==> kind_payload_ok(
            old(reader).text(),
            old(reader).cursor(),
            final(reader).cursor(),
            k,
        ),
        bool_value_ok(old(reader).text(), old(reader).cursor()) ==> (r matches Ok(k) && k == OptionKind::VeryVerbose(bool_value(old(reader).text(), old(reader).cursor())) && final(reader).cursor() == bool_value_end(old(reader).text(), old(reader).cursor())),
{
    let value = match boolean(reader) {
        Ok(v) => v,
        Err(e) => {
            return Err(e.into_nonrecoverable());
        },
    };
    Ok(OptionKind::VeryVerbose(value))
}
/// Parse the value of `delay`: an unsigned natural number; anything else
/// is fatal.
pub fn option_delay(reader: &mut Reader) -> (r: ParseResult<OptionKind>)
    requires
        old(reader).wf(),
    ensures
        final(reader).wf(),
        final(reader).text() == old(reader).text(),
        0 <= old(reader).cursor() <= final(reader).cursor() <= final(reader).text().len(),
        r is Err ==> !r->Err_0.recoverable,
        !(natural_ok_at(old(reader).text(), old(reader).cursor())) ==> (r matches Err(e) && e.pos
            == pos_at(old(reader).text(), old(reader).cursor())),
        r matches Ok(k) ==> (old(reader).text().subrange(old(reader).cursor(), final(reader).cursor()) == kind_value_text(k) || (kind_has_zero_int(k) && old(reader).text().subrange(old(reader).cursor(), final(reader).cursor()) == kind_value_text_minus_zero(k))),
        r matches Ok(k) ==> kind_payload_ok(
            old(reader).text(),
            old(reader).cursor(),
            final(reader).cursor(),
            k,
        ),
        natural_ok_at(old(reader).text(), old(reader).cursor()) ==> (r matches Ok(k) && (k matches OptionKind::Delay(n) && n as int == natural_value(old(reader).text(), old(reader).cursor())) && final(reader).cursor() == digit_run_end(old(reader).text(), old(reader).cursor())),
{
    let value = match natural(reader) {
        Ok(v) => v,
        Err(e) => {
            return Err(e.into_nonrecoverable());
        },
    };
    Ok(OptionKind::Delay(value))
}
/// Parse the value of `retry-interval`: an unsigned natural number; anything else
/// is fatal.
pub fn option_retry_interval(reader: &mut Reader) -> (r: ParseResult<OptionKind>)
    requires
        old(reader).wf(),
    ensures
        final(reader).wf(),
        final(reader).text() == old(reader).text(),
        0 <= old(reader).cursor() <= final(reader).cursor() <= final(reader).text().len(),
        r is Err ==> !r->Err_0.recoverable,
        !(natural_ok_at(old(reader).text(), old(reader).cursor())) ==> (r matches Err(e) && e.pos
            == pos_at(old(reader).text(), old(reader).cursor())),
        r matches Ok(k) ==> (old(reader).text().subrange(old(reader).cursor(), final(reader).cursor()) == kind_value_text(k) || (kind_has_zero_int(k) && old(reader).text().subrange(old(reader).cursor(), final(reader).cursor()) == kind_value_text_minus_zero(k))),
        r matches Ok(k) ==> kind_payload_ok(
            old(reader).text(),
            old(reader).cursor(),
            final(reader).cursor(),
            k,
        ),
        natural_ok_at(old(reader).text(), old(reader).cursor()) ==> (r matches Ok(k) && (k matches OptionKind::RetryInterval(n) && n as int == natural_value(old(reader).text(), old(reader).cursor())) && final(reader).cursor() == digit_run_end(old(reader).text(), old(reader).cursor())),
{
    let value = match natural(reader) {
        Ok(v) => v,
        Err(e) => {
            return Err(e.into_nonrecoverable());
        },
    };
    Ok(OptionKind::RetryInterval(value))
}
/// Parse the value of `max-redirs`: an unsigned natural narrowed to a
/// machine-size integer.  A value over that width is a fatal parse error,
/// not a silent clamp.
pub fn option_max_redirect(reader: &mut Reader) -> (r: ParseResult<OptionKind>)
    requires
        old(reader).wf(),
    ensures
        final(reader).wf(),
        final(reader).text() == old(reader).text(),
        0 <= old(reader).cursor() <= final(reader).cursor() <= final(reader).text().len(),
        r is Err ==> !r->Err_0.recoverable,
        !(natural_ok_at(old(reader).text(), old(reader).cursor()) && natural_value(old(reader).text(), old(reader).cursor()) <= usize::MAX) ==> (r matches Err(e) && e.pos == pos_at(
            old(reader).text(),
            old(reader).cursor(),
        )),
        r matches Ok(k) ==> (old(reader).text().subrange(old(reader).cursor(), final(reader).cursor()) == kind_value_text(k) || (kind_has_zero_int(k) && old(reader).text().subrange(old(reader).cursor(), final(reader).cursor()) == kind_value_text_minus_zero(k))),
        r matches Ok(k) ==> kind_payload_ok(
            old(reader).text(),
            old(reader).cursor(),
            final(reader).cursor(),
            k,
        ),
        natural_ok_at(old(reader).text(), old(reader).cursor()) && natural_value(old(reader).text(), old(reader).cursor()) <= usize::MAX ==> (r matches Ok(k) && (k matches OptionKind::MaxRedirect(n) && n as int == natural_value(old(reader).text(), old(reader).cursor())) && final(reader).cursor() == digit_run_end(old(reader).text(), old(reader).cursor())),
{
    let pos = reader.current_pos();
    let value = match natural(reader) {
        Ok(v) => v,
        Err(e) => {
            return Err(e.into_nonrecoverable());
        },
    };
    if value > usize::MAX as u64 {
        return Err(ParseError::expecting("max-redirs", pos, false));
    }
    Ok(OptionKind::MaxRedirect(value as usize))
}
/// Parse the value of `cacert`: a filename; an empty or invalid path token
/// is fatal.
pub fn option_cacert(reader: &mut Reader) -> (r: ParseResult<OptionKind>)
    requires
        old(reader).wf(),
    ensures
        final(reader).wf(),
        final(reader).text() == old(reader).text(),
        0 <= old(reader).cursor() <= final(reader).cursor() <= final(reader).text().len(),
        r is Err ==> !r->Err_0.recoverable,
        !(filename_end(old(reader).text(), old(reader).cursor()) > old(reader).cursor()) ==> r is Err,
        r matches Ok(k) ==> (old(reader).text().subrange(old(reader).cursor(), final(reader).cursor()) == kind_value_text(k) || (kind_has_zero_int(k) && old(reader).text().subrange(old(reader).cursor(), final(reader).cursor()) == kind_value_text_minus_zero(k))),
        r matches Ok(k) ==> kind_payload_ok(
            old(reader).text(),
            old(reader).cursor(),
            final(reader).cursor(),
            k,
        ),
        filename_end(old(reader).text(), old(reader).cursor()) > old(reader).cursor() ==> (r matches Ok(k) && (k matches OptionKind::CaCertificate(f) && f.value@ == old(reader).text().subrange(old(reader).cursor(), final(reader).cursor())) && final(reader).cursor() == filename_end(old(reader).text(), old(reader).cursor())),
{
    let ghost s0 = reader.text();
    let ghost c0 = reader.cursor();
    proof {
        crate::reader::lemma_wf(reader);
        lemma_run_end_props(CharClass::FilenameChar, s0, c0);
    }
    let value = match crate::filename::parse(reader) {
        Ok(f) => f,
        Err(e) => {
            return Err(e);
        },
    };
    Ok(OptionKind::CaCertificate(value))
}
/// Parse the value of `cert`: a filename; an empty or invalid path token
/// is fatal.
pub fn option_cert(reader: &mut Reader) -> (r: ParseResult<OptionKind>)
    requires
        old(reader).wf(),
    ensures
        final(reader).wf(),
        final(reader).text() == old(reader).text(),
        0 <= old(reader).cursor() <= final(reader).cursor() <= final(reader).text().len(),
        r is Err ==> !r->Err_0.recoverable,
        !(filename_end(old(reader).text(), old(reader).cursor()) > old(reader).cursor()) ==> r is Err,
        r matches Ok(k) ==> (old(reader).text().subrange(old(reader).cursor(), final(reader).cursor()) == kind_value_text(k) || (kind_has_zero_int(k) && old(reader).text().subrange(old(reader).cursor(), final(reader).cursor()) == kind_value_text_minus_zero(k))),
        r matches Ok(k) ==> kind_payload_ok(
            old(reader).text(),
            old(reader).cursor(),
            final(reader).cursor(),
            k,
        ),
        filename_end(old(reader).text(), old(reader).cursor()) > old(reader).cursor() ==> (r matches Ok(k) && (k matches OptionKind::ClientCert(f) && f.value@ == old(reader).text().subrange(old(reader).cursor(), final(reader).cursor())) && final(reader).cursor() == filename_end(old(reader).text(), old(reader).cursor())),
{
    let ghost s0 = reader.text();
    let ghost c0 = reader.cursor();
    proof {
        crate::reader::lemma_wf(reader);
        lemma_run_end_props(CharClass::FilenameChar, s0, c0);
    }
    let value = match crate::filename::parse(reader) {
        Ok(f) => f,
        Err(e) => {
            return Err(e);
        },
    };
    Ok(OptionKind::ClientCert(value))
}
/// Parse the value of `key`: a filename; an empty or invalid path token
/// is fatal.
pub fn option_key(reader: &mut Reader) -> (r: ParseResult<OptionKind>)
    requires
        old(reader).wf(),
    ensures
        final(reader).wf(),
        final(reader).text() == old(reader).text(),
        0 <= old(reader).cursor() <= final(reader).cursor() <= final(reader).text().len(),
        r is Err ==> !r->Err_0.recoverable,
        !(filename_end(old(reader).text(), old(reader).cursor()) > old(reader).cursor()) ==> r is Err,
        r matches Ok(k) ==> (old(reader).text().subrange(old(reader).cursor(), final(reader).cursor()) == kind_value_text(k) || (kind_has_zero_int(k) && old(reader).text().subrange(old(reader).cursor(), final(reader).cursor()) == kind_value_text_minus_zero(k))),
        r matches Ok(k) ==> kind_payload_ok(
            old(reader).text(),
            old(reader).cursor(),
            final(reader).cursor(),
            k,
        ),
        filename_end(old(reader).text(), old(reader).cursor()) > old(reader).cursor() ==> (r matches Ok(k) && (k matches OptionKind::ClientKey(f) && f.value@ == old(reader).text().subrange(old(reader).cursor(), final(reader).cursor())) && final(reader).cursor() == filename_end(old(reader).text(), old(reader).cursor())),
{
    let ghost s0 = reader.text();
    let ghost c0 = reader.cursor();
    proof {
        crate::reader::lemma_wf(reader);
        lemma_run_end_props(CharClass::FilenameChar, s0, c0);
    }
    let value = match crate::filename::parse(reader) {
        Ok(f) => f,
        Err(e) => {
            return Err(e);
        },
    };
    Ok(OptionKind::ClientKey(value))
}
/// Parse the value of `aws-sigv4` with its dedicated grammar.
pub fn option_aws_sigv4(reader: &mut Reader) -> (r: ParseResult<OptionKind>)
    requires
        old(reader).wf(),
    ensures
        final(reader).wf(),
        final(reader).text() == old(reader).text(),
        0 <= old(reader).cursor() <= final(reader).cursor() <= final(reader).text().len(),
        r is Err ==> !r->Err_0.recoverable,
        !(run_end(CharClass::Provider, old(reader).text(), old(reader).cursor()) > old(reader).cursor()) ==> r is Err,
        r matches Ok(k) ==> (old(reader).text().subrange(old(reader).cursor(), final(reader).cursor()) == kind_value_text(k) || (kind_has_zero_int(k) && old(reader).text().subrange(old(reader).cursor(), final(reader).cursor()) == kind_value_text_minus_zero(k))),
        r matches Ok(k) ==> kind_payload_ok(
            old(reader).text(),
            old(reader).cursor(),
            final(reader).cursor(),
            k,
        ),
        run_end(CharClass::Provider, old(reader).text(), old(reader).cursor()) > old(reader).cursor() ==> (r matches Ok(k) && (k matches OptionKind::AwsSigV4(v) && v@ == old(reader).text().subrange(old(reader).cursor(), final(reader).cursor())) && final(reader).cursor() == run_end(CharClass::Provider, old(reader).text(), old(reader).cursor())),
{
    let ghost s0 = reader.text();
    let ghost c0 = reader.cursor();
    proof {
        crate::reader::lemma_wf(reader);
        lemma_run_end_props(CharClass::Provider, s0, c0);
    }
    let value = match aws_sigv4(reader) {
        Ok(v) => v,
        Err(e) => {
            return Err(e);
        },
    };
    Ok(OptionKind::AwsSigV4(value))
}
/// Parse the value of `proxy` with its dedicated grammar.
pub fn option_proxy(reader: &mut Reader) -> (r: ParseResult<OptionKind>)
    requires
        old(reader).wf(),
    ensures
        final(reader).wf(),
        final(reader).text() == old(reader).text(),
        0 <= old(reader).cursor() <= final(reader).cursor() <= final(reader).text().len(),
        r is Err ==> !r->Err_0.recoverable,
        !(run_end(CharClass::ProxyName, old(reader).text(), old(reader).cursor()) > old(reader).cursor()) ==> r is Err,
        r matches Ok(k) ==> (old(reader).text().subrange(old(reader).cursor(), final(reader).cursor()) == kind_value_text(k) || (kind_has_zero_int(k) && old(reader).text().subrange(old(reader).cursor(), final(reader).cursor()) == kind_value_text_minus_zero(k))),
        r matches Ok(k) ==> kind_payload_ok(
            old(reader).text(),
            old(reader).cursor(),
            final(reader).cursor(),
            k,
        ),
        run_end(CharClass::ProxyName, old(reader).text(), old(reader).cursor()) > old(reader).cursor() ==> (r matches Ok(k) && (k matches OptionKind::Proxy(v) && v@ == old(reader).text().subrange(old(reader).cursor(), final(reader).cursor())) && final(reader).cursor() == run_end(CharClass::ProxyName, old(reader).text(), old(reader).cursor())),
{
    let ghost s0 = reader.text();
    let ghost c0 = reader.cursor();
    proof {
        crate::reader::lemma_wf(reader);
        lemma_run_end_props(CharClass::ProxyName, s0, c0);
    }
    let value = match proxy(reader) {
        Ok(v) => v,
        Err(e) => {
            return Err(e);
        },
    };
    Ok(OptionKind::Proxy(value))
}
/// Parse the value of `resolve` with its dedicated grammar.
pub fn option_resolve(reader: &mut Reader) -> (r: ParseResult<OptionKind>)
    requires
        old(reader).wf(),
    ensures
        final(reader).wf(),
        final(reader).text() == old(reader).text(),
        0 <= old(reader).cursor() <= final(reader).cursor() <= final(reader).text().len(),
        r is Err ==> !r->Err_0.recoverable,
        !(hostport_accept(old(reader).text(), old(reader).cursor())) ==> r is Err,
        r matches Ok(k) ==> (old(reader).text().subrange(old(reader).cursor(), final(reader).cursor()) == kind_value_text(k) || (kind_has_zero_int(k) && old(reader).text().subrange(old(reader).cursor(), final(reader).cursor()) == kind_value_text_minus_zero(k))),
        r matches Ok(k) ==> kind_payload_ok(
            old(reader).text(),
            old(reader).cursor(),
            final(reader).cursor(),
            k,
        ),
        hostport_accept(old(reader).text(), old(reader).cursor()) ==> (r matches Ok(k) && (k matches OptionKind::Resolve(v) && v@ == old(reader).text().subrange(old(reader).cursor(), final(reader).cursor())) && final(reader).cursor() == run_end(CharClass::HostPort, old(reader).text(), old(reader).cursor())),
{
    let ghost s0 = reader.text();
    let ghost c0 = reader.cursor();
    proof {
        crate::reader::lemma_wf(reader);
        lemma_run_end_props(CharClass::HostPort, s0, c0);
    }
    let value = match resolve(reader) {
        Ok(v) => v,
        Err(e) => {
            return Err(e);
        },
    };
    Ok(OptionKind::Resolve(value))
}
/// Parse the value of `connect-to` with its dedicated grammar.
pub fn option_connect_to(reader: &mut Reader) -> (r: ParseResult<OptionKind>)
    requires
        old(reader).wf(),
    ensures
        final(reader).wf(),
        final(reader).text() == old(reader).text(),
        0 <= old(reader).cursor() <= final(reader).cursor() <= final(reader).text().len(),
        r is Err ==> !r->Err_0.recoverable,
        !(hostport_accept(old(reader).text(), old(reader).cursor())) ==> r is Err,
        r matches Ok(k) ==> (old(reader).text().subrange(old(reader).cursor(), final(reader).cursor()) == kind_value_text(k) || (kind_has_zero_int(k) && old(reader).text().subrange(old(reader).cursor(), final(reader).cursor()) == kind_value_text_minus_zero(k))),
        r matches Ok(k) ==> kind_payload_ok(
            old(reader).text(),
            old(reader).cursor(),
            final(reader).cursor(),
            k,
        ),
        hostport_accept(old(reader).text(), old(reader).cursor()) ==> (r matches Ok(k) && (k matches OptionKind::ConnectTo(v) && v@ == old(reader).text().subrange(old(reader).cursor(), final(reader).cursor())) && final(reader).cursor() == run_end(CharClass::HostPort, old(reader).text(), old(reader).cursor())),
{
    let ghost s0 = reader.text();
    let ghost c0 = reader.cursor();
    proof {
        crate::reader::lemma_wf(reader);
        lemma_run_end_props(CharClass::HostPort, s0, c0);
    }
    let value = match connect_to(reader) {
        Ok(v) => v,
        Err(e) => {
            return Err(e);
        },
    };
    Ok(OptionKind::ConnectTo(value))
}
/// Parse the value of `retry`: the tri-state sentinel.
pub fn option_retry(reader: &mut Reader) -> (r: ParseResult<OptionKind>)
    requires
        old(reader).wf(),
    ensures
        final(reader).wf(),
        final(reader).text() == old(reader).text(),
        0 <= old(reader).cursor() <= final(reader).cursor() <= final(reader).text().len(),
        r is Err ==> !r->Err_0.recoverable,
        !(retry_accept(old(reader).text(), old(reader).cursor())) ==> r is Err,
        r matches Ok(k) ==> (old(reader).text().subrange(old(reader).cursor(), final(reader).cursor()) == kind_value_text(k) || (kind_has_zero_int(k) && old(reader).text().subrange(old(reader).cursor(), final(reader).cursor()) == kind_value_text_minus_zero(k))),
        r matches Ok(k) ==> kind_payload_ok(
            old(reader).text(),
            old(reader).cursor(),
            final(reader).cursor(),
            k,
        ),
        retry_accept(old(reader).text(), old(reader).cursor()) ==> (r matches Ok(k) && (k matches OptionKind::Retry(rv) && (integer_value(old(reader).text(), old(reader).cursor()) == -1 ==> rv == Retry::Infinite) && (integer_value(old(reader).text(), old(reader).cursor()) == 0 ==> rv == Retry::Never) && (integer_value(old(reader).text(), old(reader).cursor()) > 0 ==> (rv matches Retry::Finite(n) && n as int == integer_value(old(reader).text(), old(reader).cursor())))) && final(reader).cursor() == integer_end(old(reader).text(), old(reader).cursor())),
{
    let value = match retry(reader) {
        Ok(v) => v,
        Err(e) => {
            return Err(e);
        },
    };
    Ok(OptionKind::Retry(value))
}
/// Parse the value of `variable`: a `name = value` definition.
pub fn option_variable(reader: &mut Reader) -> (r: ParseResult<OptionKind>)
    requires
        old(reader).wf(),
    ensures
        final(reader).wf(),
        final(reader).text() == old(reader).text(),
        0 <= old(reader).cursor() <= final(reader).cursor() <= final(reader).text().len(),
        r is Err ==> !r->Err_0.recoverable,
        r matches Ok(k) ==> (old(reader).text().subrange(old(reader).cursor(), final(reader).cursor()) == kind_value_text(k) || (kind_has_zero_int(k) && old(reader).text().subrange(old(reader).cursor(), final(reader).cursor()) == kind_value_text_minus_zero(k))),
        r matches Ok(k) ==> kind_payload_ok(
            old(reader).text(),
            old(reader).cursor(),
            final(reader).cursor(),
            k,
        ),
        r matches Ok(k) ==> k is Variable,
        !(vd_accepts(old(reader).text(), old(reader).cursor())) ==> r is Err,
        r is Ok ==> final(reader).cursor() == vd_end(old(reader).text(), old(reader).cursor()),
        vd_accepts(old(reader).text(), old(reader).cursor()) ==> (r matches Ok(k) && final(reader).cursor() == vd_end(old(reader).text(), old(reader).cursor())),
{
    let value = match variable_definition(reader) {
        Ok(v) => v,
        Err(e) => {
            return Err(e);
        },
    };
    Ok(OptionKind::Variable(value))
}

// ---------------------------------------------------------------------------
// Dispatch: one value grammar per keyword.
// ---------------------------------------------------------------------------


/// What the value slot of an accepted clause holds between `i` and `e`,
/// per kind: the captured string or filename (with its span), the boolean
/// the literal spells, the number the digits denote, the retry mapping, or
/// the variable definition's parts.
pub open spec fn kind_payload_ok(s: Seq<char>, i: int, e: int, k: OptionKind) -> bool {
    match k {
        OptionKind::AwsSigV4(v) => v@ == s.subrange(i, e),
        OptionKind::CaCertificate(f) => f.value@ == s.subrange(i, e) && f.source_info
            == (SourceInfo { start: pos_at(s, i), end: pos_at(s, e) }),
        OptionKind::ClientCert(f) => f.value@ == s.subrange(i, e) && f.source_info
            == (SourceInfo { start: pos_at(s, i), end: pos_at(s, e) }),
        OptionKind::ClientKey(f) => f.value@ == s.subrange(i, e) && f.source_info
            == (SourceInfo { start: pos_at(s, i), end: pos_at(s, e) }),
        OptionKind::Compressed(b) => b == bool_value(s, i),
        OptionKind::ConnectTo(v) => v@ == s.subrange(i, e),
        OptionKind::Delay(n) => n as int == natural_value(s, i),
        OptionKind::FollowLocation(b) => b == bool_value(s, i),
        OptionKind::Http10(b) => b == bool_value(s, i),
        OptionKind::Http11(b) => b == bool_value(s, i),
        OptionKind::Http2(b) => b == bool_value(s, i),
        OptionKind::Http3(b) => b == bool_value(s, i),
        OptionKind::Insecure(b) => b == bool_value(s, i),
        OptionKind::IpV4(b) => b == bool_value(s, i),
        OptionKind::IpV6(b) => b == bool_value(s, i),
        OptionKind::MaxRedirect(n) => n as int == natural_value(s, i),
        OptionKind::PathAsIs(b) => b == bool_value(s, i),
        OptionKind::Proxy(v) => v@ == s.subrange(i, e),
        OptionKind::Resolve(v) => v@ == s.subrange(i, e),
        OptionKind::Retry(rv) => (integer_value(s, i) == -1 ==> rv == Retry::Infinite) && (
        integer_value(s, i) == 0 ==> rv == Retry::Never) && (integer_value(s, i) > 0 ==> (rv
            matches Retry::Finite(n) && n as int == integer_value(s, i))),
        OptionKind::RetryInterval(n) => n as int == natural_value(s, i),
        OptionKind::Variable(d) => d.name@ == s.subrange(i, vd_name_end(s, i)) && d.space0.value@
            == s.subrange(vd_name_end(s, i), vd_eq_pos(s, i)) && d.space1.value@ == s.subrange(
            vd_eq_pos(s, i) + 1,
            vd_value_start(s, i),
        ) && vv_result_ok(s, vd_value_start(s, i), d.value, e),
        OptionKind::Verbose(b) => b == bool_value(s, i),
        OptionKind::VeryVerbose(b) => b == bool_value(s, i),
    }
}

/// The value grammar selected by `kw` accepts the text at `i` (for the
/// template-valued cases, in their plain shapes).
pub open spec fn value_accept(kw: Seq<char>, s: Seq<char>, i: int) -> bool {
    if kw == "aws-sigv4"@ {
        run_end(CharClass::Provider, s, i) > i
    } else if kw == "cacert"@ {
        filename_end(s, i) > i
    } else if kw == "cert"@ {
        filename_end(s, i) > i
    } else if kw == "compressed"@ {
        bool_value_ok(s, i)
    } else if kw == "connect-to"@ {
        hostport_accept(s, i)
    } else if kw == "delay"@ {
        natural_ok_at(s, i)
    } else if kw == "insecure"@ {
        bool_value_ok(s, i)
    } else if kw == "http1.0"@ {
        bool_value_ok(s, i)
    } else if kw == "http1.1"@ {
        bool_value_ok(s, i)
    } else if kw == "http2"@ {
        bool_value_ok(s, i)
    } else if kw == "http3"@ {
        bool_value_ok(s, i)
    } else if kw == "ipv4"@ {
        bool_value_ok(s, i)
    } else if kw == "ipv6"@ {
        bool_value_ok(s, i)
    } else if kw == "key"@ {
        filename_end(s, i) > i
    } else if kw == "location"@ {
        bool_value_ok(s, i)
    } else if kw == "max-redirs"@ {
        natural_ok_at(s, i) && natural_value(s, i) <= usize::MAX
    } else if kw == "path-as-is"@ {
        bool_value_ok(s, i)
    } else if kw == "proxy"@ {
        run_end(CharClass::ProxyName, s, i) > i
    } else if kw == "resolve"@ {
        hostport_accept(s, i)
    } else if kw == "retry"@ {
        retry_accept(s, i)
    } else if kw == "retry-interval"@ {
        natural_ok_at(s, i)
    } else if kw == "variable"@ {
        vd_accepts(s, i)
    } else if kw == "verbose"@ {
        bool_value_ok(s, i)
    } else if kw == "very-verbose"@ {
        bool_value_ok(s, i)
    } else {
        false
    }
}

/// Where the accepted value ends.
pub open spec fn value_end_at(kw: Seq<char>, s: Seq<char>, i: int) -> int {
    if kw == "aws-sigv4"@ {
        run_end(CharClass::Provider, s, i)
    } else if kw == "cacert"@ {
        filename_end(s, i)
    } else if kw == "cert"@ {
        filename_end(s, i)
    } else if kw == "compressed"@ {
        bool_value_end(s, i)
    } else if kw == "connect-to"@ {
        run_end(CharClass::HostPort, s, i)
    } else if kw == "delay"@ {
        digit_run_end(s, i)
    } else if kw == "insecure"@ {
        bool_value_end(s, i)
    } else if kw == "http1.0"@ {
        bool_value_end(s, i)
    } else if kw == "http1.1"@ {
        bool_value_end(s, i)
    } else if kw == "http2"@ {
        bool_value_end(s, i)
    } else if kw == "http3"@ {
        bool_value_end(s, i)
    } else if kw == "ipv4"@ {
        bool_value_end(s, i)
    } else if kw == "ipv6"@ {
        bool_value_end(s, i)
    } else if kw == "key"@ {
        filename_end(s, i)
    } else if kw == "location"@ {
        bool_value_end(s, i)
    } else if kw == "max-redirs"@ {
        digit_run_end(s, i)
    } else if kw == "path-as-is"@ {
        bool_value_end(s, i)
    } else if kw == "proxy"@ {
        run_end(CharClass::ProxyName, s, i)
    } else if kw == "resolve"@ {
        run_end(CharClass::HostPort, s, i)
    } else if kw == "retry"@ {
        integer_end(s, i)
    } else if kw == "retry-interval"@ {
        digit_run_end(s, i)
    } else if kw == "variable"@ {
        vd_end(s, i)
    } else if kw == "verbose"@ {
        bool_value_end(s, i)
    } else if kw == "very-verbose"@ {
        bool_value_end(s, i)
    } else {
        i
    }
}

/// Where the keyword of a clause starts: after the leading line terminators
/// and spacing.
pub open spec fn keyword_start(s: Seq<char>, i: int) -> int {
    run_end(CharClass::Space, s, skip_lts(s, i))
}

/// Where the keyword ends.
pub open spec fn keyword_end(s: Seq<char>, i: int) -> int {
    run_end(CharClass::Keyword, s, keyword_start(s, i))
}

/// The candidate keyword of a clause.
pub open spec fn keyword_slice(s: Seq<char>, i: int) -> Seq<char> {
    s.subrange(keyword_start(s, i), keyword_end(s, i))
}

/// Where the `:` of a clause must stand.
pub open spec fn colon_pos(s: Seq<char>, i: int) -> int {
    run_end(CharClass::Space, s, keyword_end(s, i))
}

/// Is the `:` present?
pub open spec fn colon_ok(s: Seq<char>, i: int) -> bool {
    colon_pos(s, i) < s.len() && s[colon_pos(s, i)] == ':'
}

/// Where the value of a clause starts.
pub open spec fn value_start(s: Seq<char>, i: int) -> int {
    run_end(CharClass::Space, s, colon_pos(s, i) + 1)
}

/// Parse one option clause: leading line terminators and spacing, the
/// keyword, spacing, `:`, spacing, the keyword's value grammar, and the
/// trailing line terminator.
///
/// An unknown keyword is a recoverable failure at the keyword's first
/// character, and a missing `:` is a recoverable failure; every failure
/// after the keyword and `:` have matched is fatal.  On success, the
/// captured fields of the clause concatenate back to the consumed input
/// slice (a zero spelled `-0` reprints canonically as `0`).
pub fn parse(reader: &mut Reader) -> (r: ParseResult<EntryOption>)
    requires
        old(reader).wf(),
    ensures
        final(reader).wf(),
        final(reader).text() == old(reader).text(),
        0 <= old(reader).cursor() <= final(reader).cursor() <= final(reader).text().len(),
        colon_ok(old(reader).text(), old(reader).cursor()) && !known_keyword(keyword_slice(old(reader).text(), old(reader).cursor())) ==> (r matches Err(e) && e.recoverable && e.kind == ParseErrorKind::InvalidOption && e.pos == pos_at(old(reader).text(), keyword_start(old(reader).text(), old(reader).cursor()))),
        !colon_ok(old(reader).text(), old(reader).cursor()) ==> (r matches Err(e) && e.recoverable),
        r matches Err(e) && e.recoverable ==> (!known_keyword(keyword_slice(old(reader).text(), old(reader).cursor())) || !colon_ok(old(reader).text(), old(reader).cursor())),
        known_keyword(keyword_slice(old(reader).text(), old(reader).cursor())) && colon_ok(old(reader).text(), old(reader).cursor()) && !value_accept(keyword_slice(old(reader).text(), old(reader).cursor()), old(reader).text(), value_start(old(reader).text(), old(reader).cursor())) ==> (r matches Err(e) && !e.recoverable),
        r matches Ok(opt) ==> (known_keyword(keyword_slice(old(reader).text(), old(reader).cursor())) && colon_ok(old(reader).text(), old(reader).cursor()) && option_keyword(opt.kind) == keyword_slice(old(reader).text(), old(reader).cursor()) && lts_text(opt.line_terminators@) == old(reader).text().subrange(old(reader).cursor(), skip_lts(old(reader).text(), old(reader).cursor())) && opt.space0.value@ == old(reader).text().subrange(skip_lts(old(reader).text(), old(reader).cursor()), keyword_start(old(reader).text(), old(reader).cursor())) && opt.space1.value@ == old(reader).text().subrange(keyword_end(old(reader).text(), old(reader).cursor()), colon_pos(old(reader).text(), old(reader).cursor())) && opt.space2.value@ == old(reader).text().subrange(colon_pos(old(reader).text(), old(reader).cursor()) + 1, value_start(old(reader).text(), old(reader).cursor()))),
        r matches Ok(opt) ==> (entry_text(opt) == old(reader).text().subrange(old(reader).cursor(), final(reader).cursor()) || (kind_has_zero_int(opt.kind) && entry_text_minus_zero(opt) == old(reader).text().subrange(old(reader).cursor(), final(reader).cursor()))),
        known_keyword(keyword_slice(old(reader).text(), old(reader).cursor())) && colon_ok(old(reader).text(), old(reader).cursor()) && value_accept(keyword_slice(old(reader).text(), old(reader).cursor()), old(reader).text(), value_start(old(reader).text(), old(reader).cursor())) && lt_end(old(reader).text(), value_end_at(keyword_slice(old(reader).text(), old(reader).cursor()), old(reader).text(), value_start(old(reader).text(), old(reader).cursor()))) is Some ==> r is Ok,
        r matches Ok(opt) ==> (value_accept(keyword_slice(old(reader).text(), old(reader).cursor()), old(reader).text(), value_start(old(reader).text(), old(reader).cursor())) && (lt_end(old(reader).text(), value_end_at(keyword_slice(old(reader).text(), old(reader).cursor()), old(reader).text(), value_start(old(reader).text(), old(reader).cursor()))) matches Some(en) && final(reader).cursor() == en)),
        r matches Ok(opt) ==> kind_payload_ok(old(reader).text(), value_start(old(reader).text(), old(reader).cursor()), value_end_at(keyword_slice(old(reader).text(), old(reader).cursor()), old(reader).text(), value_start(old(reader).text(), old(reader).cursor())), opt.kind),
        r matches Ok(opt) ==> crate::primitives::lt_struct_ok(old(reader).text(), value_end_at(keyword_slice(old(reader).text(), old(reader).cursor()), old(reader).text(), value_start(old(reader).text(), old(reader).cursor())), opt.line_terminator0),
        r matches Ok(opt) ==> (opt.space0.source_info == (SourceInfo {
            start: pos_at(old(reader).text(), skip_lts(old(reader).text(), old(reader).cursor())),
            end: pos_at(old(reader).text(), keyword_start(old(reader).text(), old(reader).cursor())),
        }) && opt.space1.source_info == (SourceInfo {
            start: pos_at(old(reader).text(), keyword_end(old(reader).text(), old(reader).cursor())),
            end: pos_at(old(reader).text(), colon_pos(old(reader).text(), old(reader).cursor())),
        }) && opt.space2.source_info == (SourceInfo {
            start: pos_at(old(reader).text(), colon_pos(old(reader).text(), old(reader).cursor()) + 1),
            end: pos_at(old(reader).text(), value_start(old(reader).text(), old(reader).cursor())),
        })),
        r matches Ok(opt) ==> (skip_lts(old(reader).text(), old(reader).cursor()) == old(reader).cursor() ==> opt.line_terminators@.len() == 0),
{
    let ghost s = reader.text();
    let ghost i0 = reader.cursor();
    proof {
        crate::reader::lemma_wf(reader);
    }
    let line_terminators = optional_line_terminators(reader);
    let ghost a1 = reader.cursor();
    let space0 = zero_or_more_spaces(reader);
    let ghost a2 = reader.cursor();
    let start = reader.snapshot();
    let kw_vec = read_class(reader, CharClass::Keyword);
    let ghost a3 = reader.cursor();
    let space1 = zero_or_more_spaces(reader);
    let ghost a4 = reader.cursor();
    let colon_p = reader.current_pos();
    if !try_consume_char(reader, ':') {
        return Err(ParseError::expecting(":", colon_p, true));
    }
    let space2 = zero_or_more_spaces(reader);
    let ghost a6 = reader.cursor();
    let kind: OptionKind = if vec_eq_str(&kw_vec, "aws-sigv4") {
        let k = match option_aws_sigv4(reader) {
            Ok(k) => k,
            Err(e) => {
                return Err(e);
            },
        };
        proof {
            assert(option_keyword(k) == kw_vec@);
            assert(value_accept(kw_vec@, s, a6));
            assert(reader.cursor() == value_end_at(kw_vec@, s, a6));
            assert(kind_payload_ok(s, a6, reader.cursor(), k));
        }
        k
    } else if vec_eq_str(&kw_vec, "cacert") {
        let k = match option_cacert(reader) {
            Ok(k) => k,
            Err(e) => {
                return Err(e);
            },
        };
        proof {
            assert(option_keyword(k) == kw_vec@);
            assert(value_accept(kw_vec@, s, a6));
            assert(reader.cursor() == value_end_at(kw_vec@, s, a6));
            assert(kind_payload_ok(s, a6, reader.cursor(), k));
        }
        k
    } else if vec_eq_str(&kw_vec, "cert") {
        let k = match option_cert(reader) {
            Ok(k) => k,
            Err(e) => {
                return Err(e);
            },
        };
        proof {
            assert(option_keyword(k) == kw_vec@);
            assert(value_accept(kw_vec@, s, a6));
            assert(reader.cursor() == value_end_at(kw_vec@, s, a6));
            assert(kind_payload_ok(s, a6, reader.cursor(), k));
        }
        k
    } else if vec_eq_str(&kw_vec, "compressed") {
        let k = match option_compressed(reader) {
            Ok(k) => k,
            Err(e) => {
                return Err(e);
            },
        };
        proof {
            assert(option_keyword(k) == kw_vec@);
            assert(value_accept(kw_vec@, s, a6));
            assert(reader.cursor() == value_end_at(kw_vec@, s, a6));
            assert(kind_payload_ok(s, a6, reader.cursor(), k));
        }
        k
    } else if vec_eq_str(&kw_vec, "connect-to") {
        let k = match option_connect_to(reader) {
            Ok(k) => k,
            Err(e) => {
                return Err(e);
            },
        };
        proof {
            assert(option_keyword(k) == kw_vec@);
            assert(value_accept(kw_vec@, s, a6));
            assert(reader.cursor() == value_end_at(kw_vec@, s, a6));
            assert(kind_payload_ok(s, a6, reader.cursor(), k));
        }
        k
    } else if vec_eq_str(&kw_vec, "delay") {
        let k = match option_delay(reader) {
            Ok(k) => k,
            Err(e) => {
                return Err(e);
            },
        };
        proof {
            assert(option_keyword(k) == kw_vec@);
            assert(value_accept(kw_vec@, s, a6));
            assert(reader.cursor() == value_end_at(kw_vec@, s, a6));
            assert(kind_payload_ok(s, a6, reader.cursor(), k));
        }
        k
    } else if vec_eq_str(&kw_vec, "insecure") {
        let k = match option_insecure(reader) {
            Ok(k) => k,
            Err(e) => {
                return Err(e);
            },
        };
        proof {
            assert(option_keyword(k) == kw_vec@);
            assert(value_accept(kw_vec@, s, a6));
            assert(reader.cursor() == value_end_at(kw_vec@, s, a6));
            assert(kind_payload_ok(s, a6, reader.cursor(), k));
        }
        k
    } else if vec_eq_str(&kw_vec, "http1.0") {
        let k = match option_http_10(reader) {
            Ok(k) => k,
            Err(e) => {
                return Err(e);
            },
        };
        proof {
            assert(option_keyword(k) == kw_vec@);
            assert(value_accept(kw_vec@, s, a6));
            assert(reader.cursor() == value_end_at(kw_vec@, s, a6));
            assert(kind_payload_ok(s, a6, reader.cursor(), k));
        }
        k
    } else if vec_eq_str(&kw_vec, "http1.1") {
        let k = match option_http_11(reader) {
            Ok(k) => k,
            Err(e) => {
                return Err(e);
            },
        };
        proof {
            assert(option_keyword(k) == kw_vec@);
            assert(value_accept(kw_vec@, s, a6));
            assert(reader.cursor() == value_end_at(kw_vec@, s, a6));
            assert(kind_payload_ok(s, a6, reader.cursor(), k));
        }
        k
    } else if vec_eq_str(&kw_vec, "http2") {
        let k = match option_http_2(reader) {
            Ok(k) => k,
            Err(e) => {
                return Err(e);
            },
        };
        proof {
            assert(option_keyword(k) == kw_vec@);
            assert(value_accept(kw_vec@, s, a6));
            assert(reader.cursor() == value_end_at(kw_vec@, s, a6));
            assert(kind_payload_ok(s, a6, reader.cursor(), k));
        }
        k
    } else if vec_eq_str(&kw_vec, "http3") {
        let k = match option_http_3(reader) {
            Ok(k) => k,
            Err(e) => {
                return Err(e);
            },
        };
        proof {
            assert(option_keyword(k) == kw_vec@);
            assert(value_accept(kw_vec@, s, a6));
            assert(reader.cursor() == value_end_at(kw_vec@, s, a6));
            assert(kind_payload_ok(s, a6, reader.cursor(), k));
        }
        k
    } else if vec_eq_str(&kw_vec, "ipv4") {
        let k = match option_ipv4(reader) {
            Ok(k) => k,
            Err(e) => {
                return Err(e);
            },
        };
        proof {
            assert(option_keyword(k) == kw_vec@);
            assert(value_accept(kw_vec@, s, a6));
            assert(reader.cursor() == value_end_at(kw_vec@, s, a6));
            assert(kind_payload_ok(s, a6, reader.cursor(), k));
        }
        k
    } else if vec_eq_str(&kw_vec, "ipv6") {
        let k = match option_ipv6(reader) {
            Ok(k) => k,
            Err(e) => {
                return Err(e);
            },
        };
        proof {
            assert(option_keyword(k) == kw_vec@);
            assert(value_accept(kw_vec@, s, a6));
            assert(reader.cursor() == value_end_at(kw_vec@, s, a6));
            assert(kind_payload_ok(s, a6, reader.cursor(), k));
        }
        k
    } else if vec_eq_str(&kw_vec, "key") {
        let k = match option_key(reader) {
            Ok(k) => k,
            Err(e) => {
                return Err(e);
            },
        };
        proof {
            assert(option_keyword(k) == kw_vec@);
            assert(value_accept(kw_vec@, s, a6));
            assert(reader.cursor() == value_end_at(kw_vec@, s, a6));
            assert(kind_payload_ok(s, a6, reader.cursor(), k));
        }
        k
    } else if vec_eq_str(&kw_vec, "location") {
        let k = match option_follow_location(reader) {
            Ok(k) => k,
            Err(e) => {
                return Err(e);
            },
        };
        proof {
            assert(option_keyword(k) == kw_vec@);
            assert(value_accept(kw_vec@, s, a6));
            assert(reader.cursor() == value_end_at(kw_vec@, s, a6));
            assert(kind_payload_ok(s, a6, reader.cursor(), k));
        }
        k
    } else if vec_eq_str(&kw_vec, "max-redirs") {
        let k = match option_max_redirect(reader) {
            Ok(k) => k,
            Err(e) => {
                return Err(e);
            },
        };
        proof {
            assert(option_keyword(k) == kw_vec@);
            assert(value_accept(kw_vec@, s, a6));
            assert(reader.cursor() == value_end_at(kw_vec@, s, a6));
            assert(kind_payload_ok(s, a6, reader.cursor(), k));
        }
        k
    } else if vec_eq_str(&kw_vec, "path-as-is") {
        let k = match option_path_as_is(reader) {
            Ok(k) => k,
            Err(e) => {
                return Err(e);
            },
        };
        proof {
            assert(option_keyword(k) == kw_vec@);
            assert(value_accept(kw_vec@, s, a6));
            assert(reader.cursor() == value_end_at(kw_vec@, s, a6));
            assert(kind_payload_ok(s, a6, reader.cursor(), k));
        }
        k
    } else if vec_eq_str(&kw_vec, "proxy") {
        let k = match option_proxy(reader) {
            Ok(k) => k,
            Err(e) => {
                return Err(e);
            },
        };
        proof {
            assert(option_keyword(k) == kw_vec@);
            assert(value_accept(kw_vec@, s, a6));
            assert(reader.cursor() == value_end_at(kw_vec@, s, a6));
            assert(kind_payload_ok(s, a6, reader.cursor(), k));
        }
        k
    } else if vec_eq_str(&kw_vec, "resolve") {
        let k = match option_resolve(reader) {
            Ok(k) => k,
            Err(e) => {
                return Err(e);
            },
        };
        proof {
            assert(option_keyword(k) == kw_vec@);
            assert(value_accept(kw_vec@, s, a6));
            assert(reader.cursor() == value_end_at(kw_vec@, s, a6));
            assert(kind_payload_ok(s, a6, reader.cursor(), k));
        }
        k
    } else if vec_eq_str(&kw_vec, "retry") {
        let k = match option_retry(reader) {
            Ok(k) => k,
            Err(e) => {
                return Err(e);
            },
        };
        proof {
            assert(option_keyword(k) == kw_vec@);
            assert(value_accept(kw_vec@, s, a6));
            assert(reader.cursor() == value_end_at(kw_vec@, s, a6));
            assert(kind_payload_ok(s, a6, reader.cursor(), k));
        }
        k
    } else if vec_eq_str(&kw_vec, "retry-interval") {
        let k = match option_retry_interval(reader) {
            Ok(k) => k,
            Err(e) => {
                return Err(e);
            },
        };
        proof {
            assert(option_keyword(k) == kw_vec@);
            assert(value_accept(kw_vec@, s, a6));
            assert(reader.cursor() == value_end_at(kw_vec@, s, a6));
            assert(kind_payload_ok(s, a6, reader.cursor(), k));
        }
        k
    } else if vec_eq_str(&kw_vec, "variable") {
        let k = match option_variable(reader) {
            Ok(k) => k,
            Err(e) => {
                return Err(e);
            },
        };
        proof {
            assert(option_keyword(k) == kw_vec@);
            assert(value_accept(kw_vec@, s, a6));
            assert(reader.cursor() == value_end_at(kw_vec@, s, a6));
            assert(kind_payload_ok(s, a6, reader.cursor(), k));
        }
        k
    } else if vec_eq_str(&kw_vec, "verbose") {
        let k = match option_verbose(reader) {
            Ok(k) => k,
            Err(e) => {
                return Err(e);
            },
        };
        proof {
            assert(option_keyword(k) == kw_vec@);
            assert(value_accept(kw_vec@, s, a6));
            assert(reader.cursor() == value_end_at(kw_vec@, s, a6));
            assert(kind_payload_ok(s, a6, reader.cursor(), k));
        }
        k
    } else if vec_eq_str(&kw_vec, "very-verbose") {
        let k = match option_very_verbose(reader) {
            Ok(k) => k,
            Err(e) => {
                return Err(e);
            },
        };
        proof {
            assert(option_keyword(k) == kw_vec@);
            assert(value_accept(kw_vec@, s, a6));
            assert(reader.cursor() == value_end_at(kw_vec@, s, a6));
            assert(kind_payload_ok(s, a6, reader.cursor(), k));
        }
        k
    } else {
        return Err(
            ParseError { pos: start.pos, recoverable: true, kind: ParseErrorKind::InvalidOption },
        );
    };
    let ghost a7 = reader.cursor();
    let line_terminator0 = match line_terminator(reader) {
        Ok(lt) => lt,
        Err(e) => {
            return Err(e);
        },
    };
    let ghost a8 = reader.cursor();
    let opt = EntryOption { line_terminators, space0, space1, space2, kind, line_terminator0 };
    proof {
        lemma_subrange_join(s, i0, a1, a2);
        lemma_subrange_join(s, i0, a2, a3);
        lemma_subrange_join(s, i0, a3, a4);
        lemma_subrange_join(s, i0, a4, a4 + 1);
        lemma_subrange_join(s, i0, a4 + 1, a6);
        lemma_subrange_join(s, i0, a6, a7);
        lemma_subrange_join(s, i0, a7, a8);
        assert(s.subrange(a4, a4 + 1) =~= seq![':']);
        if s.subrange(a6, a7) == kind_value_text(opt.kind) {
            assert(entry_text(opt) =~= s.subrange(i0, a8));
        } else {
            assert(kind_has_zero_int(opt.kind));
            assert(entry_text_minus_zero(opt) =~= s.subrange(i0, a8));
        }
    }
    Ok(opt)
}


// ---------------------------------------------------------------------------
// Laws of the dispatch table.
// ---------------------------------------------------------------------------

/// Which value grammar owns an option kind: a distinct number per variant.
pub open spec fn kind_family(k: OptionKind) -> int {
    match k {
        OptionKind::AwsSigV4(_) => 0,
        OptionKind::CaCertificate(_) => 1,
        OptionKind::ClientCert(_) => 2,
        OptionKind::ClientKey(_) => 3,
        OptionKind::Compressed(_) => 4,
        OptionKind::ConnectTo(_) => 5,
        OptionKind::Delay(_) => 6,
        OptionKind::FollowLocation(_) => 7,
        OptionKind::Http10(_) => 8,
        OptionKind::Http11(_) => 9,
        OptionKind::Http2(_) => 10,
        OptionKind::Http3(_) => 11,
        OptionKind::Insecure(_) => 12,
        OptionKind::IpV4(_) => 13,
        OptionKind::IpV6(_) => 14,
        OptionKind::MaxRedirect(_) => 15,
        OptionKind::PathAsIs(_) => 16,
        OptionKind::Proxy(_) => 17,
        OptionKind::Resolve(_) => 18,
        OptionKind::Retry(_) => 19,
        OptionKind::RetryInterval(_) => 20,
        OptionKind::Variable(_) => 21,
        OptionKind::Verbose(_) => 22,
        OptionKind::VeryVerbose(_) => 23,
    }
}

/// Keyword exhaustiveness: every supported keyword dispatches to exactly one
/// value grammar.  Two clause kinds that carry the same keyword belong to
/// the same family, because the twenty-four keywords are pairwise distinct.
#[verifier::rlimit(100)]
pub proof fn lemma_keyword_unique(a: OptionKind, b: OptionKind)
    requires
        option_keyword(a) == option_keyword(b),
    ensures
        kind_family(a) == kind_family(b),
{
    reveal_strlit("aws-sigv4");
    reveal_strlit("cacert");
    reveal_strlit("cert");
    reveal_strlit("key");
    reveal_strlit("compressed");
    reveal_strlit("connect-to");
    reveal_strlit("delay");
    reveal_strlit("location");
    reveal_strlit("http1.0");
    reveal_strlit("http1.1");
    reveal_strlit("http2");
    reveal_strlit("http3");
    reveal_strlit("insecure");
    reveal_strlit("ipv4");
    reveal_strlit("ipv6");
    reveal_strlit("max-redirs");
    reveal_strlit("path-as-is");
    reveal_strlit("proxy");
    reveal_strlit("resolve");
    reveal_strlit("retry");
    reveal_strlit("retry-interval");
    reveal_strlit("variable");
    reveal_strlit("verbose");
    reveal_strlit("very-verbose");
    assert(("aws-sigv4"@).len() == 9);
    assert(("cacert"@).len() == 6);
    assert(("cert"@).len() == 4);
    assert(("key"@).len() == 3);
    assert(("compressed"@).len() == 10);
    assert(("connect-to"@).len() == 10);
    assert(("delay"@).len() == 5);
    assert(("location"@).len() == 8);
    assert(("http1.0"@).len() == 7);
    assert(("http1.1"@).len() == 7);
    assert(("http2"@).len() == 5);
    assert(("http3"@).len() == 5);
    assert(("insecure"@).len() == 8);
    assert(("ipv4"@).len() == 4);
    assert(("ipv6"@).len() == 4);
    assert(("max-redirs"@).len() == 10);
    assert(("path-as-is"@).len() == 10);
    assert(("proxy"@).len() == 5);
    assert(("resolve"@).len() == 7);
    assert(("retry"@).len() == 5);
    assert(("retry-interval"@).len() == 14);
    assert(("variable"@).len() == 8);
    assert(("verbose"@).len() == 7);
    assert(("very-verbose"@).len() == 12);
    assert(("cert"@)[0] != ("ipv4"@)[0]);
    assert(("cert"@)[0] != ("ipv6"@)[0]);
    assert(("ipv4"@)[3] != ("ipv6"@)[3]);
    assert(("delay"@)[0] != ("http2"@)[0]);
    assert(("delay"@)[0] != ("http3"@)[0]);
    assert(("delay"@)[0] != ("proxy"@)[0]);
    assert(("delay"@)[0] != ("retry"@)[0]);
    assert(("http2"@)[4] != ("http3"@)[4]);
    assert(("http2"@)[0] != ("proxy"@)[0]);
    assert(("http2"@)[0] != ("retry"@)[0]);
    assert(("http3"@)[0] != ("proxy"@)[0]);
    assert(("http3"@)[0] != ("retry"@)[0]);
    assert(("proxy"@)[0] != ("retry"@)[0]);
    assert(("http1.0"@)[6] != ("http1.1"@)[6]);
    assert(("http1.0"@)[0] != ("resolve"@)[0]);
    assert(("http1.0"@)[0] != ("verbose"@)[0]);
    assert(("http1.1"@)[0] != ("resolve"@)[0]);
    assert(("http1.1"@)[0] != ("verbose"@)[0]);
    assert(("resolve"@)[0] != ("verbose"@)[0]);
    assert(("location"@)[0] != ("insecure"@)[0]);
    assert(("location"@)[0] != ("variable"@)[0]);
    assert(("insecure"@)[0] != ("variable"@)[0]);
    assert(("compressed"@)[2] != ("connect-to"@)[2]);
    assert(("compressed"@)[0] != ("max-redirs"@)[0]);
    assert(("compressed"@)[0] != ("path-as-is"@)[0]);
    assert(("connect-to"@)[0] != ("max-redirs"@)[0]);
    assert(("connect-to"@)[0] != ("path-as-is"@)[0]);
    assert(("max-redirs"@)[0] != ("path-as-is"@)[0]);
}

} // verus!
