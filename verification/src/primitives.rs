//! The primitive grammars shared by the value parsers: character-class runs,
//! exact literals, booleans, numbers, comments and line terminators.
//!
//! Every parser here states, over the source text and the cursor, exactly
//! when it succeeds, what it returns, and whether a failure is recoverable.

use vstd::prelude::*;

use crate::ast::Comment;
use crate::ast::Float;
use crate::ast::SourceInfo;
use crate::ast::Whitespace;
use crate::ast::canonical_digits;
use crate::ast::dec_digits;
use crate::ast::digit_val;
use crate::ast::digits_val;
use crate::ast::float_text;
use crate::ast::int_text;
use crate::ast::is_digit;
use crate::ast::lemma_dec_digits_inverse;
use crate::ast::lemma_digits_val_nonneg;
use crate::ast::lemma_digits_val_prefix_le;
use crate::error::ParseError;
use crate::error::ParseErrorKind;
use crate::error::ParseResult;
use crate::reader::Reader;
use crate::reader::pos_at;

verus! {

// ---------------------------------------------------------------------------
// Trusted bridges to the standard library.
// ---------------------------------------------------------------------------

/// What `char::is_alphanumeric` returns: a function of the character alone.
pub uninterp spec fn is_unicode_alphanumeric(c: char) -> bool;

/// Relies on `char::is_alphanumeric`: whether a character counts as Unicode
/// alphanumeric depends on the character alone.
pub assume_specification[ char::is_alphanumeric ](c: char) -> (r: bool)
    ensures
        r == is_unicode_alphanumeric(c),
;

/// Relies on `String::push`: appends the given character to the end of the
/// string.
pub assume_specification[ std::string::String::push ](s: &mut String, c: char)
    ensures
        final(s)@ == old(s)@.push(c),
;

/// Build a `String` from a captured run of characters.
pub fn string_of(v: &Vec<char>) -> (s: String)
    ensures
        s@ == v@,
{
    let mut s = String::new();
    let mut i: usize = 0;
    while i < v.len()
        invariant
            i <= v.len(),
            s@ == v@.subrange(0, i as int),
        decreases v.len() - i,
    {
        s.push(v[i]);
        proof {
            assert(s@ =~= v@.subrange(0, i + 1));
        }
        i += 1;
    }
    proof {
        assert(s@ =~= v@);
    }
    s
}

// ---------------------------------------------------------------------------
// Character classes and maximal runs.
// ---------------------------------------------------------------------------

/// The character classes the grammars consume maximal runs of.
#[derive(Debug, Clone, Copy, PartialEq, Eq, Structural)]
pub enum CharClass {
    /// Spacing inside a line: space or tab.
    Space,
    /// Option keyword characters: ASCII alphanumeric, `-` or `.`.
    Keyword,
    /// Decimal digits.
    Digit,
    /// `aws-sigv4` provider characters: alphanumeric, `:` or `-`.
    Provider,
    /// Proxy name characters: alphanumeric, `:`, `.`, `[` or `]`.
    ProxyName,
    /// `HOST:PORT` list characters: alphanumeric, `:` or `.`.
    HostPort,
    /// Variable name characters: alphanumeric, `_` or `-`.
    VarName,
    /// Filename characters: alphanumeric, `.`, `/`, `_` or `-`.
    FilenameChar,
    /// Comment body characters: anything but a line ending.
    CommentChar,
    /// Unquoted literal characters: anything but spacing, `#`, a line ending
    /// or a `{` (which may open an interpolation).
    UnquotedPlain,
    /// Quoted literal characters: anything but `"`, `\` or `{`.
    QuotedPlain,
}

/// A character that ends an unquoted template: spacing, a comment, or a line
/// ending.
pub open spec fn is_uq_terminator(c: char) -> bool {
    c == ' ' || c == '\t' || c == '\r' || c == '\n' || c == '#'
}

/// Is `c` an ASCII letter or digit?
pub open spec fn is_ascii_alphanumeric(c: char) -> bool {
    ||| ('a' <= c && c <= 'z')
    ||| ('A' <= c && c <= 'Z')
    ||| ('0' <= c && c <= '9')
}

/// Membership of a character in a class.
pub open spec fn in_class(k: CharClass, c: char) -> bool {
    match k {
        CharClass::Space => c == ' ' || c == '\t',
        CharClass::Keyword => is_ascii_alphanumeric(c) || c == '-' || c == '.',
        CharClass::Digit => is_digit(c),
        CharClass::Provider => is_unicode_alphanumeric(c) || c == ':' || c == '-',
        CharClass::ProxyName => is_unicode_alphanumeric(c) || c == ':' || c == '.' || c == '['
            || c == ']',
        CharClass::HostPort => is_unicode_alphanumeric(c) || c == ':' || c == '.',
        CharClass::VarName => is_unicode_alphanumeric(c) || c == '_' || c == '-',
        CharClass::FilenameChar => is_unicode_alphanumeric(c) || c == '.' || c == '/' || c == '_'
            || c == '-',
        CharClass::CommentChar => c != '\n' && c != '\r',
        CharClass::UnquotedPlain => !is_uq_terminator(c) && c != '{',
        CharClass::QuotedPlain => c != '"' && c != '\\' && c != '{',
    }
}

/// Decide membership of a character in a class.
pub fn char_in_class(k: CharClass, c: char) -> (r: bool)
    ensures
        r == in_class(k, c),
{
    match k {
        CharClass::Space => c == ' ' || c == '\t',
        CharClass::Keyword => ('a' <= c && c <= 'z') || ('A' <= c && c <= 'Z') || ('0' <= c && c
            <= '9') || c == '-' || c == '.',
        CharClass::Digit => '0' <= c && c <= '9',
        CharClass::Provider => c.is_alphanumeric() || c == ':' || c == '-',
        CharClass::ProxyName => c.is_alphanumeric() || c == ':' || c == '.' || c == '[' || c
            == ']',
        CharClass::HostPort => c.is_alphanumeric() || c == ':' || c == '.',
        CharClass::VarName => c.is_alphanumeric() || c == '_' || c == '-',
        CharClass::FilenameChar => c.is_alphanumeric() || c == '.' || c == '/' || c == '_' || c
            == '-',
        CharClass::CommentChar => c != '\n' && c != '\r',
        CharClass::UnquotedPlain => !(c == ' ' || c == '\t' || c == '\r' || c == '\n' || c == '#')
            && c != '{',
        CharClass::QuotedPlain => c != '"' && c != '\\' && c != '{',
    }
}

/// Where the maximal run of class-`k` characters starting at `i` ends.
pub open spec fn run_end(k: CharClass, s: Seq<char>, i: int) -> int
    decreases s.len() - i,
{
    if 0 <= i && i < s.len() && in_class(k, s[i]) {
        run_end(k, s, i + 1)
    } else {
        i
    }
}

/// The maximal run: every character before the end is in the class, and the
/// character at the end (if any) is not.
pub proof fn lemma_run_end_props(k: CharClass, s: Seq<char>, i: int)
    requires
        0 <= i <= s.len(),
    ensures
        i <= run_end(k, s, i) <= s.len(),
        forall|j: int| i <= j < run_end(k, s, i) ==> in_class(k, #[trigger] s[j]),
        run_end(k, s, i) < s.len() ==> !in_class(k, s[run_end(k, s, i)]),
    decreases s.len() - i,
{
    if i < s.len() && in_class(k, s[i]) {
        lemma_run_end_props(k, s, i + 1);
    }
}

/// Adjacent subranges concatenate to the enclosing subrange.
pub proof fn lemma_subrange_join(s: Seq<char>, a: int, b: int, c: int)
    requires
        0 <= a <= b <= c <= s.len(),
    ensures
        s.subrange(a, b) + s.subrange(b, c) == s.subrange(a, c),
{
    assert(s.subrange(a, b) + s.subrange(b, c) =~= s.subrange(a, c));
}

/// Consume the maximal run of class-`k` characters and return it.
pub fn read_class(reader: &mut Reader, k: CharClass) -> (r: Vec<char>)
    requires
        old(reader).wf(),
    ensures
        final(reader).wf(),
        final(reader).text() == old(reader).text(),
        old(reader).cursor() <= final(reader).cursor() <= final(reader).text().len(),
        final(reader).cursor() == run_end(k, old(reader).text(), old(reader).cursor()),
        r@ == old(reader).text().subrange(old(reader).cursor(), final(reader).cursor()),
        forall|j: int| 0 <= j < r@.len() ==> in_class(k, #[trigger] r@[j]),
{
    let ghost s = reader.text();
    let ghost i0 = reader.cursor();
    proof {
        crate::reader::lemma_wf(reader);
    }
    let mut out: Vec<char> = Vec::new();
    proof {
        assert(out@ =~= s.subrange(i0, i0));
    }
    loop
        invariant
            reader.wf(),
            reader.text() == s,
            s == old(reader).text(),
            i0 == old(reader).cursor(),
            0 <= i0 <= reader.cursor() <= s.len(),
            run_end(k, s, i0) == run_end(k, s, reader.cursor()),
            out@ == s.subrange(i0, reader.cursor()),
            forall|j: int| 0 <= j < out@.len() ==> in_class(k, #[trigger] out@[j]),
        ensures
            reader.cursor() == run_end(k, s, i0),
        decreases s.len() - reader.cursor(),
    {
        let c_opt = reader.peek();
        match c_opt {
            Some(c) => {
                if char_in_class(k, c) {
                    let _ = reader.read();
                    out.push(c);
                    proof {
                        assert(out@ =~= s.subrange(i0, reader.cursor()));
                    }
                } else {
                    break ;
                }
            },
            None => {
                break ;
            },
        }
    }
    out
}

/// Append a copy of `src` to `dst`.
pub fn push_all(dst: &mut Vec<char>, src: &Vec<char>)
    ensures
        final(dst)@ == old(dst)@ + src@,
{
    let mut i: usize = 0;
    while i < src.len()
        invariant
            i <= src.len(),
            dst@ == old(dst)@ + src@.subrange(0, i as int),
        decreases src.len() - i,
    {
        dst.push(src[i]);
        proof {
            assert(old(dst)@ + src@.subrange(0, i + 1) =~= (old(dst)@ + src@.subrange(
                0,
                i as int,
            )).push(src@[i as int]));
        }
        i += 1;
    }
    proof {
        assert(src@.subrange(0, src@.len() as int) =~= src@);
    }
}

// ---------------------------------------------------------------------------
// Exact literals.
// ---------------------------------------------------------------------------

/// `p` occurs in `s` starting at `i`.
pub open spec fn has_prefix(s: Seq<char>, i: int, p: Seq<char>) -> bool {
    &&& 0 <= i
    &&& i + p.len() <= s.len()
    &&& s.subrange(i, i + p.len() as int) == p
}

/// If the next character is `c`, consume it.
pub fn try_consume_char(reader: &mut Reader, c: char) -> (r: bool)
    requires
        old(reader).wf(),
    ensures
        final(reader).wf(),
        final(reader).text() == old(reader).text(),
        r == (old(reader).cursor() < old(reader).text().len() && old(reader).text()[old(reader).cursor()] == c),
        r ==> final(reader).cursor() == old(reader).cursor() + 1,
        !r ==> final(reader).cursor() == old(reader).cursor(),
    {
    let p = reader.peek();
    match p {
        Some(x) => {
            if x == c {
                let _ = reader.read();
                true
            } else {
                false
            }
        },
        None => false,
    }
}

/// Consume `s` exactly, or rewind; reports whether it matched.
fn match_literal(s: &str, reader: &mut Reader) -> (r: bool)
    requires
        old(reader).wf(),
    ensures
        final(reader).wf(),
        final(reader).text() == old(reader).text(),
        0 <= old(reader).cursor() <= final(reader).cursor() <= final(reader).text().len(),
        r == has_prefix(old(reader).text(), old(reader).cursor(), s@),
        r ==> final(reader).cursor() == old(reader).cursor() + s@.len(),
        !r ==> final(reader).cursor() == old(reader).cursor(),
{
    let ghost t = reader.text();
    let ghost c0 = reader.cursor();
    let save = reader.snapshot();
    let n = s.unicode_len();
    let mut i: usize = 0;
    loop
        invariant
            i <= n,
            n == s@.len(),
            reader.wf(),
            reader.text() == t,
            t == old(reader).text(),
            c0 == old(reader).cursor(),
            save.cursor as int == c0,
            crate::reader::state_wf(t, save),
            0 <= c0,
            c0 + i == reader.cursor() <= t.len(),
            forall|j: int| 0 <= j < i ==> t[c0 + j] == s@[j],
        decreases n - i,
    {
        if i == n {
            proof {
                assert(t.subrange(c0, c0 + n as int) =~= s@);
            }
            return true;
        }
        let x = reader.read();
        match x {
            Some(c) => {
                if c == s.get_char(i) {
                } else {
                    proof {
                        if has_prefix(t, c0, s@) {
                            assert(t.subrange(c0, c0 + n as int)[i as int] == t[c0 + i]);
                        }
                    }
                    reader.restore(save);
                    return false;
                }
            },
            None => {
                reader.restore(save);
                return false;
            },
        }
        i += 1;
    }
}

/// Match `s` exactly; failure is recoverable (an enclosing choice may try
/// another alternative) and consumes nothing.
pub fn try_literal(s: &str, reader: &mut Reader) -> (r: ParseResult<()>)
    requires
        old(reader).wf(),
    ensures
        final(reader).wf(),
        final(reader).text() == old(reader).text(),
        0 <= old(reader).cursor() <= final(reader).cursor() <= final(reader).text().len(),
        has_prefix(old(reader).text(), old(reader).cursor(), s@) ==> r is Ok && final(reader).cursor() == old(reader).cursor() + s@.len(),
        !has_prefix(old(reader).text(), old(reader).cursor(), s@) ==> (r matches Err(e)
            && e.recoverable && final(reader).cursor() == old(reader).cursor() && e.pos == pos_at(
            old(reader).text(),
            old(reader).cursor(),
        )),
{
    let pos = reader.current_pos();
    if match_literal(s, reader) {
        Ok(())
    } else {
        Err(ParseError::expecting(s, pos, true))
    }
}

/// Match `s` exactly; failure is fatal (the grammar has committed to this
/// production) and consumes nothing.
pub fn literal(s: &str, reader: &mut Reader) -> (r: ParseResult<()>)
    requires
        old(reader).wf(),
    ensures
        final(reader).wf(),
        final(reader).text() == old(reader).text(),
        0 <= old(reader).cursor() <= final(reader).cursor() <= final(reader).text().len(),
        has_prefix(old(reader).text(), old(reader).cursor(), s@) ==> r is Ok && final(reader).cursor() == old(reader).cursor() + s@.len(),
        !has_prefix(old(reader).text(), old(reader).cursor(), s@) ==> (r matches Err(e)
            && !e.recoverable && final(reader).cursor() == old(reader).cursor() && e.pos == pos_at(
            old(reader).text(),
            old(reader).cursor(),
        )),
{
    let pos = reader.current_pos();
    if match_literal(s, reader) {
        Ok(())
    } else {
        Err(ParseError::expecting(s, pos, false))
    }
}

// ---------------------------------------------------------------------------
// Spacing.
// ---------------------------------------------------------------------------

/// Consume zero or more spacing characters; never fails.
pub fn zero_or_more_spaces(reader: &mut Reader) -> (w: Whitespace)
    requires
        old(reader).wf(),
    ensures
        final(reader).wf(),
        final(reader).text() == old(reader).text(),
        old(reader).cursor() <= final(reader).cursor() <= final(reader).text().len(),
        final(reader).cursor() == run_end(CharClass::Space, old(reader).text(), old(reader).cursor()),
        w.value@ == old(reader).text().subrange(old(reader).cursor(), final(reader).cursor()),
        w.source_info == (SourceInfo {
            start: pos_at(old(reader).text(), old(reader).cursor()),
            end: pos_at(old(reader).text(), final(reader).cursor()),
        }),
{
    let start = reader.snapshot();
    let chars = read_class(reader, CharClass::Space);
    let value = string_of(&chars);
    let end = reader.snapshot();
    Whitespace { value, source_info: SourceInfo { start: start.pos, end: end.pos } }
}

// ---------------------------------------------------------------------------
// Booleans and null.
// ---------------------------------------------------------------------------

/// Parse a strict `true`/`false` literal; anything else fails recoverably.
pub fn boolean(reader: &mut Reader) -> (r: ParseResult<bool>)
    requires
        old(reader).wf(),
    ensures
        final(reader).wf(),
        final(reader).text() == old(reader).text(),
        0 <= old(reader).cursor() <= final(reader).cursor() <= final(reader).text().len(),
        has_prefix(old(reader).text(), old(reader).cursor(), "true"@) ==> r == Ok::<
            bool,
            ParseError,
        >(true) && final(reader).cursor() == old(reader).cursor() + "true"@.len(),
        !has_prefix(old(reader).text(), old(reader).cursor(), "true"@) && has_prefix(
            old(reader).text(),
            old(reader).cursor(),
            "false"@,
        ) ==> r == Ok::<bool, ParseError>(false) && final(reader).cursor() == old(reader).cursor()
            + "false"@.len(),
        !has_prefix(old(reader).text(), old(reader).cursor(), "true"@) && !has_prefix(
            old(reader).text(),
            old(reader).cursor(),
            "false"@,
        ) ==> (r matches Err(e) && e.recoverable && final(reader).cursor() == old(reader).cursor()
            && e.pos == pos_at(old(reader).text(), old(reader).cursor())),
        r matches Ok(b) ==> old(reader).text().subrange(
            old(reader).cursor(),
            final(reader).cursor(),
        ) == crate::ast::bool_text(b),
{
    match try_literal("true", reader) {
        Ok(_) => {
            return Ok(true);
        },
        Err(_) => {},
    }
    match try_literal("false", reader) {
        Ok(_) => {
            return Ok(false);
        },
        Err(_) => {},
    }
    let pos = reader.current_pos();
    Err(ParseError::expecting("true|false", pos, true))
}

/// Parse a strict `null` literal; anything else fails recoverably.
pub fn null(reader: &mut Reader) -> (r: ParseResult<()>)
    requires
        old(reader).wf(),
    ensures
        final(reader).wf(),
        final(reader).text() == old(reader).text(),
        0 <= old(reader).cursor() <= final(reader).cursor() <= final(reader).text().len(),
        has_prefix(old(reader).text(), old(reader).cursor(), "null"@) ==> r is Ok && final(reader).cursor() == old(reader).cursor() + "null"@.len(),
        !has_prefix(old(reader).text(), old(reader).cursor(), "null"@) ==> (r matches Err(e)
            && e.recoverable && final(reader).cursor() == old(reader).cursor()),
{
    try_literal("null", reader)
}

// ---------------------------------------------------------------------------
// Numbers.
// ---------------------------------------------------------------------------

/// Where the digit run starting at `i` ends.
pub open spec fn digit_run_end(s: Seq<char>, i: int) -> int {
    run_end(CharClass::Digit, s, i)
}

/// No digit at `i`: the natural-number grammar fails recoverably.
pub open spec fn natural_rec_fail_at(s: Seq<char>, i: int) -> bool {
    i >= s.len() || !is_digit(s[i])
}

/// A natural number is accepted at `i`: a nonempty digit run with no
/// superfluous leading zero, whose value fits in a `u64`.
pub open spec fn natural_ok_at(s: Seq<char>, i: int) -> bool {
    &&& 0 <= i < s.len()
    &&& is_digit(s[i])
    &&& !(s[i] == '0' && digit_run_end(s, i) > i + 1)
    &&& digits_val(s.subrange(i, digit_run_end(s, i))) <= u64::MAX
}

/// The value of the digit run starting at `i`.
pub open spec fn natural_value(s: Seq<char>, i: int) -> int {
    digits_val(s.subrange(i, digit_run_end(s, i)))
}

/// Parse an unsigned natural number: a maximal digit run, rejecting a
/// leading zero followed by more digits.  A value that does not fit in a
/// `u64` is a fatal error (the grammar has committed to a number here).
pub fn natural(reader: &mut Reader) -> (r: ParseResult<u64>)
    requires
        old(reader).wf(),
    ensures
        final(reader).wf(),
        final(reader).text() == old(reader).text(),
        0 <= old(reader).cursor() <= final(reader).cursor() <= final(reader).text().len(),
        natural_rec_fail_at(old(reader).text(), old(reader).cursor()) ==> (r matches Err(e)
            && e.recoverable && final(reader).cursor() == old(reader).cursor() && e.pos == pos_at(
            old(reader).text(),
            old(reader).cursor(),
        )),
        !natural_rec_fail_at(old(reader).text(), old(reader).cursor()) && !natural_ok_at(
            old(reader).text(),
            old(reader).cursor(),
        ) ==> (r matches Err(e) && !e.recoverable && e.pos == pos_at(
            old(reader).text(),
            old(reader).cursor(),
        ) && (e.kind matches ParseErrorKind::Expecting { value: v } && v@ == "natural"@)),
        natural_ok_at(old(reader).text(), old(reader).cursor()) ==> (r matches Ok(v) && v as int
            == natural_value(old(reader).text(), old(reader).cursor()) && final(reader).cursor()
            == digit_run_end(old(reader).text(), old(reader).cursor()) && old(reader).text().subrange(old(reader).cursor(), final(reader).cursor()) == dec_digits(v as int)),
        r is Ok ==> natural_ok_at(old(reader).text(), old(reader).cursor()),
{
    let ghost s = reader.text();
    let ghost i0 = reader.cursor();
    proof {
        crate::reader::lemma_wf(reader);
    }
    let start = reader.snapshot();
    let digits = read_class(reader, CharClass::Digit);
    proof {
        lemma_run_end_props(CharClass::Digit, s, i0);
    }
    if digits.len() == 0 {
        return Err(ParseError::expecting("natural", start.pos, true));
    }
    if digits[0] == '0' && digits.len() > 1 {
        return Err(ParseError::expecting("natural", start.pos, false));
    }
    let ghost run = s.subrange(i0, digit_run_end(s, i0));
    let mut v: u64 = 0;
    let mut i: usize = 0;
    while i < digits.len()
        invariant
            i <= digits.len(),
            reader.wf(),
            reader.text() == s,
            s == old(reader).text(),
            i0 == old(reader).cursor(),
            0 <= i0 <= reader.cursor() <= s.len(),
            start.pos == pos_at(s, i0),
            reader.cursor() == digit_run_end(s, i0),
            run == s.subrange(i0, digit_run_end(s, i0)),
            run.len() > 0,
            digits@ == run,
            forall|j: int| 0 <= j < run.len() ==> is_digit(#[trigger] run[j]),
            v as int == digits_val(run.subrange(0, i as int)),
            digits_val(run.subrange(0, i as int)) <= u64::MAX,
        decreases digits.len() - i,
    {
        let c = digits[i];
        let d: u64 = digit_value(c);
        proof {
            assert(run.subrange(0, i + 1).drop_last() =~= run.subrange(0, i as int));
            assert(run.subrange(0, i + 1).last() == run[i as int]);
        }
        if v > u64::MAX / 10 || (v == u64::MAX / 10 && d > u64::MAX % 10) {
            proof {
                lemma_digits_val_prefix_le(run, i + 1);
            }
            return Err(ParseError::expecting("natural", start.pos, false));
        }
        v = v * 10 + d;
        i += 1;
    }
    proof {
        assert(run.subrange(0, run.len() as int) =~= run);
        assert(canonical_digits(run));
        lemma_dec_digits_inverse(run);
    }
    Ok(v)
}

/// The numeric value of a digit character.
fn digit_value(c: char) -> (d: u64)
    requires
        is_digit(c),
    ensures
        d as int == digit_val(c),
        d < 10,
{
    if c == '0' {
        0
    } else if c == '1' {
        1
    } else if c == '2' {
        2
    } else if c == '3' {
        3
    } else if c == '4' {
        4
    } else if c == '5' {
        5
    } else if c == '6' {
        6
    } else if c == '7' {
        7
    } else if c == '8' {
        8
    } else {
        9
    }
}

/// Is there a `-` sign at `i`?
pub open spec fn int_neg_at(s: Seq<char>, i: int) -> bool {
    0 <= i < s.len() && s[i] == '-'
}

/// Where the digits of a signed integer start.
pub open spec fn int_digits_start(s: Seq<char>, i: int) -> int {
    if int_neg_at(s, i) {
        i + 1
    } else {
        i
    }
}

/// The signed-integer grammar fails recoverably at `i`: no digit after the
/// optional sign.
pub open spec fn integer_rec_fail_at(s: Seq<char>, i: int) -> bool {
    natural_rec_fail_at(s, int_digits_start(s, i))
}

/// A signed integer is accepted at `i` when its digits are accepted and the
/// signed value fits in an `i64`.
pub open spec fn integer_ok_at(s: Seq<char>, i: int) -> bool {
    &&& natural_ok_at(s, int_digits_start(s, i))
    &&& (int_neg_at(s, i) ==> natural_value(s, int_digits_start(s, i)) <= i64::MAX as int + 1)
    &&& (!int_neg_at(s, i) ==> natural_value(s, int_digits_start(s, i)) <= i64::MAX as int)
}

/// The signed value at `i`.
pub open spec fn integer_value(s: Seq<char>, i: int) -> int {
    if int_neg_at(s, i) {
        -natural_value(s, int_digits_start(s, i))
    } else {
        natural_value(s, int_digits_start(s, i))
    }
}

/// Where the integer's digit run ends.
pub open spec fn integer_end(s: Seq<char>, i: int) -> int {
    digit_run_end(s, int_digits_start(s, i))
}

/// Parse a signed integer: an optional `-` sign and a natural number.
/// A value outside the `i64` range is a fatal error.
pub fn integer(reader: &mut Reader) -> (r: ParseResult<i64>)
    requires
        old(reader).wf(),
    ensures
        final(reader).wf(),
        final(reader).text() == old(reader).text(),
        0 <= old(reader).cursor() <= final(reader).cursor() <= final(reader).text().len(),
        integer_rec_fail_at(old(reader).text(), old(reader).cursor()) ==> (r matches Err(e)
            && e.recoverable),
        !integer_rec_fail_at(old(reader).text(), old(reader).cursor()) && !integer_ok_at(
            old(reader).text(),
            old(reader).cursor(),
        ) ==> (r matches Err(e) && !e.recoverable),
        integer_ok_at(old(reader).text(), old(reader).cursor()) ==> (r matches Ok(v) && v as int
            == integer_value(old(reader).text(), old(reader).cursor()) && final(reader).cursor()
            == integer_end(old(reader).text(), old(reader).cursor()) && (old(reader).text().subrange(old(reader).cursor(), final(reader).cursor()) == int_text(v as int) || (v
            == 0i64 && int_neg_at(old(reader).text(), old(reader).cursor()) && old(reader).text().subrange(old(reader).cursor(), final(reader).cursor()) == seq!['-', '0']))),
        r is Ok ==> integer_ok_at(old(reader).text(), old(reader).cursor()),
{
    let ghost s = reader.text();
    let ghost i0 = reader.cursor();
    proof {
        crate::reader::lemma_wf(reader);
    }
    let neg = try_consume_char(reader, '-');
    match natural(reader) {
        Ok(nv) => {
            let ghost ds = int_digits_start(s, i0);
            let ghost e = digit_run_end(s, ds);
            proof {
                assert(natural_ok_at(s, ds));
                lemma_run_end_props(CharClass::Digit, s, ds);
                lemma_digits_val_nonneg(s.subrange(ds, e));
            }
            if neg {
                if nv > 9223372036854775808u64 {
                    let pos = reader.current_pos();
                    return Err(ParseError::expecting("integer", pos, false));
                }
                let v: i64 = if nv == 9223372036854775808u64 {
                    i64::MIN
                } else {
                    -(nv as i64)
                };
                proof {
                    if v != 0i64 {
                        assert(s.subrange(i0, e) =~= seq!['-'] + s.subrange(ds, e));
                        assert(s.subrange(i0, e) == int_text(v as int));
                    } else {
                        assert(s.subrange(ds, e) == dec_digits(0));
                        assert(dec_digits(0) =~= seq!['0']);
                        assert(s.subrange(i0, e) =~= seq!['-', '0']);
                    }
                }
                Ok(v)
            } else {
                if nv > 9223372036854775807u64 {
                    let pos = reader.current_pos();
                    return Err(ParseError::expecting("integer", pos, false));
                }
                Ok(nv as i64)
            }
        },
        Err(e) => Err(e),
    }
}

/// A float is accepted at `i`: an accepted natural after the optional sign,
/// a `.`, and a nonempty fraction digit run.
pub open spec fn float_ok_at(s: Seq<char>, i: int) -> bool {
    &&& natural_ok_at(s, int_digits_start(s, i))
    &&& integer_end(s, i) < s.len()
    &&& s[integer_end(s, i)] == '.'
    &&& digit_run_end(s, integer_end(s, i) + 1) > integer_end(s, i) + 1
}

/// Where the accepted float ends: after the fraction digits.
pub open spec fn float_end(s: Seq<char>, i: int) -> int {
    digit_run_end(s, integer_end(s, i) + 1)
}

/// Parse a decimal float literal: optional sign, whole part, `.`, and a
/// nonempty fraction kept verbatim.  A missing `.` (or no digits at all) is
/// recoverable, so an integer alternative can be tried next; an empty
/// fraction after the `.` is fatal.
pub fn float(reader: &mut Reader) -> (r: ParseResult<Float>)
    requires
        old(reader).wf(),
    ensures
        final(reader).wf(),
        final(reader).text() == old(reader).text(),
        0 <= old(reader).cursor() <= final(reader).cursor() <= final(reader).text().len(),
        integer_rec_fail_at(old(reader).text(), old(reader).cursor()) ==> (r matches Err(e)
            && e.recoverable),
        !integer_rec_fail_at(old(reader).text(), old(reader).cursor()) && !natural_ok_at(
            old(reader).text(),
            int_digits_start(old(reader).text(), old(reader).cursor()),
        ) ==> (r matches Err(e) && !e.recoverable),
        natural_ok_at(old(reader).text(), int_digits_start(old(reader).text(), old(reader).cursor()))
            && !(integer_end(old(reader).text(), old(reader).cursor()) < old(reader).text().len()
            && old(reader).text()[integer_end(old(reader).text(), old(reader).cursor())] == '.')
            ==> (r matches Err(e) && e.recoverable),
        natural_ok_at(old(reader).text(), int_digits_start(old(reader).text(), old(reader).cursor()))
            && integer_end(old(reader).text(), old(reader).cursor()) < old(reader).text().len()
            && old(reader).text()[integer_end(old(reader).text(), old(reader).cursor())] == '.'
            && !float_ok_at(old(reader).text(), old(reader).cursor()) ==> (r matches Err(e)
            && !e.recoverable),
        r is Ok ==> float_ok_at(old(reader).text(), old(reader).cursor()),
        float_ok_at(old(reader).text(), old(reader).cursor()) ==> (r matches Ok(f) && f.negative
            == int_neg_at(old(reader).text(), old(reader).cursor()) && f.whole as int
            == natural_value(old(reader).text(), int_digits_start(old(reader).text(), old(reader).cursor()))
            && f.fraction@ == old(reader).text().subrange(
            integer_end(old(reader).text(), old(reader).cursor()) + 1,
            float_end(old(reader).text(), old(reader).cursor()),
        ) && final(reader).cursor() == float_end(old(reader).text(), old(reader).cursor()) && old(reader).text().subrange(old(reader).cursor(), final(reader).cursor()) == float_text(f)),
{
    let ghost s = reader.text();
    let ghost i0 = reader.cursor();
    proof {
        crate::reader::lemma_wf(reader);
    }
    let neg = try_consume_char(reader, '-');
    let whole = match natural(reader) {
        Ok(nv) => nv,
        Err(e) => {
            return Err(e);
        },
    };
    let ghost ds = int_digits_start(s, i0);
    let ghost e = digit_run_end(s, ds);
    proof {
        assert(natural_ok_at(s, ds));
        lemma_run_end_props(CharClass::Digit, s, ds);
    }
    if !try_consume_char(reader, '.') {
        let pos = reader.current_pos();
        return Err(ParseError::expecting("float", pos, true));
    }
    let frac = read_class(reader, CharClass::Digit);
    if frac.len() == 0 {
        let pos = reader.current_pos();
        return Err(ParseError::expecting("number", pos, false));
    }
    let fraction = string_of(&frac);
    let f = Float { negative: neg, whole, fraction };
    proof {
        lemma_run_end_props(CharClass::Digit, s, e + 1);
        let fe = float_end(s, i0);
        assert(s.subrange(ds, e) == dec_digits(f.whole as int));
        if neg {
            assert(s.subrange(i0, fe) =~= seq!['-'] + s.subrange(ds, e) + seq!['.'] + s.subrange(
                e + 1,
                fe,
            ));
        } else {
            assert(s.subrange(i0, fe) =~= s.subrange(ds, e) + seq!['.'] + s.subrange(e + 1, fe));
        }
        assert(s.subrange(i0, fe) == float_text(f));
    }
    Ok(f)
}

// ---------------------------------------------------------------------------
// Comments and line terminators.
// ---------------------------------------------------------------------------

/// Parse a `#` comment up to (not including) the line ending.
pub fn comment(reader: &mut Reader) -> (r: ParseResult<Comment>)
    requires
        old(reader).wf(),
    ensures
        final(reader).wf(),
        final(reader).text() == old(reader).text(),
        old(reader).cursor() <= final(reader).cursor() <= final(reader).text().len(),
        old(reader).cursor() < old(reader).text().len() && old(reader).text()[old(reader).cursor()]
            == '#' ==> (r matches Ok(c) && c.value@ == old(reader).text().subrange(
            old(reader).cursor() + 1,
            run_end(CharClass::CommentChar, old(reader).text(), old(reader).cursor() + 1),
        ) && final(reader).cursor() == run_end(
            CharClass::CommentChar,
            old(reader).text(),
            old(reader).cursor() + 1,
        )),
        !(old(reader).cursor() < old(reader).text().len() && old(reader).text()[old(reader).cursor()] == '#') ==> (r matches Err(e) && e.recoverable && final(reader).cursor() == old(reader).cursor()),
{
    proof {
        crate::reader::lemma_wf(reader);
    }
    let pos = reader.current_pos();
    if !try_consume_char(reader, '#') {
        return Err(ParseError::expecting("comment", pos, true));
    }
    let body = read_class(reader, CharClass::CommentChar);
    let value = string_of(&body);
    Ok(Comment { value })
}

/// Where the line terminator starting at `i` ends: spacing, an optional
/// comment, then a newline or the end of input; `None` when something else
/// follows.
pub open spec fn lt_end(s: Seq<char>, i: int) -> Option<int> {
    let j = run_end(CharClass::Space, s, i);
    let k = if j < s.len() && s[j] == '#' {
        run_end(CharClass::CommentChar, s, j + 1)
    } else {
        j
    };
    if k == s.len() {
        Some(k)
    } else if s[k] == '\n' {
        Some(k + 1)
    } else if s[k] == '\r' && k + 1 < s.len() && s[k + 1] == '\n' {
        Some(k + 2)
    } else {
        None
    }
}

/// An accepted line terminator makes progress unless it stands at the end of
/// input.
pub proof fn lemma_lt_end_progress(s: Seq<char>, i: int)
    requires
        0 <= i < s.len(),
        lt_end(s, i) is Some,
    ensures
        i < lt_end(s, i)->Some_0 <= s.len(),
{
    lemma_run_end_props(CharClass::Space, s, i);
    let j = run_end(CharClass::Space, s, i);
    if j < s.len() && s[j] == '#' {
        lemma_run_end_props(CharClass::CommentChar, s, j + 1);
    }
}

/// Where the newline of a line terminator at `i` must stand: after the
/// spacing and the optional comment.
pub open spec fn lt_newline_pos(s: Seq<char>, i: int) -> int {
    let j = run_end(CharClass::Space, s, i);
    if j < s.len() && s[j] == '#' {
        run_end(CharClass::CommentChar, s, j + 1)
    } else {
        j
    }
}

/// The structure of an accepted line terminator at `i`: the spacing run
/// with its span, the comment exactly when a `#` follows the spacing, and
/// the newline text with its span (empty at end of input).
pub open spec fn lt_struct_ok(s: Seq<char>, i: int, lt: crate::ast::LineTerminator) -> bool {
    let j = run_end(CharClass::Space, s, i);
    let cp = j < s.len() && s[j] == '#';
    let k = if cp {
        run_end(CharClass::CommentChar, s, j + 1)
    } else {
        j
    };
    let e = if k == s.len() {
        k
    } else if s[k] == '\n' {
        k + 1
    } else {
        k + 2
    };
    &&& lt.space0.value@ == s.subrange(i, j)
    &&& lt.space0.source_info == (SourceInfo { start: pos_at(s, i), end: pos_at(s, j) })
    &&& (lt.comment is Some <==> cp)
    &&& (cp ==> lt.comment->Some_0.value@ == s.subrange(j + 1, k))
    &&& lt.newline.value@ == s.subrange(k, e)
    &&& lt.newline.source_info == (SourceInfo { start: pos_at(s, k), end: pos_at(s, e) })
}

/// Parse a line terminator: spacing, an optional comment, and the newline
/// (captured empty at end of input).  Anything else on the line is a fatal
/// error.
pub fn line_terminator(reader: &mut Reader) -> (r: ParseResult<crate::ast::LineTerminator>)
    requires
        old(reader).wf(),
    ensures
        final(reader).wf(),
        final(reader).text() == old(reader).text(),
        0 <= old(reader).cursor() <= final(reader).cursor() <= final(reader).text().len(),
        lt_end(old(reader).text(), old(reader).cursor()) matches Some(e) ==> (r matches Ok(lt)
            && final(reader).cursor() == e && crate::ast::lt_text(lt) == old(reader).text().subrange(old(reader).cursor(), e) && lt_struct_ok(
            old(reader).text(),
            old(reader).cursor(),
            lt,
        )),
        lt_end(old(reader).text(), old(reader).cursor()) is None ==> (r matches Err(e)
            && !e.recoverable && e.pos == pos_at(
            old(reader).text(),
            lt_newline_pos(old(reader).text(), old(reader).cursor()),
        ) && (e.kind matches ParseErrorKind::Expecting { value: v } && v@ == "line_terminator"@)),
{
    let ghost s = reader.text();
    let ghost i0 = reader.cursor();
    proof {
        crate::reader::lemma_wf(reader);
    }
    let space0 = zero_or_more_spaces(reader);
    let ghost j = reader.cursor();
    let save = reader.snapshot();
    let comment_opt = match comment(reader) {
        Ok(c) => Some(c),
        Err(_) => {
            reader.restore(save);
            None
        },
    };
    let ghost k = reader.cursor();
    let nl_start = reader.snapshot();
    if reader.is_eof() {
        let newline = Whitespace {
            value: String::new(),
            source_info: SourceInfo { start: nl_start.pos, end: nl_start.pos },
        };
        let lt = crate::ast::LineTerminator { space0, comment: comment_opt, newline };
        proof {
            lemma_subrange_join(s, i0, j, k);
            assert(s.subrange(k, k) =~= Seq::<char>::empty());
            assert(crate::ast::lt_text(lt) =~= s.subrange(i0, k));
        }
        return Ok(lt);
    }
    let save2 = reader.snapshot();
    if try_consume_char(reader, '\r') {
        if try_consume_char(reader, '\n') {
            let end = reader.snapshot();
            let mut chars: Vec<char> = Vec::new();
            chars.push('\r');
            chars.push('\n');
            let newline = Whitespace {
                value: string_of(&chars),
                source_info: SourceInfo { start: nl_start.pos, end: end.pos },
            };
            let lt = crate::ast::LineTerminator { space0, comment: comment_opt, newline };
            proof {
                lemma_subrange_join(s, i0, j, k);
                assert(newline.value@ =~= s.subrange(k, k + 2));
                if lt.comment is Some {
                    assert(s[j] == '#');
                    assert(crate::ast::comment_text(lt.comment->Some_0) =~= s.subrange(j, k));
                } else {
                    assert(j == k);
                }
                assert(crate::ast::lt_text(lt) =~= s.subrange(i0, k + 2));
            }
            return Ok(lt);
        }
        reader.restore(save2);
    }
    if try_consume_char(reader, '\n') {
        let end = reader.snapshot();
        let mut chars: Vec<char> = Vec::new();
        chars.push('\n');
        let newline = Whitespace {
            value: string_of(&chars),
            source_info: SourceInfo { start: nl_start.pos, end: end.pos },
        };
        let lt = crate::ast::LineTerminator { space0, comment: comment_opt, newline };
        proof {
            lemma_subrange_join(s, i0, j, k);
            assert(newline.value@ =~= s.subrange(k, k + 1));
            assert(crate::ast::lt_text(lt) =~= s.subrange(i0, k + 1));
        }
        return Ok(lt);
    }
    let pos = reader.current_pos();
    Err(ParseError::expecting("line_terminator", pos, false))
}

/// Where the run of leading line terminators (blank and comment lines)
/// before a clause ends.
pub open spec fn skip_lts(s: Seq<char>, i: int) -> int
    decreases s.len() - i,
{
    if 0 <= i < s.len() {
        match lt_end(s, i) {
            Some(e) => if i < e <= s.len() {
                skip_lts(s, e)
            } else {
                i
            },
            None => i,
        }
    } else {
        i
    }
}

/// Consume zero or more leading line terminators; never fails.
pub fn optional_line_terminators(reader: &mut Reader) -> (r: Vec<crate::ast::LineTerminator>)
    requires
        old(reader).wf(),
    ensures
        final(reader).wf(),
        final(reader).text() == old(reader).text(),
        old(reader).cursor() <= final(reader).cursor() <= final(reader).text().len(),
        final(reader).cursor() == skip_lts(old(reader).text(), old(reader).cursor()),
        crate::ast::lts_text(r@) == old(reader).text().subrange(
            old(reader).cursor(),
            final(reader).cursor(),
        ),
        final(reader).cursor() == old(reader).cursor() ==> r@.len() == 0,
{
    let ghost s = reader.text();
    let ghost i0 = reader.cursor();
    proof {
        crate::reader::lemma_wf(reader);
    }
    let mut out: Vec<crate::ast::LineTerminator> = Vec::new();
    proof {
        assert(crate::ast::lts_text(out@) =~= s.subrange(i0, i0));
    }
    loop
        invariant
            reader.wf(),
            reader.text() == s,
            s == old(reader).text(),
            i0 == old(reader).cursor(),
            0 <= i0 <= reader.cursor() <= s.len(),
            skip_lts(s, i0) == skip_lts(s, reader.cursor()),
            crate::ast::lts_text(out@) == s.subrange(i0, reader.cursor()),
            out@.len() > 0 ==> reader.cursor() > i0,
        ensures
            reader.cursor() == skip_lts(s, i0),
            out@.len() > 0 ==> reader.cursor() > i0,
        decreases s.len() - reader.cursor(),
    {
        if reader.is_eof() {
            break ;
        }
        let ghost cur = reader.cursor();
        let save = reader.snapshot();
        match line_terminator(reader) {
            Ok(lt) => {
                proof {
                    lemma_lt_end_progress(s, cur);
                    crate::ast::lemma_lts_text_push(out@, lt);
                    lemma_subrange_join(s, i0, cur, reader.cursor());
                }
                out.push(lt);
            },
            Err(_) => {
                reader.restore(save);
                break ;
            },
        }
    }
    out
}

} // verus!
