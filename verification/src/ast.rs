//! The syntax nodes produced by the clause parser, and the specification
//! functions giving the exact source text each node stands for.
//!
//! Every node is constructed once, during a single top-to-bottom parse pass,
//! and is immutable thereafter.  Trivia (spacing, comments, line endings) is
//! data, not noise: it is retained verbatim so that concatenating a node's
//! fields in order reproduces the original input slice.

use vstd::prelude::*;

use crate::reader::Pos;

verus! {

/// The span of a syntactic piece: start and end position.
#[derive(Debug, Clone, Copy, PartialEq, Eq, Structural)]
pub struct SourceInfo {
    pub start: Pos,
    pub end: Pos,
}

/// A run of spacing characters (possibly empty), kept verbatim.
#[derive(Debug, Clone, PartialEq, Eq)]
pub struct Whitespace {
    pub value: String,
    pub source_info: SourceInfo,
}

/// A `#` comment without its line ending; `value` is the text after the `#`.
#[derive(Debug, Clone, PartialEq, Eq)]
pub struct Comment {
    pub value: String,
}

/// Trailing spacing, an optional comment, and the newline itself (captured
/// empty at end of input).
#[derive(Debug, Clone, PartialEq, Eq)]
pub struct LineTerminator {
    pub space0: Whitespace,
    pub comment: Option<Comment>,
    pub newline: Whitespace,
}

/// A file path value, kept verbatim.
#[derive(Debug, Clone, PartialEq, Eq)]
pub struct Filename {
    pub value: String,
    pub source_info: SourceInfo,
}

/// A variable reference inside a template.
#[derive(Debug, Clone, PartialEq, Eq)]
pub struct Variable {
    pub name: String,
    pub source_info: SourceInfo,
}

/// An interpolated expression: `{{`, spacing, a variable, spacing, `}}`.
#[derive(Debug, Clone, PartialEq, Eq)]
pub struct Expr {
    pub space0: Whitespace,
    pub variable: Variable,
    pub space1: Whitespace,
}

/// One segment of a template: literal text (the decoded value together with
/// its exact source spelling) or an interpolated expression.
#[derive(Debug, Clone, PartialEq, Eq)]
pub enum TemplateElement {
    String { value: String, encoded: String },
    Expression(Expr),
}

/// An interpolatable string: an optional delimiter (absent for unquoted
/// strings, else the quote character), the ordered segments, and the span.
/// Equality is structural: segmentation matters for interpolation.
#[derive(Debug, Clone, PartialEq, Eq)]
pub struct Template {
    pub delimiter: Option<char>,
    pub elements: Vec<TemplateElement>,
    pub source_info: SourceInfo,
}

/// A decimal floating-point literal, kept as its exact parts: sign, whole
/// part, and the fraction digits verbatim.
#[derive(Debug, Clone, PartialEq, Eq)]
pub struct Float {
    pub negative: bool,
    pub whole: u64,
    pub fraction: String,
}

/// The value of a variable definition, chosen by ordered trial:
/// null, boolean, float, integer, then string template.
#[derive(Debug, Clone, PartialEq, Eq)]
pub enum VariableValue {
    Null,
    Bool(bool),
    Float(Float),
    Integer(i64),
    String(Template),
}

/// A variable definition: a name, the spacing around `=`, and a value.
#[derive(Debug, Clone, PartialEq, Eq)]
pub struct VariableDefinition {
    pub name: String,
    pub space0: Whitespace,
    pub space1: Whitespace,
    pub value: VariableValue,
}

/// The tri-state retry setting: infinite (`-1`), never (`0`), or a positive
/// finite count.  No other signed value is representable.
#[derive(Debug, Clone, PartialEq, Eq, Structural)]
pub enum Retry {
    Infinite,
    Never,
    Finite(usize),
}

/// The typed payload of a clause: one variant per supported option keyword,
/// each owning exactly the value its grammar produces.
#[derive(Debug, Clone, PartialEq, Eq)]
pub enum OptionKind {
    AwsSigV4(String),
    CaCertificate(Filename),
    ClientCert(Filename),
    ClientKey(Filename),
    Compressed(bool),
    ConnectTo(String),
    Delay(u64),
    FollowLocation(bool),
    Http10(bool),
    Http11(bool),
    Http2(bool),
    Http3(bool),
    Insecure(bool),
    IpV4(bool),
    IpV6(bool),
    MaxRedirect(usize),
    PathAsIs(bool),
    Proxy(String),
    Resolve(String),
    Retry(Retry),
    RetryInterval(u64),
    Variable(VariableDefinition),
    Verbose(bool),
    VeryVerbose(bool),
}

/// One parsed option clause with all its surrounding trivia: leading blank
/// or comment lines, spacing around the keyword and the `:`, the typed
/// value, and the trailing line terminator.
#[derive(Debug, Clone, PartialEq, Eq)]
pub struct EntryOption {
    pub line_terminators: Vec<LineTerminator>,
    pub space0: Whitespace,
    pub space1: Whitespace,
    pub space2: Whitespace,
    pub kind: OptionKind,
    pub line_terminator0: LineTerminator,
}

// ---------------------------------------------------------------------------
// Decimal digits: the canonical spelling of the numbers the grammars parse.
// ---------------------------------------------------------------------------

/// Is `c` a decimal digit?
pub open spec fn is_digit(c: char) -> bool {
    '0' <= c && c <= '9'
}

/// The numeric value of one digit character.
pub open spec fn digit_val(c: char) -> int {
    c as int - '0' as int
}

/// The digit character for a value in `0..10`.
pub open spec fn digit_char(d: int) -> char {
    if d == 0 {
        '0'
    } else if d == 1 {
        '1'
    } else if d == 2 {
        '2'
    } else if d == 3 {
        '3'
    } else if d == 4 {
        '4'
    } else if d == 5 {
        '5'
    } else if d == 6 {
        '6'
    } else if d == 7 {
        '7'
    } else if d == 8 {
        '8'
    } else {
        '9'
    }
}

/// The value of a digit string, most significant digit first.
pub open spec fn digits_val(s: Seq<char>) -> int
    decreases s.len(),
{
    if s.len() == 0 {
        0
    } else {
        digits_val(s.drop_last()) * 10 + digit_val(s.last())
    }
}

/// The canonical decimal spelling of a nonnegative number: no leading zero
/// except for `0` itself.
pub open spec fn dec_digits(n: int) -> Seq<char>
    decreases n,
{
    if n < 10 {
        seq![digit_char(n)]
    } else {
        dec_digits(n / 10) + seq![digit_char(n % 10)]
    }
}

/// The spelling of a signed number: a `-` sign for negative values.
pub open spec fn int_text(v: int) -> Seq<char> {
    if v < 0 {
        seq!['-'] + dec_digits(-v)
    } else {
        dec_digits(v)
    }
}

/// A nonempty all-digit string with no superfluous leading zero.
pub open spec fn canonical_digits(s: Seq<char>) -> bool {
    &&& s.len() > 0
    &&& forall|i: int| 0 <= i < s.len() ==> is_digit(#[trigger] s[i])
    &&& (s[0] != '0' || s.len() == 1)
}

pub proof fn lemma_digits_val_nonneg(s: Seq<char>)
    requires
        forall|i: int| 0 <= i < s.len() ==> is_digit(#[trigger] s[i]),
    ensures
        digits_val(s) >= 0,
    decreases s.len(),
{
    if s.len() > 0 {
        lemma_digits_val_nonneg(s.drop_last());
    }
}

pub proof fn lemma_digits_val_first_nonzero(s: Seq<char>)
    requires
        s.len() > 0,
        forall|i: int| 0 <= i < s.len() ==> is_digit(#[trigger] s[i]),
        s[0] != '0',
    ensures
        digits_val(s) >= 1,
    decreases s.len(),
{
    assert(is_digit(s[s.len() - 1]));
    assert(digit_val(s.last()) >= 0);
    if s.len() == 1 {
        assert(s.last() == s[0]);
        assert(digit_val(s[0]) >= 1);
        assert(digits_val(s.drop_last()) == 0);
        assert(digits_val(s) == digits_val(s.drop_last()) * 10 + digit_val(s.last()));
    } else {
        assert(s.drop_last()[0] == s[0]);
        lemma_digits_val_first_nonzero(s.drop_last());
    }
}

/// The canonical spelling is the inverse of the digit-string value: parsing
/// digits and reprinting the number reproduces the text.
pub proof fn lemma_dec_digits_inverse(s: Seq<char>)
    requires
        canonical_digits(s),
    ensures
        dec_digits(digits_val(s)) == s,
    decreases s.len(),
{
    if s.len() == 1 {
        assert(digits_val(s.drop_last()) == 0);
        assert(digits_val(s) == digit_val(s[0]));
        assert(0 <= digit_val(s[0]) < 10);
        assert(digit_char(digit_val(s[0])) == s[0]);
        assert(dec_digits(digits_val(s)) =~= s);
    } else {
        let b = s.drop_last();
        lemma_digits_val_first_nonzero(b);
        let v = digits_val(s);
        let bv = digits_val(b);
        assert(v == bv * 10 + digit_val(s.last()));
        assert(0 <= digit_val(s.last()) < 10);
        assert(v / 10 == bv && v % 10 == digit_val(s.last())) by (nonlinear_arith)
            requires
                v == bv * 10 + digit_val(s.last()),
                bv >= 1,
                0 <= digit_val(s.last()) < 10,
        ;
        lemma_dec_digits_inverse(b);
        assert(dec_digits(v) =~= s);
    }
}

/// Appending digits never shrinks the value.
pub proof fn lemma_digits_val_prefix_le(s: Seq<char>, i: int)
    requires
        forall|k: int| 0 <= k < s.len() ==> is_digit(#[trigger] s[k]),
        0 <= i <= s.len(),
    ensures
        digits_val(s.subrange(0, i)) <= digits_val(s),
    decreases s.len() - i,
{
    if i == s.len() {
        assert(s.subrange(0, i) =~= s);
    } else {
        let t = s.subrange(0, i + 1);
        assert(t.drop_last() =~= s.subrange(0, i));
        lemma_digits_val_nonneg(s.subrange(0, i));
        assert(digits_val(s.subrange(0, i)) <= digits_val(t));
        lemma_digits_val_prefix_le(s, i + 1);
    }
}

// ---------------------------------------------------------------------------
// The exact source text each node stands for.
// ---------------------------------------------------------------------------

/// Text of a whitespace node.
pub open spec fn ws_text(w: Whitespace) -> Seq<char> {
    w.value@
}

/// Text of a comment: the `#` and everything after it up to the line ending.
pub open spec fn comment_text(c: Comment) -> Seq<char> {
    seq!['#'] + c.value@
}

/// Text of a line terminator: spacing, optional comment, newline.
pub open spec fn lt_text(lt: LineTerminator) -> Seq<char> {
    lt.space0.value@ + (match lt.comment {
        Some(c) => comment_text(c),
        None => Seq::<char>::empty(),
    }) + lt.newline.value@
}

/// Text of a list of line terminators, in order.
pub open spec fn lts_text(v: Seq<LineTerminator>) -> Seq<char>
    decreases v.len(),
{
    if v.len() == 0 {
        Seq::<char>::empty()
    } else {
        lt_text(v[0]) + lts_text(v.drop_first())
    }
}

/// Appending a line terminator appends its text.
pub proof fn lemma_lts_text_push(v: Seq<LineTerminator>, lt: LineTerminator)
    ensures
        lts_text(v.push(lt)) == lts_text(v) + lt_text(lt),
    decreases v.len(),
{
    if v.len() == 0 {
        assert(v =~= v.push(lt).drop_first());
        assert(v.push(lt)[0] == lt);
        assert(lts_text(v.push(lt)) =~= lts_text(v) + lt_text(lt));
    } else {
        assert(v.push(lt).drop_first() =~= v.drop_first().push(lt));
        assert(v.push(lt)[0] == v[0]);
        lemma_lts_text_push(v.drop_first(), lt);
        assert(lts_text(v.push(lt)) =~= lts_text(v) + lt_text(lt));
    }
}

/// Text of an interpolated expression.
pub open spec fn expr_text(e: Expr) -> Seq<char> {
    seq!['{', '{'] + e.space0.value@ + e.variable.name@ + e.space1.value@ + seq!['}', '}']
}

/// Text of one template segment: the exact source spelling.
pub open spec fn element_text(e: TemplateElement) -> Seq<char> {
    match e {
        TemplateElement::String { value: _, encoded } => encoded@,
        TemplateElement::Expression(x) => expr_text(x),
    }
}

/// Text of a list of template segments, in order.
pub open spec fn elements_text(v: Seq<TemplateElement>) -> Seq<char>
    decreases v.len(),
{
    if v.len() == 0 {
        Seq::<char>::empty()
    } else {
        element_text(v[0]) + elements_text(v.drop_first())
    }
}

/// Appending a template segment appends its text.
pub proof fn lemma_elements_text_push(v: Seq<TemplateElement>, e: TemplateElement)
    ensures
        elements_text(v.push(e)) == elements_text(v) + element_text(e),
    decreases v.len(),
{
    if v.len() == 0 {
        assert(v =~= v.push(e).drop_first());
        assert(v.push(e)[0] == e);
        assert(elements_text(v.push(e)) =~= elements_text(v) + element_text(e));
    } else {
        assert(v.push(e).drop_first() =~= v.drop_first().push(e));
        assert(v.push(e)[0] == v[0]);
        lemma_elements_text_push(v.drop_first(), e);
        assert(elements_text(v.push(e)) =~= elements_text(v) + element_text(e));
    }
}

/// Text of a template, delimiters included.
pub open spec fn template_text(t: Template) -> Seq<char> {
    match t.delimiter {
        Some(d) => seq![d] + elements_text(t.elements@) + seq![d],
        None => elements_text(t.elements@),
    }
}

/// Text of a float literal.
pub open spec fn float_text(f: Float) -> Seq<char> {
    (if f.negative {
        seq!['-']
    } else {
        Seq::<char>::empty()
    }) + dec_digits(f.whole as int) + seq!['.'] + f.fraction@
}

/// Text of a boolean literal.
pub open spec fn bool_text(b: bool) -> Seq<char> {
    if b {
        "true"@
    } else {
        "false"@
    }
}

/// Text of a retry setting: the signed value it encodes.
pub open spec fn retry_text(r: Retry) -> Seq<char> {
    match r {
        Retry::Infinite => int_text(-1),
        Retry::Never => int_text(0),
        Retry::Finite(n) => int_text(n as int),
    }
}

/// Text of a variable value.
pub open spec fn variable_value_text(v: VariableValue) -> Seq<char> {
    match v {
        VariableValue::Null => "null"@,
        VariableValue::Bool(b) => bool_text(b),
        VariableValue::Float(f) => float_text(f),
        VariableValue::Integer(n) => int_text(n as int),
        VariableValue::String(t) => template_text(t),
    }
}

/// Text of a variable definition: name, spacing, `=`, spacing, value.
pub open spec fn variable_definition_text(d: VariableDefinition) -> Seq<char> {
    d.name@ + d.space0.value@ + seq!['='] + d.space1.value@ + variable_value_text(d.value)
}

/// The keyword that selects each option kind.
pub open spec fn option_keyword(k: OptionKind) -> Seq<char> {
    match k {
        OptionKind::AwsSigV4(_) => "aws-sigv4"@,
        OptionKind::CaCertificate(_) => "cacert"@,
        OptionKind::ClientCert(_) => "cert"@,
        OptionKind::ClientKey(_) => "key"@,
        OptionKind::Compressed(_) => "compressed"@,
        OptionKind::ConnectTo(_) => "connect-to"@,
        OptionKind::Delay(_) => "delay"@,
        OptionKind::FollowLocation(_) => "location"@,
        OptionKind::Http10(_) => "http1.0"@,
        OptionKind::Http11(_) => "http1.1"@,
        OptionKind::Http2(_) => "http2"@,
        OptionKind::Http3(_) => "http3"@,
        OptionKind::Insecure(_) => "insecure"@,
        OptionKind::IpV4(_) => "ipv4"@,
        OptionKind::IpV6(_) => "ipv6"@,
        OptionKind::MaxRedirect(_) => "max-redirs"@,
        OptionKind::PathAsIs(_) => "path-as-is"@,
        OptionKind::Proxy(_) => "proxy"@,
        OptionKind::Resolve(_) => "resolve"@,
        OptionKind::Retry(_) => "retry"@,
        OptionKind::RetryInterval(_) => "retry-interval"@,
        OptionKind::Variable(_) => "variable"@,
        OptionKind::Verbose(_) => "verbose"@,
        OptionKind::VeryVerbose(_) => "very-verbose"@,
    }
}

/// Is `s` one of the supported option keywords?
pub open spec fn known_keyword(s: Seq<char>) -> bool {
    ||| s == "aws-sigv4"@
    ||| s == "cacert"@
    ||| s == "cert"@
    ||| s == "key"@
    ||| s == "compressed"@
    ||| s == "connect-to"@
    ||| s == "delay"@
    ||| s == "location"@
    ||| s == "http1.0"@
    ||| s == "http1.1"@
    ||| s == "http2"@
    ||| s == "http3"@
    ||| s == "insecure"@
    ||| s == "ipv4"@
    ||| s == "ipv6"@
    ||| s == "max-redirs"@
    ||| s == "path-as-is"@
    ||| s == "proxy"@
    ||| s == "resolve"@
    ||| s == "retry"@
    ||| s == "retry-interval"@
    ||| s == "variable"@
    ||| s == "verbose"@
    ||| s == "very-verbose"@
}

/// Text of the value slot of a clause, as the grammars spell it.
pub open spec fn kind_value_text(k: OptionKind) -> Seq<char> {
    match k {
        OptionKind::AwsSigV4(s) => s@,
        OptionKind::CaCertificate(f) => f.value@,
        OptionKind::ClientCert(f) => f.value@,
        OptionKind::ClientKey(f) => f.value@,
        OptionKind::Compressed(b) => bool_text(b),
        OptionKind::ConnectTo(s) => s@,
        OptionKind::Delay(n) => dec_digits(n as int),
        OptionKind::FollowLocation(b) => bool_text(b),
        OptionKind::Http10(b) => bool_text(b),
        OptionKind::Http11(b) => bool_text(b),
        OptionKind::Http2(b) => bool_text(b),
        OptionKind::Http3(b) => bool_text(b),
        OptionKind::Insecure(b) => bool_text(b),
        OptionKind::IpV4(b) => bool_text(b),
        OptionKind::IpV6(b) => bool_text(b),
        OptionKind::MaxRedirect(n) => dec_digits(n as int),
        OptionKind::PathAsIs(b) => bool_text(b),
        OptionKind::Proxy(s) => s@,
        OptionKind::Resolve(s) => s@,
        OptionKind::Retry(r) => retry_text(r),
        OptionKind::RetryInterval(n) => dec_digits(n as int),
        OptionKind::Variable(d) => variable_definition_text(d),
        OptionKind::Verbose(b) => bool_text(b),
        OptionKind::VeryVerbose(b) => bool_text(b),
    }
}

/// The full text of a clause: concatenating the captured fields in order.
pub open spec fn entry_text(e: EntryOption) -> Seq<char> {
    lts_text(e.line_terminators@) + e.space0.value@ + option_keyword(e.kind) + e.space1.value@
        + seq![':'] + e.space2.value@ + kind_value_text(e.kind) + lt_text(e.line_terminator0)
}

/// Does the clause carry a zero integer in its value slot?  The source may
/// then have spelled that zero `-0`, which the node cannot record.
pub open spec fn kind_has_zero_int(k: OptionKind) -> bool {
    match k {
        OptionKind::Retry(r) => r == Retry::Never,
        OptionKind::Variable(d) => d.value == VariableValue::Integer(0i64),
        _ => false,
    }
}

/// The value-slot text with the zero integer spelled `-0`.
pub open spec fn kind_value_text_minus_zero(k: OptionKind) -> Seq<char> {
    match k {
        OptionKind::Retry(_) => seq!['-', '0'],
        OptionKind::Variable(d) => d.name@ + d.space0.value@ + seq!['='] + d.space1.value@
            + seq!['-', '0'],
        _ => kind_value_text(k),
    }
}

/// The full text of a clause whose zero integer was spelled `-0`.
pub open spec fn entry_text_minus_zero(e: EntryOption) -> Seq<char> {
    lts_text(e.line_terminators@) + e.space0.value@ + option_keyword(e.kind) + e.space1.value@
        + seq![':'] + e.space2.value@ + kind_value_text_minus_zero(e.kind) + lt_text(
        e.line_terminator0,
    )
}

} // verus!
