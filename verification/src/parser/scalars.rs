//! Scalar values: processing by style (quotes, escapes, block folding), recognising nulls,
//! booleans, integers and floats, and reading integers in any of their radixes.
use vstd::prelude::*;
use crate::emitter::exponent_start;
use crate::parser::fast_path::join_lines;
use crate::lexer::{Position, ScalarStyle, Token, TokenKind};
use crate::lexer::unicode::{EscapeError, UnicodeProcessor, read_hex_spec, escape_body_sq};
use crate::parser::ast::{Node, ScalarNode};
use crate::parser::grammar::context_types::ParseContext;
use crate::parser::grammar::grammar_impl::{Grammar, scalar_style_error};
use crate::parser::grammar::productions::{ParseError, ParseErrorKind};
use crate::debug_render::{token_kind_debug, token_kind_text};
use crate::parser::yaml_parser::{YamlParser, err_view};
use crate::text::{find_char, trim_spec, trim_start_spec, str_to_chars, push_char, push_str, push_chars, chars_to_string,
    str_trim, str_eq, slice_chars, lines_spec, split_lines, trim_chars, trim_start_chars, char_from_u32,
    is_scalar_value};

verus! {

/// Whether `char::is_numeric` holds of a character (general categories Nd, Nl, No).
pub uninterp spec fn numeric_char(c: char) -> bool;

/// `char::is_numeric`: whether a character is in one of Unicode's number categories; the
/// ASCII digits are.
#[verifier::external_body]
fn is_numeric(c: char) -> (b: bool)
    ensures
        b == numeric_char(c),
        '0' <= c <= '9' ==> b,
{
    c.is_numeric()
}

/// Every character is numeric.
pub open spec fn all_numeric(s: Seq<char>) -> bool {
    forall|i: int| 0 <= i < s.len() ==> numeric_char(#[trigger] s[i])
}

/// The null spellings.
pub open spec fn null_word(s: Seq<char>) -> bool {
    s == "null"@ || s == "Null"@ || s == "NULL"@ || s == "~"@
}

/// The boolean spellings: true/false, yes/no and on/off, each lower case, capitalised or
/// upper case.
pub open spec fn boolean_word(s: Seq<char>) -> bool {
    ||| s == "true"@ || s == "True"@ || s == "TRUE"@ || s == "false"@ || s == "False"@ || s == "FALSE"@
    ||| s == "yes"@ || s == "Yes"@ || s == "YES"@ || s == "no"@ || s == "No"@ || s == "NO"@
    ||| s == "on"@ || s == "On"@ || s == "ON"@ || s == "off"@ || s == "Off"@ || s == "OFF"@
}

/// `s` without one leading sign.
pub open spec fn unsigned(s: Seq<char>) -> Seq<char> {
    if s.len() > 0 && (s[0] == '+' || s[0] == '-') { s.drop_first() } else { s }
}

/// Whether `s` starts with the two characters `0` and `l`, or `0` and `u`.
pub open spec fn radix_prefix(s: Seq<char>, l: char, u: char) -> bool {
    s.len() >= 2 && s[0] == '0' && (s[1] == l || s[1] == u)
}

/// Every character is an ASCII hexadecimal digit.
pub open spec fn all_hex(s: Seq<char>) -> bool {
    forall|i: int| 0 <= i < s.len() ==> crate::lexer::unicode::is_hex_digit(#[trigger] s[i])
}

/// Every character is an ASCII decimal digit.
pub open spec fn all_digits(s: Seq<char>) -> bool {
    forall|i: int| 0 <= i < s.len() ==> '0' <= #[trigger] s[i] <= '9'
}

/// Every character is `0` or `1`.
pub open spec fn all_binary(s: Seq<char>) -> bool {
    forall|i: int| 0 <= i < s.len() ==> (#[trigger] s[i] == '0' || s[i] == '1')
}

/// Every character is an octal digit.
pub open spec fn all_octal(s: Seq<char>) -> bool {
    forall|i: int| 0 <= i < s.len() ==> '0' <= #[trigger] s[i] <= '7'
}

/// Integer text: an optional sign, then `0x` and hex digits, `0b` and binary digits, `0o`
/// and octal digits, or decimal digits `[0-9]+` only.
pub open spec fn integer_text(s: Seq<char>) -> bool {
    let b = unsigned(s);
    &&& s.len() > 0
    &&& b.len() > 0
    &&& if radix_prefix(b, 'x', 'X') {
        b.len() > 2 && all_hex(b.skip(2))
    } else if radix_prefix(b, 'b', 'B') {
        b.len() > 2 && all_binary(b.skip(2))
    } else if radix_prefix(b, 'o', 'O') {
        b.len() > 2 && all_octal(b.skip(2))
    } else {
        all_digits(b)
    }
}

/// An exponent: an optional sign and at least one numeric character.
pub open spec fn exponent_text(s: Seq<char>) -> bool {
    let b = unsigned(s);
    s.len() > 0 && b.len() > 0 && all_numeric(b)
}

/// The special float spellings.
pub open spec fn special_float(s: Seq<char>) -> bool {
    ||| s == ".inf"@ || s == ".Inf"@ || s == ".INF"@ || s == "+.inf"@ || s == "+.Inf"@ || s == "+.INF"@
    ||| s == "-.inf"@ || s == "-.Inf"@ || s == "-.INF"@
    ||| s == ".nan"@ || s == ".NaN"@ || s == ".NAN"@
}

/// Float text: a special spelling, or an optional sign and a number with a `.` or an
/// exponent: digits, a `.` and digits (not both empty), or digits before an exponent,
/// where digits are numeric characters.
pub open spec fn float_text(s: Seq<char>) -> bool {
    let b = unsigned(s);
    let d = find_char(b, '.');
    if s.len() == 0 {
        false
    } else if special_float(s) {
        true
    } else if b.len() == 0 || (d >= b.len() && exponent_start(b) >= b.len()) {
        false
    } else if d < b.len() {
        let before = b.take(d);
        let after = b.skip(d + 1);
        let e = exponent_start(after);
        if e < after.len() {
            all_numeric(before) && all_numeric(after.take(e)) && exponent_text(after.skip(e + 1))
        } else {
            all_numeric(before) && all_numeric(after) && (before.len() > 0 || after.len() > 0)
        }
    } else {
        let e = exponent_start(b);
        all_numeric(b.take(e)) && e > 0 && exponent_text(b.skip(e + 1))
    }
}

/// Scalar type classification
#[derive(Debug, Clone, Copy, PartialEq, Eq, Structural)]
pub enum ScalarType {
    Null,
    Boolean,
    Integer,
    Float,
    String,
}

/// The type a scalar's trimmed text reads as: null (also when empty), boolean, integer,
/// float, or else string.
pub open spec fn type_of(value: Seq<char>) -> ScalarType {
    let t = trim_spec(value);
    if t.len() == 0 || null_word(t) {
        ScalarType::Null
    } else if boolean_word(t) {
        ScalarType::Boolean
    } else if integer_text(t) {
        ScalarType::Integer
    } else if float_text(t) {
        ScalarType::Float
    } else {
        ScalarType::String
    }
}

/// A plain scalar's text: trimmed, and empty for a null.
pub open spec fn plain_value(value: Seq<char>) -> Seq<char> {
    let t = trim_spec(value);
    if t.len() == 0 || null_word(t) { Seq::empty() } else { t }
}

/// A single-quoted scalar's text: each `''` read left to right stands for one quote.
pub open spec fn unquote_single(s: Seq<char>) -> Seq<char>
    decreases s.len(),
{
    if s.len() == 0 {
        Seq::empty()
    } else if s.len() >= 2 && s[0] == '\'' && s[1] == '\'' {
        seq!['\''] + unquote_single(s.skip(2))
    } else {
        seq![s[0]] + unquote_single(s.skip(1))
    }
}

/// Scalar value parser with type inference
pub struct ScalarParser;

impl ScalarParser {
    /// Whether the text is a null spelling.
    pub fn is_null_value(value: &str) -> (b: bool)
        ensures
            b == null_word(value@),
    {
        str_eq(value, "null") || str_eq(value, "Null") || str_eq(value, "NULL") || str_eq(value, "~")
    }

    /// Whether the text is a boolean spelling.
    pub fn is_boolean_value(value: &str) -> (b: bool)
        ensures
            b == boolean_word(value@),
    {
        str_eq(value, "true") || str_eq(value, "True") || str_eq(value, "TRUE") || str_eq(value, "false")
            || str_eq(value, "False") || str_eq(value, "FALSE") || str_eq(value, "yes") || str_eq(value, "Yes")
            || str_eq(value, "YES") || str_eq(value, "no") || str_eq(value, "No") || str_eq(value, "NO")
            || str_eq(value, "on") || str_eq(value, "On") || str_eq(value, "ON") || str_eq(value, "off")
            || str_eq(value, "Off") || str_eq(value, "OFF")
    }

    /// Whether the text is an integer or a float.
    pub fn is_numeric_value(value: &str) -> (b: bool)
        ensures
            b == (integer_text(value@) || float_text(value@)),
    {
        Self::is_integer_value(value) || Self::is_float_value(value)
    }

    /// Whether the text is an integer (`integer_text`).
    pub fn is_integer_value(value: &str) -> (b: bool)
        ensures
            b == integer_text(value@),
    {
        let v = str_to_chars(value);
        if v.len() == 0 {
            return false;
        }
        let start: usize = if v[0] == '+' || v[0] == '-' { 1 } else { 0 };
        let b = slice_chars(v.as_slice(), start, v.len());
        proof {
            if start == 1 { assert(b@ =~= v@.drop_first()); } else { assert(b@ =~= v@); }
        }
        let n = b.len();
        if n == 0 {
            return false;
        }
        if n >= 2 && b[0] == '0' && (b[1] == 'x' || b[1] == 'X') {
            let rest = slice_chars(b.as_slice(), 2, n);
            proof { assert(rest@ =~= b@.skip(2)); }
            return rest.len() > 0 && all_hex_chars(rest.as_slice());
        }
        if n >= 2 && b[0] == '0' && (b[1] == 'b' || b[1] == 'B') {
            let rest = slice_chars(b.as_slice(), 2, n);
            proof { assert(rest@ =~= b@.skip(2)); }
            return rest.len() > 0 && all_binary_chars(rest.as_slice());
        }
        if n >= 2 && b[0] == '0' && (b[1] == 'o' || b[1] == 'O') {
            let rest = slice_chars(b.as_slice(), 2, n);
            proof { assert(rest@ =~= b@.skip(2)); }
            return rest.len() > 0 && all_octal_chars(rest.as_slice());
        }
        all_digit_chars(b.as_slice())
    }

    /// Whether the text is a float (`float_text`).
    pub fn is_float_value(value: &str) -> (b: bool)
        ensures
            b == float_text(value@),
    {
        let v = str_to_chars(value);
        if v.len() == 0 {
            return false;
        }
        if str_eq(value, ".inf") || str_eq(value, ".Inf") || str_eq(value, ".INF") || str_eq(value, "+.inf")
            || str_eq(value, "+.Inf") || str_eq(value, "+.INF") || str_eq(value, "-.inf") || str_eq(value, "-.Inf")
            || str_eq(value, "-.INF") || str_eq(value, ".nan") || str_eq(value, ".NaN") || str_eq(value, ".NAN")
        {
            return true;
        }
        let start: usize = if v[0] == '+' || v[0] == '-' { 1 } else { 0 };
        let b = slice_chars(v.as_slice(), start, v.len());
        proof {
            if start == 1 { assert(b@ =~= v@.drop_first()); } else { assert(b@ =~= v@); }
        }
        let n = b.len();
        if n == 0 {
            return false;
        }
        let d = crate::text::find_char_between(b.as_slice(), 0, n, '.');
        let e0 = exponent_index(b.as_slice());
        proof {
            assert(b@.subrange(0, n as int) =~= b@);
            crate::text::lemma_find_char(b@, '.');
        }
        if d >= n && e0 >= n {
            return false;
        }
        if d < n {
            let before = slice_chars(b.as_slice(), 0, d);
            let after = slice_chars(b.as_slice(), d + 1, n);
            proof {
                assert(before@ =~= b@.take(d as int));
                assert(after@ =~= b@.skip(d + 1));
            }
            let e = exponent_index(after.as_slice());
            if e < after.len() {
                let fraction = slice_chars(after.as_slice(), 0, e);
                let exponent = slice_chars(after.as_slice(), e + 1, after.len());
                proof {
                    assert(fraction@ =~= after@.take(e as int));
                    assert(exponent@ =~= after@.skip(e + 1));
                }
                all_numeric_chars(before.as_slice()) && all_numeric_chars(fraction.as_slice())
                    && is_valid_exponent(exponent.as_slice())
            } else {
                all_numeric_chars(before.as_slice()) && all_numeric_chars(after.as_slice())
                    && (before.len() > 0 || after.len() > 0)
            }
        } else {
            let mantissa = slice_chars(b.as_slice(), 0, e0);
            let exponent = slice_chars(b.as_slice(), e0 + 1, n);
            proof {
                assert(mantissa@ =~= b@.take(e0 as int));
                assert(exponent@ =~= b@.skip(e0 + 1));
            }
            all_numeric_chars(mantissa.as_slice()) && mantissa.len() > 0 && is_valid_exponent(exponent.as_slice())
        }
    }

    /// The type a scalar's text reads as (`type_of`).
    pub fn infer_type(value: &str) -> (t: ScalarType)
        ensures
            t == type_of(value@),
    {
        let trimmed = str_trim(value);
        let t = trimmed.as_str();
        if t.unicode_len() == 0 || Self::is_null_value(t) {
            return ScalarType::Null;
        }
        if Self::is_boolean_value(t) {
            return ScalarType::Boolean;
        }
        if Self::is_integer_value(t) {
            return ScalarType::Integer;
        }
        if Self::is_float_value(t) {
            return ScalarType::Float;
        }
        ScalarType::String
    }

    /// A plain scalar's text (`plain_value`).
    pub fn process_plain_scalar(value: String) -> (r: String)
        ensures
            r@ == plain_value(value@),
    {
        let trimmed = str_trim(value.as_str());
        if trimmed.as_str().unicode_len() == 0 || Self::is_null_value(trimmed.as_str()) {
            return String::new();
        }
        trimmed
    }

    /// A single-quoted scalar's text (`unquote_single`).
    pub fn process_single_quoted(value: String) -> (r: String)
        ensures
            r@ == unquote_single(value@),
    {
        let v = str_to_chars(value.as_str());
        let n = v.len();
        let mut out = String::new();
        let mut i: usize = 0;
        proof { assert(v@.skip(0) =~= v@); }
        while i < n
            invariant
                n == v@.len(),
                v@ == value@,
                i <= n,
                unquote_single(v@) == out@ + unquote_single(v@.skip(i as int)),
            decreases n - i,
        {
            let ghost rest = v@.skip(i as int);
            if i + 1 < n && v[i] == '\'' && v[i + 1] == '\'' {
                push_char(&mut out, '\'');
                proof { assert(rest.skip(2) =~= v@.skip(i + 2)); }
                i = i + 2;
            } else {
                push_char(&mut out, v[i]);
                proof { assert(rest.skip(1) =~= v@.skip(i + 1)); }
                i = i + 1;
            }
        }
        proof { assert(unquote_single(v@.skip(n as int)) =~= Seq::<char>::empty()); }
        assert(out@ =~= unquote_single(value@));
        out
    }
}

/// Writing text as a single-quoted scalar body (each quote doubled) and then reading the
/// body as a single-quoted scalar gives back the text.
pub proof fn lemma_single_quote_roundtrip(s: Seq<char>)
    ensures
        unquote_single(escape_body_sq(s)) == s,
    decreases s.len(),
{
    if s.len() > 0 {
        lemma_escape_sq_front(s);
        lemma_single_quote_roundtrip(s.drop_first());
        let t = escape_body_sq(s.drop_first());
        if s[0] == '\'' {
            let u = seq!['\'', '\''] + t;
            assert(u.skip(2) =~= t);
        } else {
            let u = seq![s[0]] + t;
            assert(u.skip(1) =~= t);
        }
        assert(seq![s[0]] + s.drop_first() =~= s);
    } else {
        assert(escape_body_sq(s) =~= Seq::<char>::empty());
        assert(s =~= Seq::<char>::empty());
    }
}

/// The single-quoted body starts with the first character's rendering.
proof fn lemma_escape_sq_front(s: Seq<char>)
    requires
        s.len() > 0,
    ensures
        escape_body_sq(s) == (if s[0] == '\'' { seq!['\'', '\''] } else { seq![s[0]] }) + escape_body_sq(s.drop_first()),
    decreases s.len(),
{
    let f = if s[0] == '\'' { seq!['\'', '\''] } else { seq![s[0]] };
    if s.len() == 1 {
        assert(s.drop_last() =~= Seq::<char>::empty());
        assert(s.drop_first() =~= Seq::<char>::empty());
        assert(f + Seq::<char>::empty() =~= f);
    } else {
        lemma_escape_sq_front(s.drop_last());
        assert(s.drop_last().drop_first() =~= s.drop_first().drop_last());
        assert(s.drop_first().last() == s.last());
        assert(s.drop_last()[0] == s[0]);
        let g = if s.last() == '\'' { seq!['\'', '\''] } else { seq![s.last()] };
        assert(f + escape_body_sq(s.drop_first().drop_last()) + g =~= f + (escape_body_sq(s.drop_first().drop_last()) + g));
    }
}

/// The index of the first `e` or `E`, or the length.
fn exponent_index(v: &[char]) -> (k: usize)
    ensures
        k == exponent_start(v@),
{
    let mut k: usize = 0;
    proof { assert(v@.skip(0) =~= v@); }
    while k < v.len() && v[k] != 'e' && v[k] != 'E'
        invariant
            k <= v@.len(),
            exponent_start(v@) == k + exponent_start(v@.skip(k as int)),
        decreases v@.len() - k,
    {
        proof { assert(v@.skip(k as int).drop_first() =~= v@.skip(k + 1)); }
        k = k + 1;
    }
    proof {
        if k < v@.len() {
            assert(v@.skip(k as int)[0] == v@[k as int]);
        }
    }
    k
}

/// Whether the text is an exponent (`exponent_text`).
fn is_valid_exponent(v: &[char]) -> (b: bool)
    ensures
        b == exponent_text(v@),
{
    let n = v.len();
    if n == 0 {
        return false;
    }
    let start: usize = if v[0] == '+' || v[0] == '-' { 1 } else { 0 };
    let b = slice_chars(v, start, n);
    proof {
        if start == 1 { assert(b@ =~= v@.drop_first()); } else { assert(b@ =~= v@); }
    }
    b.len() > 0 && all_numeric_chars(b.as_slice())
}

/// Whether every character is an ASCII decimal digit.
fn all_digit_chars(v: &[char]) -> (b: bool)
    ensures
        b == all_digits(v@),
{
    let mut i: usize = 0;
    while i < v.len()
        invariant
            i <= v@.len(),
            forall|j: int| 0 <= j < i ==> '0' <= #[trigger] v@[j] <= '9',
        decreases v@.len() - i,
    {
        if !('0' <= v[i] && v[i] <= '9') {
            return false;
        }
        i = i + 1;
    }
    true
}

/// Whether every character is numeric.
fn all_numeric_chars(v: &[char]) -> (b: bool)
    ensures
        b == all_numeric(v@),
{
    let mut i: usize = 0;
    while i < v.len()
        invariant
            i <= v@.len(),
            forall|j: int| 0 <= j < i ==> numeric_char(#[trigger] v@[j]),
        decreases v@.len() - i,
    {
        if !is_numeric(v[i]) {
            return false;
        }
        i = i + 1;
    }
    true
}

/// Whether every character is a hexadecimal digit.
fn all_hex_chars(v: &[char]) -> (b: bool)
    ensures
        b == all_hex(v@),
{
    let mut i: usize = 0;
    while i < v.len()
        invariant
            i <= v@.len(),
            forall|j: int| 0 <= j < i ==> crate::lexer::unicode::is_hex_digit(#[trigger] v@[j]),
        decreases v@.len() - i,
    {
        let c = v[i];
        if !(('0' <= c && c <= '9') || ('a' <= c && c <= 'f') || ('A' <= c && c <= 'F')) {
            return false;
        }
        i = i + 1;
    }
    true
}

/// Whether every character is `0` or `1`.
fn all_binary_chars(v: &[char]) -> (b: bool)
    ensures
        b == all_binary(v@),
{
    let mut i: usize = 0;
    while i < v.len()
        invariant
            i <= v@.len(),
            forall|j: int| 0 <= j < i ==> (#[trigger] v@[j] == '0' || v@[j] == '1'),
        decreases v@.len() - i,
    {
        if v[i] != '0' && v[i] != '1' {
            return false;
        }
        i = i + 1;
    }
    true
}

/// Whether every character is an octal digit.
fn all_octal_chars(v: &[char]) -> (b: bool)
    ensures
        b == all_octal(v@),
{
    let mut i: usize = 0;
    while i < v.len()
        invariant
            i <= v@.len(),
            forall|j: int| 0 <= j < i ==> '0' <= #[trigger] v@[j] <= '7',
        decreases v@.len() - i,
    {
        if v[i] < '0' || v[i] > '7' {
            return false;
        }
        i = i + 1;
    }
    true
}

/// The character a one-letter double-quoted escape stands for.
pub open spec fn dq_simple_escape(c: char) -> Option<char> {
    if c == '0' { Some('\0') }
    else if c == 'a' { Some('\x07') }
    else if c == 'b' { Some('\x08') }
    else if c == 't' || c == '\t' { Some('\t') }
    else if c == 'n' { Some('\n') }
    else if c == 'v' { Some('\x0B') }
    else if c == 'f' { Some('\x0C') }
    else if c == 'r' { Some('\r') }
    else if c == 'e' { Some('\x1B') }
    else if c == ' ' { Some(' ') }
    else if c == '"' { Some('"') }
    else if c == '/' { Some('/') }
    else if c == '\\' { Some('\\') }
    else if c == 'N' { Some('\u{85}') }
    else if c == '_' { Some('\u{A0}') }
    else if c == 'L' { Some('\u{2028}') }
    else if c == 'P' { Some('\u{2029}') }
    else { None }
}

/// The number of hex digits after `\x`, `\u` and `\U` (zero for other letters).
pub open spec fn hex_width(c: char) -> nat {
    if c == 'x' { 2 } else if c == 'u' { 4 } else if c == 'U' { 8 } else { 0 }
}

/// The outcome of processing, or of the rest of it: text or an error kind and message.
pub type Processed = Result<Seq<char>, (ParseErrorKind, Seq<char>)>;

/// `r` with `p` written before its text.
pub open spec fn with_prefix(p: Seq<char>, r: Processed) -> Processed {
    match r {
        Ok(t) => Ok(p + t),
        Err(e) => Err(e),
    }
}

/// A double-quoted scalar's text with its escapes processed, left to right: one-letter
/// escapes, `\x`, `\u` and `\U` with two, four and eight hex digits naming a Unicode
/// scalar value; any other escape, or a backslash at the end, is an error.
pub open spec fn unescape_double(s: Seq<char>) -> Processed
    decreases s.len(),
{
    if s.len() == 0 {
        Ok(Seq::empty())
    } else if s[0] != '\\' {
        with_prefix(seq![s[0]], unescape_double(s.skip(1)))
    } else if s.len() == 1 {
        Err((ParseErrorKind::UnexpectedEndOfInput, "unterminated escape sequence"@))
    } else if dq_simple_escape(s[1]) is Some {
        with_prefix(seq![dq_simple_escape(s[1])->0], unescape_double(s.skip(2)))
    } else if hex_width(s[1]) > 0 {
        let rest = s.skip(2);
        let w = hex_width(s[1]);
        match read_hex_spec(rest, w) {
            Err(EscapeError::InvalidHexDigit(c)) => Err((ParseErrorKind::UnexpectedToken,
                "invalid hex digit in escape sequence: "@ + seq![c])),
            Err(_) => Err((ParseErrorKind::UnexpectedEndOfInput, "incomplete hex escape sequence"@)),
            Ok(code) => if is_scalar_value(code as int) && w <= rest.len() {
                with_prefix(seq![code as char], unescape_double(rest.skip(w as int)))
            } else {
                Err((ParseErrorKind::UnexpectedToken, "invalid Unicode code point"@))
            },
        }
    } else {
        Err((ParseErrorKind::UnexpectedToken, "invalid escape sequence: \\"@ + seq![s[1]]))
    }
}

/// The width of a line's leading white space.
pub open spec fn indent_width(l: Seq<char>) -> int {
    l.len() - trim_start_spec(l).len()
}

/// The indentation of the first line that is not blank (zero when all are).
pub open spec fn base_indent(lines: Seq<Seq<char>>) -> int
    decreases lines.len(),
{
    if lines.len() == 0 {
        0
    } else if trim_spec(lines[0]).len() > 0 {
        indent_width(lines[0])
    } else {
        base_indent(lines.drop_first())
    }
}

/// A literal line: blank lines become empty, others lose the base indentation when they
/// have it.
pub open spec fn literal_line(l: Seq<char>, base: int) -> Seq<char> {
    if trim_spec(l).len() == 0 {
        Seq::empty()
    } else if indent_width(l) >= base {
        l.skip(base)
    } else {
        l
    }
}

/// A literal block scalar's text: its lines (as `str::lines` splits them) each taken as a
/// literal line, joined by line feeds.
pub open spec fn literal_value(s: Seq<char>) -> Seq<char> {
    let ls = lines_spec(s);
    let b = base_indent(ls);
    join_lines(Seq::new(ls.len(), |i: int| literal_line(ls[i], b)))
}

/// Folding lines from `i` on, after the text `res`, inside a paragraph or not: a blank line
/// ends the paragraph and adds a line feed; a line more indented than the base is kept as
/// it is on a line of its own; other lines are trimmed and joined by spaces.
pub open spec fn folded_from(lines: Seq<Seq<char>>, i: int, base: int, res: Seq<char>, inp: bool) -> Seq<char>
    decreases lines.len() - i,
{
    if i < 0 || i >= lines.len() {
        res
    } else {
        let line = lines[i];
        if trim_spec(line).len() == 0 {
            folded_from(lines, i + 1, base, (if inp { res.push('\n') } else { res }).push('\n'), false)
        } else {
            let pl = if indent_width(line) >= base { line.skip(base) } else { line };
            if indent_width(pl) > 0 {
                folded_from(lines, i + 1, base,
                    (if inp { res.push('\n') } else { res }) + pl + (if i < lines.len() - 1 { seq!['\n'] } else { Seq::empty() }),
                    false)
            } else {
                folded_from(lines, i + 1, base, (if inp { res.push(' ') } else { res }) + trim_spec(pl), true)
            }
        }
    }
}

/// `s` without its trailing line feeds.
pub open spec fn strip_newlines(s: Seq<char>) -> Seq<char>
    decreases s.len(),
{
    if s.len() > 0 && s.last() == '\n' { strip_newlines(s.drop_last()) } else { s }
}

/// A folded block scalar's text: its lines folded, without trailing line feeds.
pub open spec fn folded_value(s: Seq<char>) -> Seq<char> {
    let ls = lines_spec(s);
    strip_newlines(folded_from(ls, 0, base_indent(ls), Seq::empty(), false))
}

/// What a scalar's text becomes under its style.
pub open spec fn processed_value(value: Seq<char>, style: ScalarStyle) -> Processed {
    match style {
        ScalarStyle::Plain => Ok(plain_value(value)),
        ScalarStyle::SingleQuoted => Ok(unquote_single(value)),
        ScalarStyle::DoubleQuoted => unescape_double(value),
        ScalarStyle::Literal => Ok(literal_value(value)),
        ScalarStyle::Folded => Ok(folded_value(value)),
    }
}

/// The value of a digit in radix `r` (`char::to_digit`).
pub open spec fn radix_digit(c: char, r: nat) -> Option<nat> {
    let d: int = if '0' <= c <= '9' {
        c as int - '0' as int
    } else if 'a' <= c <= 'z' {
        c as int - 'a' as int + 10
    } else if 'A' <= c <= 'Z' {
        c as int - 'A' as int + 10
    } else {
        r as int
    };
    if d < r { Some(d as nat) } else { None }
}

/// Every character is a digit in radix `r`.
pub open spec fn all_radix(s: Seq<char>, r: nat) -> bool {
    forall|i: int| 0 <= i < s.len() ==> (#[trigger] radix_digit(s[i], r)) is Some
}

/// The value of a run of digits in radix `r`, most significant first.
pub open spec fn radix_value(s: Seq<char>, r: nat) -> nat
    decreases s.len(),
{
    if s.len() == 0 {
        0
    } else {
        radix_value(s.drop_last(), r) * r + match radix_digit(s.last(), r) { Some(d) => d, None => 0 }
    }
}

/// What `i64::from_str_radix` reads: an optional sign (not alone) and digits of the radix
/// whose value fits.
pub open spec fn radix_reading(s: Seq<char>, r: nat) -> Option<i64> {
    let signed = s.len() > 0 && (s[0] == '+' || s[0] == '-');
    let digits = if signed { s.drop_first() } else { s };
    let v: int = if signed && s[0] == '-' { -(radix_value(digits, r) as int) } else { radix_value(digits, r) as int };
    if digits.len() > 0 && all_radix(digits, r) && i64::MIN <= v <= i64::MAX { Some(v as i64) } else { None }
}

/// `s` without one leading `-`, or else one leading `+`; and whether it was negative.
pub open spec fn integer_sign(s: Seq<char>) -> (bool, Seq<char>) {
    if s.len() > 0 && s[0] == '-' {
        (true, s.drop_first())
    } else if s.len() > 0 && s[0] == '+' {
        (false, s.drop_first())
    } else {
        (false, s)
    }
}

/// The magnitude part of an integer, read by its prefix: `0x` hexadecimal, `0b` binary,
/// `0o` octal, else decimal.
pub open spec fn magnitude_reading(rest: Seq<char>) -> Option<i64> {
    if radix_prefix(rest, 'x', 'X') {
        radix_reading(rest.skip(2), 16)
    } else if radix_prefix(rest, 'b', 'B') {
        radix_reading(rest.skip(2), 2)
    } else if radix_prefix(rest, 'o', 'O') {
        radix_reading(rest.skip(2), 8)
    } else {
        radix_reading(rest, 10)
    }
}

/// Whether reading an integer would negate the least `i64` (which has no negation).
pub open spec fn negates_min(s: Seq<char>) -> bool {
    let (neg, rest) = integer_sign(s);
    neg && magnitude_reading(rest) == Some(i64::MIN)
}

/// What an integer text reads as: an error for empty text or an unreadable magnitude,
/// else the magnitude with the sign applied.
pub open spec fn integer_value(s: Seq<char>) -> Result<i64, Seq<char>> {
    let (neg, rest) = integer_sign(s);
    if s.len() == 0 {
        Err("empty integer value"@)
    } else {
        match magnitude_reading(rest) {
            Some(n) => Ok(if neg { (-n) as i64 } else { n }),
            None => Err("invalid integer value: "@ + rest),
        }
    }
}

/// What reading a token as a scalar node gives: its style must suit the context, and its
/// text is processed by its style; any other token is an error.
pub open spec fn scalar_outcome(token: Token, context: ParseContext, r: Result<Node, ParseError>) -> bool {
    match token.kind {
        TokenKind::Scalar { value, style, tag } => match scalar_style_error(style, context, value@) {
            Some(m) => r matches Err(e) && e.kind == ParseErrorKind::UnexpectedToken
                && e.position == Position::start_spec() && e.message@ == m,
            None => match processed_value(value@, style) {
                Ok(t) => r matches Ok(Node::Scalar(n)) && n.value@ == t && n.style == style && n.tag == tag
                    && n.position == token.position,
                Err((k, m)) => r matches Err(e) && e.kind == k && e.position == Position::start_spec()
                    && e.message@ == m,
            },
        },
        _ => r matches Err(e) && e.kind == ParseErrorKind::UnexpectedToken && e.position == token.position
            && e.message@ == "expected scalar token, found: "@ + token_kind_debug(token.kind),
    }
}

impl ScalarParser {
    /// Take the next token and read it as a scalar (`scalar_outcome`); at the end of the
    /// input, an error.
    pub fn parse_with_context(parser: &mut YamlParser, context: &ParseContext) -> (r: Result<Node, ParseError>)
        ensures
            final(parser).depth() == old(parser).depth(),
            final(parser).depth_limit() == old(parser).depth_limit(),
            final(parser).end_position() == old(parser).end_position(),
            old(parser).upcoming().len() == 0 ==> final(parser).upcoming() == old(parser).upcoming()
                && (r matches Err(e) && err_view(e) == (ParseErrorKind::UnexpectedEndOfInput,
                    old(parser).end_position(), "expected scalar token"@)),
            old(parser).upcoming().len() > 0 ==> final(parser).upcoming() == old(parser).upcoming().drop_first()
                && scalar_outcome(old(parser).upcoming()[0], *context, r),
    {
        let token = match parser.consume_token() {
            Ok(t) => t,
            Err(_) => {
                return Err(ParseError::new(ParseErrorKind::UnexpectedEndOfInput, parser.current_position(),
                    "expected scalar token"));
            },
        };
        Self::parse_scalar(token, context)
    }

    /// Read a token that was already taken as a scalar (`scalar_outcome`); the parser is
    /// left as it is.
    pub fn parse_scalar_with_context(token: Token, parser: &mut YamlParser, context: &ParseContext)
        -> (r: Result<Node, ParseError>)
        ensures
            *final(parser) == *old(parser),
            scalar_outcome(token, *context, r),
    {
        Self::parse_scalar(token, context)
    }
}

impl ScalarParser {
    /// A scalar token as a scalar node: its style must suit the context, and its text is
    /// processed by its style; any other token is an error.
    pub fn parse_scalar(token: Token, context: &ParseContext) -> (r: Result<Node, ParseError>)
        ensures
            scalar_outcome(token, *context, r),
    {
        match token.kind {
            TokenKind::Scalar { value, style, tag } => {
                Grammar::validate_scalar_style(style, context, value.as_str())?;
                let parsed = Self::process_scalar_value(value, style)?;
                Ok(Node::Scalar(ScalarNode::new(parsed, style, tag, token.position)))
            },
            kind => {
                let mut msg = String::new();
                push_str(&mut msg, "expected scalar token, found: ");
                let t = token_kind_text(&kind);
                push_str(&mut msg, t.as_str());
                Err(ParseError { kind: ParseErrorKind::UnexpectedToken, position: token.position, message: msg })
            },
        }
    }

    /// A scalar's text processed by its style (`processed_value`).
    pub fn process_scalar_value(value: String, style: ScalarStyle) -> (r: Result<String, ParseError>)
        ensures
            match processed_value(value@, style) {
                Ok(t) => r matches Ok(v) && v@ == t,
                Err((k, m)) => r matches Err(e) && e.kind == k && e.position == Position::start_spec()
                    && e.message@ == m,
            },
    {
        match style {
            ScalarStyle::Plain => Ok(Self::process_plain_scalar(value)),
            ScalarStyle::SingleQuoted => Ok(Self::process_single_quoted(value)),
            ScalarStyle::DoubleQuoted => Self::process_double_quoted(value),
            ScalarStyle::Literal => Ok(Self::process_literal_scalar(value)),
            ScalarStyle::Folded => Ok(Self::process_folded_scalar(value)),
        }
    }

    /// A double-quoted scalar's text with escapes processed (`unescape_double`).
    pub fn process_double_quoted(value: String) -> (r: Result<String, ParseError>)
        ensures
            match unescape_double(value@) {
                Ok(t) => r matches Ok(v) && v@ == t,
                Err((k, m)) => r matches Err(e) && e.kind == k && e.position == Position::start_spec()
                    && e.message@ == m,
            },
    {
        let v = str_to_chars(value.as_str());
        let n = v.len();
        let mut out = String::new();
        let mut i: usize = 0;
        proof { assert(v@.skip(0) =~= v@); assert(Seq::<char>::empty() + v@ =~= v@); }
        while i < n
            invariant
                n == v@.len(),
                v@ == value@,
                i <= n,
                unescape_double(v@) == with_prefix(out@, unescape_double(v@.skip(i as int))),
            decreases n - i,
        {
            let ghost rest = v@.skip(i as int);
            let ghost o = out@;
            let ch = v[i];
            if ch != '\\' {
                push_char(&mut out, ch);
                proof {
                    assert(rest.skip(1) =~= v@.skip(i + 1));
                    lemma_with_prefix_assoc(o, seq![ch], unescape_double(rest.skip(1)));
                    assert(o + seq![ch] =~= out@);
                }
                i = i + 1;
                continue;
            }
            if i + 1 >= n {
                return Err(ParseError::new(ParseErrorKind::UnexpectedEndOfInput, Position::start(),
                    "unterminated escape sequence"));
            }
            let c = v[i + 1];
            let simple = dq_escape_char(c);
            match simple {
                Some(x) => {
                    push_char(&mut out, x);
                    proof {
                        assert(rest.skip(2) =~= v@.skip(i + 2));
                        lemma_with_prefix_assoc(o, seq![x], unescape_double(rest.skip(2)));
                        assert(o + seq![x] =~= out@);
                    }
                    i = i + 2;
                },
                None => {
                    let w: usize = if c == 'x' { 2 } else if c == 'u' { 4 } else if c == 'U' { 8 } else { 0 };
                    if w == 0 {
                        let mut msg = String::new();
                        push_str(&mut msg, "invalid escape sequence: \\");
                        push_char(&mut msg, c);
                        return Err(ParseError { kind: ParseErrorKind::UnexpectedToken, position: Position::start(),
                            message: msg });
                    }
                    let digits = slice_chars(v.as_slice(), i + 2, n);
                    proof { assert(digits@ =~= rest.skip(2)); }
                    match UnicodeProcessor::read_hex_digits(digits.as_slice(), w) {
                        Err(EscapeError::InvalidHexDigit(bad)) => {
                            let mut msg = String::new();
                            push_str(&mut msg, "invalid hex digit in escape sequence: ");
                            push_char(&mut msg, bad);
                            return Err(ParseError { kind: ParseErrorKind::UnexpectedToken, position: Position::start(),
                                message: msg });
                        },
                        Err(_) => {
                            return Err(ParseError::new(ParseErrorKind::UnexpectedEndOfInput, Position::start(),
                                "incomplete hex escape sequence"));
                        },
                        Ok(code) => {
                            proof {
                                crate::lexer::unicode::lemma_leading_hex_le(digits@);
                                assert(hex_width(c) == w as nat);
                            }
                            match char_from_u32(code) {
                                Some(x) => {
                                    push_char(&mut out, x);
                                    proof {
                                        assert(rest.skip(2).skip(w as int) =~= v@.skip(i + 2 + w));
                                        crate::text::lemma_char_of_code(x, code);
                                        lemma_with_prefix_assoc(o, seq![x], unescape_double(rest.skip(2).skip(w as int)));
                                        assert(o + seq![x] =~= out@);
                                    }
                                    i = i + 2 + w;
                                },
                                None => {
                                    return Err(ParseError::new(ParseErrorKind::UnexpectedToken, Position::start(),
                                        "invalid Unicode code point"));
                                },
                            }
                        },
                    }
                },
            }
        }
        proof { assert(v@.skip(n as int) =~= Seq::<char>::empty()); assert(out@ + Seq::<char>::empty() =~= out@); }
        Ok(out)
    }
}

/// Writing `a` before `b` written before a result is writing `a + b` before it.
proof fn lemma_with_prefix_assoc(a: Seq<char>, b: Seq<char>, r: Processed)
    ensures
        with_prefix(a, with_prefix(b, r)) == with_prefix(a + b, r),
{
    match r {
        Ok(t) => { assert(a + (b + t) =~= (a + b) + t); },
        Err(_) => {},
    }
}

/// The character a one-letter double-quoted escape stands for (`dq_simple_escape`).
fn dq_escape_char(c: char) -> (r: Option<char>)
    ensures
        r == dq_simple_escape(c),
{
    match c {
        '0' => Some('\0'),
        'a' => Some('\x07'),
        'b' => Some('\x08'),
        't' | '\t' => Some('\t'),
        'n' => Some('\n'),
        'v' => Some('\x0B'),
        'f' => Some('\x0C'),
        'r' => Some('\r'),
        'e' => Some('\x1B'),
        ' ' => Some(' '),
        '"' => Some('"'),
        '/' => Some('/'),
        '\\' => Some('\\'),
        'N' => Some('\u{85}'),
        '_' => Some('\u{A0}'),
        'L' => Some('\u{2028}'),
        'P' => Some('\u{2029}'),
        _ => None,
    }
}

/// The indentation of the first line that is not blank (`base_indent`).
fn base_indent_of(lines: &Vec<Vec<char>>, Ghost(ls): Ghost<Seq<Seq<char>>>) -> (b: usize)
    requires
        lines@.len() == ls.len(),
        forall|i: int| 0 <= i < ls.len() ==> (#[trigger] lines@[i])@ == ls[i],
    ensures
        b == base_indent(ls),
{
    let mut j: usize = 0;
    proof { assert(ls.skip(0) =~= ls); }
    while j < lines.len()
        invariant
            lines@.len() == ls.len(),
            forall|i: int| 0 <= i < ls.len() ==> (#[trigger] lines@[i])@ == ls[i],
            j <= ls.len(),
            base_indent(ls) == base_indent(ls.skip(j as int)),
        decreases ls.len() - j,
    {
        let l = lines[j].as_slice();
        let t = trim_chars(l);
        proof { assert(ls.skip(j as int)[0] == ls[j as int]); }
        if t.len() > 0 {
            let ts = trim_start_chars(l);
            proof { crate::text::lemma_trim_start_len(l@); }
            return l.len() - ts.len();
        }
        proof { assert(ls.skip(j as int).drop_first() =~= ls.skip(j + 1)); }
        j = j + 1;
    }
    0
}

/// Appends characters to a character vector.
fn append_chars(res: &mut Vec<char>, v: &[char])
    ensures
        final(res)@ == old(res)@ + v@,
{
    let ghost r0 = res@;
    let mut i: usize = 0;
    while i < v.len()
        invariant
            i <= v@.len(),
            res@ == r0 + v@.take(i as int),
        decreases v@.len() - i,
    {
        res.push(v[i]);
        proof { assert(v@.take(i + 1) =~= v@.take(i as int).push(v@[i as int])); }
        i = i + 1;
    }
    proof { assert(v@.take(v@.len() as int) =~= v@); }
}

/// A scalar converted to a target type other than a float (floats are read by the
/// caller's float reader).
#[derive(Debug, Clone, PartialEq)]
pub enum ScalarValue {
    Null,
    Boolean(bool),
    Integer(i64),
    String(String),
}

/// The words that convert to `true`.
pub open spec fn true_word(s: Seq<char>) -> bool {
    s == "true"@ || s == "True"@ || s == "TRUE"@ || s == "yes"@ || s == "Yes"@ || s == "YES"@
        || s == "on"@ || s == "On"@ || s == "ON"@
}

/// The words that convert to `false`.
pub open spec fn false_word(s: Seq<char>) -> bool {
    s == "false"@ || s == "False"@ || s == "FALSE"@ || s == "no"@ || s == "No"@ || s == "NO"@
        || s == "off"@ || s == "Off"@ || s == "OFF"@
}

impl ScalarParser {
    /// Convert a scalar to a target type, reading the text without its surrounding white
    /// space: null; a boolean word (else an error naming the text); an integer
    /// (`integer_value`); the text itself as a string. A float target is left to the
    /// float reader: `None`.
    pub fn convert_to_type(value: String, target_type: ScalarType) -> (r: Option<Result<ScalarValue, ParseError>>)
        requires
            target_type == ScalarType::Integer ==> !negates_min(trim_spec(value@)),
        ensures
            r is None <==> target_type == ScalarType::Float,
            target_type == ScalarType::Null ==> r == Some(Ok::<ScalarValue, ParseError>(ScalarValue::Null)),
            target_type == ScalarType::Boolean ==> {
                let t = trim_spec(value@);
                if true_word(t) {
                    r == Some(Ok::<ScalarValue, ParseError>(ScalarValue::Boolean(true)))
                } else if false_word(t) {
                    r == Some(Ok::<ScalarValue, ParseError>(ScalarValue::Boolean(false)))
                } else {
                    r matches Some(Err(e)) && e.kind == ParseErrorKind::UnexpectedToken
                        && e.position == Position::start_spec()
                        && e.message@ == "cannot convert '"@ + t + "' to boolean"@
                }
            },
            target_type == ScalarType::Integer ==> match integer_value(trim_spec(value@)) {
                Ok(n) => r == Some(Ok::<ScalarValue, ParseError>(ScalarValue::Integer(n))),
                Err(m) => r matches Some(Err(e)) && e.kind == ParseErrorKind::UnexpectedToken
                    && e.position == Position::start_spec() && e.message@ == m,
            },
            target_type == ScalarType::String ==> (r matches Some(Ok(ScalarValue::String(v))) && v@ == value@),
    {
        let trimmed = str_trim(value.as_str());
        match target_type {
            ScalarType::Null => Some(Ok(ScalarValue::Null)),
            ScalarType::Boolean => {
                let t = trimmed.as_str();
                if str_eq(t, "true") || str_eq(t, "True") || str_eq(t, "TRUE") || str_eq(t, "yes") || str_eq(t, "Yes")
                    || str_eq(t, "YES") || str_eq(t, "on") || str_eq(t, "On") || str_eq(t, "ON")
                {
                    Some(Ok(ScalarValue::Boolean(true)))
                } else if str_eq(t, "false") || str_eq(t, "False") || str_eq(t, "FALSE") || str_eq(t, "no")
                    || str_eq(t, "No") || str_eq(t, "NO") || str_eq(t, "off") || str_eq(t, "Off") || str_eq(t, "OFF")
                {
                    Some(Ok(ScalarValue::Boolean(false)))
                } else {
                    let mut msg = String::new();
                    push_str(&mut msg, "cannot convert '");
                    push_str(&mut msg, t);
                    push_str(&mut msg, "' to boolean");
                    Some(Err(ParseError::new(ParseErrorKind::UnexpectedToken, Position::start(), msg.as_str())))
                }
            },
            ScalarType::Integer => match Self::parse_integer(trimmed.as_str()) {
                Ok(n) => Some(Ok(ScalarValue::Integer(n))),
                Err(e) => Some(Err(e)),
            },
            ScalarType::Float => None,
            ScalarType::String => Some(Ok(ScalarValue::String(value))),
        }
    }
}

impl ScalarParser {
    /// A literal block scalar's text (`literal_value`).
    pub fn process_literal_scalar(value: String) -> (r: String)
        ensures
            r@ == literal_value(value@),
    {
        let v = str_to_chars(value.as_str());
        let lines = split_lines(v.as_slice());
        let ghost ls = lines_spec(v@);
        let base = base_indent_of(&lines, Ghost(ls));
        let ghost f = |k: int| literal_line(ls[k], base as int);
        let mut out = String::new();
        let mut i: usize = 0;
        proof { assert(Seq::new(0, f) =~= Seq::<Seq<char>>::empty()); }
        while i < lines.len()
            invariant
                lines@.len() == ls.len(),
                forall|k: int| 0 <= k < ls.len() ==> (#[trigger] lines@[k])@ == ls[k],
                ls == lines_spec(value@),
                base == base_indent(ls),
                f == (|k: int| literal_line(ls[k], base as int)),
                i <= ls.len(),
                out@ == join_lines(Seq::new(i as nat, f)),
            decreases ls.len() - i,
        {
            let ghost before = out@;
            if i > 0 {
                push_char(&mut out, '\n');
            }
            let l = lines[i].as_slice();
            let t = trim_chars(l);
            if t.len() > 0 {
                let ts = trim_start_chars(l);
                proof { crate::text::lemma_trim_start_len(l@); }
                let w = l.len() - ts.len();
                if w >= base {
                    let rest = slice_chars(l, base, l.len());
                    proof { assert(rest@ =~= l@.skip(base as int)); }
                    push_chars(&mut out, rest.as_slice());
                } else {
                    push_chars(&mut out, l);
                }
            }
            proof {
                let p = Seq::new((i + 1) as nat, f);
                assert(p.drop_last() =~= Seq::new(i as nat, f));
                assert(p.last() == literal_line(ls[i as int], base as int));
                if i == 0 {
                    assert(out@ =~= join_lines(p));
                } else {
                    assert(out@ =~= join_lines(p.drop_last()) + seq!['\n'] + p.last());
                }
            }
            i = i + 1;
        }
        out
    }

    /// A folded block scalar's text (`folded_value`).
    pub fn process_folded_scalar(value: String) -> (r: String)
        ensures
            r@ == folded_value(value@),
    {
        let v = str_to_chars(value.as_str());
        let lines = split_lines(v.as_slice());
        let ghost ls = lines_spec(v@);
        let base = base_indent_of(&lines, Ghost(ls));
        let n = lines.len();
        let mut res: Vec<char> = Vec::new();
        let mut inp = false;
        let mut i: usize = 0;
        while i < n
            invariant
                n == lines@.len() == ls.len(),
                forall|k: int| 0 <= k < ls.len() ==> (#[trigger] lines@[k])@ == ls[k],
                ls == lines_spec(value@),
                base == base_indent(ls),
                i <= n,
                folded_from(ls, 0, base as int, Seq::empty(), false) == folded_from(ls, i as int, base as int, res@, inp),
            decreases n - i,
        {
            let l = lines[i].as_slice();
            let ghost r0 = res@;
            let ghost inp0 = inp;
            let ghost line = ls[i as int];
            assert(l@ == line);
            let t = trim_chars(l);
            if t.len() == 0 {
                if inp {
                    res.push('\n');
                    inp = false;
                }
                res.push('\n');
                proof {
                    assert(res@ =~= (if inp0 { r0.push('\n') } else { r0 }).push('\n'));
                }
            } else {
                let ts = trim_start_chars(l);
                proof { crate::text::lemma_trim_start_len(l@); }
                let w = l.len() - ts.len();
                let pl = if w >= base { slice_chars(l, base, l.len()) } else { slice_chars(l, 0, l.len()) };
                proof {
                    if w >= base { assert(pl@ =~= l@.skip(base as int)); } else { assert(pl@ =~= l@); }
                    assert(indent_width(line) == w);
                }
                let pts = trim_start_chars(pl.as_slice());
                proof { crate::text::lemma_trim_start_len(pl@); }
                let pw = pl.len() - pts.len();
                proof { assert(indent_width(pl@) == pw); }
                if pw > 0 {
                    if inp {
                        res.push('\n');
                    }
                    let ghost r1 = res@;
                    append_chars(&mut res, pl.as_slice());
                    if i + 1 < n {
                        res.push('\n');
                    }
                    inp = false;
                    proof {
                        assert(r1 == (if inp0 { r0.push('\n') } else { r0 }));
                        assert(res@ =~= r1 + pl@ + (if i < ls.len() - 1 { seq!['\n'] } else { Seq::<char>::empty() }));
                    }
                } else {
                    if inp {
                        res.push(' ');
                    }
                    let ghost r1 = res@;
                    let pt = trim_chars(pl.as_slice());
                    append_chars(&mut res, pt.as_slice());
                    inp = true;
                    proof {
                        assert(r1 == (if inp0 { r0.push(' ') } else { r0 }));
                    }
                }
            }
            i = i + 1;
        }
        let mut k = res.len();
        proof { assert(res@.take(k as int) =~= res@); }
        while k > 0 && res[k - 1] == '\n'
            invariant
                k <= res@.len(),
                strip_newlines(res@) == strip_newlines(res@.take(k as int)),
            decreases k,
        {
            proof { assert(res@.take(k as int).drop_last() =~= res@.take(k - 1)); }
            k = k - 1;
        }
        proof {
            if k > 0 {
                assert(res@.take(k as int).last() == res@[k - 1]);
            }
        }
        let kept = slice_chars(res.as_slice(), 0, k);
        proof { assert(kept@ =~= res@.take(k as int)); }
        chars_to_string(kept.as_slice())
    }

    /// Read an integer: an optional sign, then a hexadecimal, binary, octal or decimal
    /// magnitude (`integer_value`). The least `i64` read after a `-` has no negation, so
    /// that input is left out.
    pub fn parse_integer(value: &str) -> (r: Result<i64, ParseError>)
        requires
            !negates_min(value@),
        ensures
            match integer_value(value@) {
                Ok(n) => r == Ok::<i64, ParseError>(n),
                Err(m) => r matches Err(e) && e.kind == ParseErrorKind::UnexpectedToken
                    && e.position == Position::start_spec() && e.message@ == m,
            },
    {
        let v = str_to_chars(value);
        let n = v.len();
        if n == 0 {
            return Err(ParseError::new(ParseErrorKind::UnexpectedToken, Position::start(), "empty integer value"));
        }
        let neg = v[0] == '-';
        let start: usize = if v[0] == '-' || v[0] == '+' { 1 } else { 0 };
        let rest = slice_chars(v.as_slice(), start, n);
        proof {
            if start == 1 { assert(rest@ =~= v@.drop_first()); } else { assert(rest@ =~= v@); }
        }
        let m = rest.len();
        let parsed = if m >= 2 && rest[0] == '0' && (rest[1] == 'x' || rest[1] == 'X') {
            let d = slice_chars(rest.as_slice(), 2, m);
            proof { assert(d@ =~= rest@.skip(2)); }
            parse_radix(d.as_slice(), 16)
        } else if m >= 2 && rest[0] == '0' && (rest[1] == 'b' || rest[1] == 'B') {
            let d = slice_chars(rest.as_slice(), 2, m);
            proof { assert(d@ =~= rest@.skip(2)); }
            parse_radix(d.as_slice(), 2)
        } else if m >= 2 && rest[0] == '0' && (rest[1] == 'o' || rest[1] == 'O') {
            let d = slice_chars(rest.as_slice(), 2, m);
            proof { assert(d@ =~= rest@.skip(2)); }
            parse_radix(d.as_slice(), 8)
        } else {
            parse_radix(rest.as_slice(), 10)
        };
        match parsed {
            Some(x) => {
                if neg {
                    Ok(-x)
                } else {
                    Ok(x)
                }
            },
            None => {
                let mut msg = String::new();
                push_str(&mut msg, "invalid integer value: ");
                push_chars(&mut msg, rest.as_slice());
                Err(ParseError { kind: ParseErrorKind::UnexpectedToken, position: Position::start(), message: msg })
            },
        }
    }
}

/// The value of a digit in radix `r` (`char::to_digit`).
fn digit_of(c: char, r: u32) -> (d: Option<u32>)
    requires
        2 <= r <= 36,
    ensures
        d matches Some(x) ==> radix_digit(c, r as nat) == Some(x as nat),
        d is None ==> radix_digit(c, r as nat) is None,
{
    let v: u32 = if '0' <= c && c <= '9' {
        (c as u32) - ('0' as u32)
    } else if 'a' <= c && c <= 'z' {
        (c as u32) - ('a' as u32) + 10
    } else if 'A' <= c && c <= 'Z' {
        (c as u32) - ('A' as u32) + 10
    } else {
        r
    };
    if v < r { Some(v) } else { None }
}

/// A run of digits is worth at least as much as any of its prefixes.
proof fn lemma_radix_value_mono(s: Seq<char>, r: nat, k: int)
    requires
        0 <= k <= s.len(),
        r >= 1,
    ensures
        radix_value(s.take(k), r) <= radix_value(s, r),
    decreases s.len(),
{
    if k < s.len() {
        lemma_radix_value_mono(s.drop_last(), r, k);
        assert(s.drop_last().take(k) =~= s.take(k));
        let a = radix_value(s.drop_last(), r);
        assert(a * r >= a) by (nonlinear_arith) requires r >= 1, a >= 0;
    } else {
        assert(s.take(k) =~= s);
    }
}

/// `i64::from_str_radix`: an optional sign (not alone) and digits of the radix whose
/// value fits (`radix_reading`).
pub fn parse_radix(v: &[char], radix: u32) -> (r: Option<i64>)
    requires
        2 <= radix <= 36,
    ensures
        r == radix_reading(v@, radix as nat),
{
    let n = v.len();
    let signed = n > 0 && (v[0] == '+' || v[0] == '-');
    let neg = n > 0 && v[0] == '-';
    let start: usize = if signed { 1 } else { 0 };
    let ghost t = v@;
    let ghost digits = if signed { t.drop_first() } else { t };
    let ghost rr = radix as nat;
    proof { assert(digits =~= t.subrange(start as int, n as int)); }
    if start >= n {
        return None;
    }
    let mut acc: u128 = 0;
    let mut i = start;
    while i < n
        invariant
            t == v@,
            rr == radix as nat,
            2 <= radix <= 36,
            n == v@.len(),
            start <= i <= n,
            digits == t.subrange(start as int, n as int),
            digits == (if t.len() > 0 && (t[0] == '+' || t[0] == '-') { t.drop_first() } else { t }),
            neg == (t.len() > 0 && t[0] == '-'),
            forall|j: int| start <= j < i ==> (#[trigger] radix_digit(t[j], rr)) is Some,
            acc == radix_value(t.subrange(start as int, i as int), rr),
            acc <= 0x8000_0000_0000_0000u128,
        decreases n - i,
    {
        let c = v[i];
        let d = match digit_of(c, radix) {
            Some(x) => x,
            None => {
                proof {
                    assert(digits[i - start] == v@[i as int]);
                    assert(!all_radix(digits, rr));
                }
                return None;
            },
        };
        proof {
            assert(t.subrange(start as int, i + 1).drop_last() =~= t.subrange(start as int, i as int));
            assert(t.subrange(start as int, i + 1).last() == c);
            assert(acc * (radix as u128) <= 0x8000_0000_0000_0000u128 * 36) by (nonlinear_arith)
                requires acc <= 0x8000_0000_0000_0000u128, radix <= 36;
        }
        let next: u128 = acc * (radix as u128) + (d as u128);
        if next > 0x8000_0000_0000_0000u128 {
            proof {
                if all_radix(digits, rr) {
                    lemma_radix_value_mono(digits, rr, (i + 1 - start) as int);
                    assert(digits.take((i + 1 - start) as int) =~= t.subrange(start as int, i + 1));
                }
            }
            return None;
        }
        acc = next;
        i = i + 1;
    }
    proof {
        assert(t.subrange(start as int, n as int) =~= digits);
        assert(all_radix(digits, rr)) by {
            assert forall|j: int| 0 <= j < digits.len() implies (#[trigger] radix_digit(digits[j], rr)) is Some by {
                assert(digits[j] == t[j + start]);
            }
        }
    }
    if neg {
        if acc == 0x8000_0000_0000_0000u128 {
            Some(i64::MIN)
        } else {
            Some(-(acc as i64))
        }
    } else {
        if acc > 0x7FFF_FFFF_FFFF_FFFFu128 {
            None
        } else {
            Some(acc as i64)
        }
    }
}

} // verus!
