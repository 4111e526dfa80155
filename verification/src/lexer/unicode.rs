//! Unicode handling and escaping for YAML lexical analysis: character classes,
//! escape-sequence decoding and encoding, and line-ending normalization.
use vstd::prelude::*;

pub mod chars;
pub mod normalization;
use crate::text::{lemma_char_of_code, char_from_u32, is_scalar_value, push_char, push_str, push_hex_fixed, hex_fixed, str_to_chars};

verus! {

/// Unicode escape sequence processor
pub struct UnicodeProcessor;

/// String escaping styles
#[derive(Debug, Clone, Copy, PartialEq, Eq, Structural)]
pub enum EscapeStyle {
    DoubleQuoted,
    SingleQuoted,
}

/// Errors that can occur during escape processing
#[derive(Debug, Clone, PartialEq, Eq, Structural)]
pub enum EscapeError {
    InvalidEscape(char),
    InvalidHexDigit(char),
    InvalidUnicode(u32),
    UnterminatedEscape,
    UnexpectedEndOfInput,
}

// ---------------------------------------------------------------------------
// Hexadecimal digits

pub open spec fn is_hex_digit(c: char) -> bool {
    ('0' <= c <= '9') || ('a' <= c <= 'f') || ('A' <= c <= 'F')
}

pub open spec fn hex_digit_value(c: char) -> int {
    if '0' <= c <= '9' {
        c as int - '0' as int
    } else if 'a' <= c <= 'f' {
        c as int - 'a' as int + 10
    } else {
        c as int - 'A' as int + 10
    }
}

/// The value of a sequence of hexadecimal digits, most significant first.
pub open spec fn hex_value(s: Seq<char>) -> int
    decreases s.len(),
{
    if s.len() == 0 {
        0
    } else {
        hex_value(s.drop_last()) * 16 + hex_digit_value(s.last())
    }
}

/// The number of hexadecimal digits at the start of `s`.
pub open spec fn leading_hex_len(s: Seq<char>) -> nat
    decreases s.len(),
{
    if s.len() == 0 || !is_hex_digit(s[0]) {
        0
    } else {
        1 + leading_hex_len(s.drop_first())
    }
}

/// Reading `count` hexadecimal digits from the front of `s`: their value, or the first
/// character that is not a digit, or the end of the input.
pub open spec fn read_hex_spec(s: Seq<char>, count: nat) -> Result<u32, EscapeError> {
    let k = leading_hex_len(s);
    if k >= count {
        Ok(hex_value(s.take(count as int)) as u32)
    } else if k < s.len() {
        Err(EscapeError::InvalidHexDigit(s[k as int]))
    } else {
        Err(EscapeError::UnexpectedEndOfInput)
    }
}

pub proof fn lemma_hex_value_bound(s: Seq<char>)
    requires
        forall|i: int| 0 <= i < s.len() ==> is_hex_digit(#[trigger] s[i]),
    ensures
        0 <= hex_value(s) < vstd::arithmetic::power::pow(16, s.len()),
    decreases s.len(),
{
    reveal(vstd::arithmetic::power::pow);
    if s.len() > 0 {
        lemma_hex_value_bound(s.drop_last());
        assert(is_hex_digit(s[s.len() - 1]));
        let p = vstd::arithmetic::power::pow(16, (s.len() - 1) as nat);
        assert(hex_value(s.drop_last()) * 16 + 16 <= p * 16) by (nonlinear_arith)
            requires hex_value(s.drop_last()) < p;
    }
}

pub proof fn lemma_leading_hex(s: Seq<char>, i: int)
    requires
        0 <= i < leading_hex_len(s),
    ensures
        i < s.len(),
        is_hex_digit(s[i]),
    decreases s.len(),
{
    if i > 0 {
        lemma_leading_hex(s.drop_first(), i - 1);
    }
}

pub proof fn lemma_leading_hex_stop(s: Seq<char>)
    requires
        leading_hex_len(s) < s.len(),
    ensures
        !is_hex_digit(s[leading_hex_len(s) as int]),
    decreases s.len(),
{
    if s.len() > 0 && is_hex_digit(s[0]) {
        lemma_leading_hex_stop(s.drop_first());
    }
}

pub proof fn lemma_leading_hex_le(s: Seq<char>)
    ensures
        leading_hex_len(s) <= s.len(),
    decreases s.len(),
{
    if s.len() > 0 && is_hex_digit(s[0]) {
        lemma_leading_hex_le(s.drop_first());
    }
}

/// The leading hexadecimal digits of at most eight characters fit in a `u32`.
pub proof fn lemma_hex_prefix_fits(s: Seq<char>)
    requires
        s.len() <= 8,
    ensures
        hex_value(s.take(leading_hex_len(s) as int)) <= u32::MAX,
{
    let k = leading_hex_len(s);
    lemma_leading_hex_le(s);
    let t = s.take(k as int);
    assert forall|i: int| 0 <= i < t.len() implies is_hex_digit(#[trigger] t[i]) by {
        lemma_leading_hex(s, i);
    }
    lemma_hex_value_bound(t);
    vstd::arithmetic::power::lemma_pow_increases(16, k, 8);
    assert(vstd::arithmetic::power::pow(16, 8) == 0x1_0000_0000) by {
        reveal_with_fuel(vstd::arithmetic::power::pow, 9);
    }
}

/// A digit run followed by a non-digit (or the end) has exactly that many leading digits.
pub proof fn lemma_leading_hex_exact(s: Seq<char>, k: int)
    requires
        0 <= k <= s.len(),
        forall|i: int| 0 <= i < k ==> is_hex_digit(#[trigger] s[i]),
        k == s.len() || !is_hex_digit(s[k]),
    ensures
        leading_hex_len(s) == k,
    decreases k,
{
    if k > 0 {
        assert forall|i: int| 0 <= i < k - 1 implies is_hex_digit(#[trigger] s.drop_first()[i]) by {
            assert(s.drop_first()[i] == s[i + 1]);
        }
        lemma_leading_hex_exact(s.drop_first(), k - 1);
    } else if s.len() > 0 {
        assert(!is_hex_digit(s[0]));
    }
}

/// At least `k` leading digits when the first `k` characters are digits.
pub proof fn lemma_leading_hex_at_least(s: Seq<char>, k: int)
    requires
        0 <= k <= s.len(),
        forall|i: int| 0 <= i < k ==> is_hex_digit(#[trigger] s[i]),
    ensures
        leading_hex_len(s) >= k,
    decreases k,
{
    if k > 0 {
        assert forall|i: int| 0 <= i < k - 1 implies is_hex_digit(#[trigger] s.drop_first()[i]) by {
            assert(s.drop_first()[i] == s[i + 1]);
        }
        lemma_leading_hex_at_least(s.drop_first(), k - 1);
    }
}

/// Whether a character is a hexadecimal digit (`char::is_ascii_hexdigit`).
pub fn is_ascii_hexdigit(c: char) -> (b: bool)
    ensures
        b == is_hex_digit(c),
{
    ('0' <= c && c <= '9') || ('a' <= c && c <= 'f') || ('A' <= c && c <= 'F')
}

/// The value of a hexadecimal digit (`char::to_digit(16)`).
pub fn hex_digit_val(c: char) -> (d: u32)
    requires
        is_hex_digit(c),
    ensures
        d == hex_digit_value(c),
        d < 16,
{
    if '0' <= c && c <= '9' {
        (c as u32) - ('0' as u32)
    } else if 'a' <= c && c <= 'f' {
        (c as u32) - ('a' as u32) + 10
    } else {
        (c as u32) - ('A' as u32) + 10
    }
}

impl UnicodeProcessor {
    /// Read `count` (at most 8) hexadecimal digits from the front of `chars`.
    pub fn read_hex_digits(chars: &[char], count: usize) -> (r: Result<u32, EscapeError>)
        requires
            count <= 8,
        ensures
            r == read_hex_spec(chars@, count as nat),
    {
        let mut result: u32 = 0;
        let mut i: usize = 0;
        while i < count
            invariant
                i <= count <= 8,
                i <= chars@.len(),
                forall|j: int| 0 <= j < i ==> is_hex_digit(#[trigger] chars@[j]),
                result == hex_value(chars@.take(i as int)),
            decreases count - i,
        {
            if i >= chars.len() {
                proof {
                    lemma_leading_hex_exact(chars@, i as int);
                }
                return Err(EscapeError::UnexpectedEndOfInput);
            }
            let ch = chars[i];
            if !is_ascii_hexdigit(ch) {
                proof {
                    lemma_leading_hex_exact(chars@, i as int);
                }
                return Err(EscapeError::InvalidHexDigit(ch));
            }
            proof {
                let t = chars@.take(i + 1);
                assert(t.drop_last() =~= chars@.take(i as int));
                lemma_hex_value_bound(t);
                assert forall|j: int| 0 <= j < t.len() implies is_hex_digit(#[trigger] t[j]) by {}
                vstd::arithmetic::power::lemma_pow_increases(16, (i + 1) as nat, 8);
                assert(vstd::arithmetic::power::pow(16, 8) == 0x1_0000_0000) by {
                    reveal_with_fuel(vstd::arithmetic::power::pow, 9);
                }
            }
            result = result * 16 + hex_digit_val(ch);
            i = i + 1;
        }
        proof {
            lemma_leading_hex_at_least(chars@, count as int);
        }
        Ok(result)
    }
}



impl EscapeError {
    pub open spec fn message_spec(&self) -> Seq<char> {
        match self {
            EscapeError::InvalidEscape(ch) => "invalid escape sequence '\\"@ + seq![*ch] + "'"@,
            EscapeError::InvalidHexDigit(ch) => "invalid hexadecimal digit '"@ + seq![*ch] + "'"@,
            EscapeError::InvalidUnicode(code) => "invalid unicode code point U+"@ + crate::text::hex_min(*code as nat),
            EscapeError::UnterminatedEscape => "unterminated escape sequence"@,
            EscapeError::UnexpectedEndOfInput => "unexpected end of input in escape sequence"@,
        }
    }

    /// The error as it is displayed.
    pub fn to_string(&self) -> (s: String)
        ensures
            s@ == self.message_spec(),
    {
        let mut s = String::new();
        match self {
            EscapeError::InvalidEscape(ch) => {
                push_str(&mut s, "invalid escape sequence '\\");
                push_char(&mut s, *ch);
                push_str(&mut s, "'");
            },
            EscapeError::InvalidHexDigit(ch) => {
                push_str(&mut s, "invalid hexadecimal digit '");
                push_char(&mut s, *ch);
                push_str(&mut s, "'");
            },
            EscapeError::InvalidUnicode(code) => {
                push_str(&mut s, "invalid unicode code point U+");
                crate::text::push_hex_min(&mut s, *code);
            },
            EscapeError::UnterminatedEscape => {
                push_str(&mut s, "unterminated escape sequence");
            },
            EscapeError::UnexpectedEndOfInput => {
                push_str(&mut s, "unexpected end of input in escape sequence");
            },
        }
        s
    }
}

// ---------------------------------------------------------------------------
// Escape sequences

/// The character that a one-letter escape `\c` stands for.
pub open spec fn simple_escape(c: char) -> Option<char> {
    if c == '0' { Some('\0') }
    else if c == 'a' { Some('\x07') }
    else if c == 'b' { Some('\x08') }
    else if c == 't' { Some('\t') }
    else if c == 'n' { Some('\n') }
    else if c == 'v' { Some('\x0B') }
    else if c == 'f' { Some('\x0C') }
    else if c == 'r' { Some('\r') }
    else if c == 'e' { Some('\x1B') }
    else if c == ' ' { Some(' ') }
    else if c == '"' { Some('"') }
    else if c == '/' { Some('/') }
    else if c == '\\' { Some('\\') }
    else if c == 'N' { Some('\u{85}') }
    else if c == '_' { Some('\u{A0}') }
    else if c == 'L' { Some('\u{2028}') }
    else if c == 'P' { Some('\u{2029}') }
    else { None }
}

/// Prefix `p` to a successful result; pass an error through.
pub open spec fn prepend(p: Seq<char>, r: Result<Seq<char>, EscapeError>) -> Result<Seq<char>, EscapeError> {
    match r {
        Ok(t) => Ok(p + t),
        Err(e) => Err(e),
    }
}

/// Decoding of YAML double-quoted escape sequences, left to right; the first malformed
/// escape decides the error.
pub open spec fn unescape(s: Seq<char>) -> Result<Seq<char>, EscapeError>
    decreases s.len(),
{
    if s.len() == 0 {
        Ok(Seq::empty())
    } else if s[0] != '\\' {
        prepend(seq![s[0]], unescape(s.drop_first()))
    } else if s.len() < 2 {
        Err(EscapeError::UnterminatedEscape)
    } else {
        let c = s[1];
        let rest = s.skip(2);
        if simple_escape(c) is Some {
            prepend(seq![simple_escape(c)->0], unescape(rest))
        } else if c == 'x' || c == 'u' || c == 'U' {
            let width: nat = if c == 'x' { 2 } else if c == 'u' { 4 } else { 8 };
            match read_hex_spec(rest, width) {
                Err(e) => Err(e),
                Ok(h) => {
                    proof {
                        lemma_leading_hex_le(rest);
                    }
                    let code: int = if c == 'x' { (h as u8) as int } else { h as int };
                    if c != 'x' && !is_scalar_value(code) {
                        Err(EscapeError::InvalidUnicode(h))
                    } else {
                        prepend(seq![(code as u32) as char], unescape(rest.skip(width as int)))
                    }
                }
            }
        } else {
            Err(EscapeError::InvalidEscape(c))
        }
    }
}

/// The one-letter escape code for a character, if it has one in double-quoted output.
pub open spec fn escape_letter(c: char) -> Option<char> {
    if c == '\0' { Some('0') }
    else if c == '\x07' { Some('a') }
    else if c == '\x08' { Some('b') }
    else if c == '\t' { Some('t') }
    else if c == '\n' { Some('n') }
    else if c == '\x0B' { Some('v') }
    else if c == '\x0C' { Some('f') }
    else if c == '\r' { Some('r') }
    else if c == '\x1B' { Some('e') }
    else if c == '"' { Some('"') }
    else if c == '\\' { Some('\\') }
    else if c == '\u{85}' { Some('N') }
    else if c == '\u{A0}' { Some('_') }
    else if c == '\u{2028}' { Some('L') }
    else if c == '\u{2029}' { Some('P') }
    else { None }
}

/// Unicode general category Cc (`char::is_control`).
pub open spec fn is_control_char(c: char) -> bool {
    (c as u32) <= 0x1F || (0x7F <= (c as u32) <= 0x9F)
}

/// How one character is written inside a double-quoted scalar.
pub open spec fn escape_char_dq(c: char) -> Seq<char> {
    if escape_letter(c) is Some {
        seq!['\\', escape_letter(c)->0]
    } else if is_control_char(c) {
        let n = c as u32;
        if n <= 0xFF {
            seq!['\\', 'x'] + hex_fixed(n as nat, 2)
        } else if n <= 0xFFFF {
            seq!['\\', 'u'] + hex_fixed(n as nat, 4)
        } else {
            seq!['\\', 'U'] + hex_fixed(n as nat, 8)
        }
    } else {
        seq![c]
    }
}

/// The body of a double-quoted scalar for `s` (without the surrounding quotes).
pub open spec fn escape_body_dq(s: Seq<char>) -> Seq<char>
    decreases s.len(),
{
    if s.len() == 0 {
        Seq::empty()
    } else {
        escape_body_dq(s.drop_last()) + escape_char_dq(s.last())
    }
}

/// The body of a single-quoted scalar for `s`: each quote doubled.
pub open spec fn escape_body_sq(s: Seq<char>) -> Seq<char>
    decreases s.len(),
{
    if s.len() == 0 {
        Seq::empty()
    } else {
        escape_body_sq(s.drop_last()) + (if s.last() == '\'' { seq!['\'', '\''] } else { seq![s.last()] })
    }
}

/// The quoted rendering of `s` in the given style.
pub open spec fn escape_spec(s: Seq<char>, style: EscapeStyle) -> Seq<char> {
    match style {
        EscapeStyle::DoubleQuoted => seq!['"'] + escape_body_dq(s) + seq!['"'],
        EscapeStyle::SingleQuoted => seq!['\''] + escape_body_sq(s) + seq!['\''],
    }
}

/// Whether a character is a control character (`char::is_control`).
pub fn is_control(c: char) -> (b: bool)
    ensures
        b == is_control_char(c),
{
    let n = c as u32;
    n <= 0x1F || (0x7F <= n && n <= 0x9F)
}

proof fn lemma_unescape_step(s: Seq<char>, i: int)
    requires
        0 <= i < s.len(),
        s[i] != '\\',
    ensures
        unescape(s.skip(i)) == prepend(seq![s[i]], unescape(s.skip(i + 1))),
{
    assert(s.skip(i)[0] == s[i]);
    assert(s.skip(i).drop_first() =~= s.skip(i + 1));
}

proof fn lemma_prepend_assoc(a: Seq<char>, b: Seq<char>, r: Result<Seq<char>, EscapeError>)
    ensures
        prepend(a, prepend(b, r)) == prepend(a + b, r),
{
    match r {
        Ok(t) => { assert(a + (b + t) =~= (a + b) + t); },
        Err(_) => {},
    }
}

/// Writing text for a double-quoted scalar and then processing its escapes gives back the
/// text: every character is written so that processing reads it back.
pub proof fn lemma_escape_roundtrip(s: Seq<char>)
    ensures
        unescape(escape_body_dq(s)) == Ok::<Seq<char>, EscapeError>(s),
    decreases s.len(),
{
    if s.len() > 0 {
        lemma_escape_body_front(s);
        lemma_escape_roundtrip(s.drop_first());
        lemma_unescape_escaped_char(s[0], escape_body_dq(s.drop_first()));
        assert(seq![s[0]] + s.drop_first() =~= s);
    } else {
        assert(escape_body_dq(s) =~= Seq::<char>::empty());
        assert(s =~= Seq::<char>::empty());
    }
}

/// The written text starts with the first character's escape.
pub proof fn lemma_escape_body_front(s: Seq<char>)
    requires
        s.len() > 0,
    ensures
        escape_body_dq(s) == escape_char_dq(s[0]) + escape_body_dq(s.drop_first()),
    decreases s.len(),
{
    if s.len() == 1 {
        assert(s.drop_last() =~= Seq::<char>::empty());
        assert(s.drop_first() =~= Seq::<char>::empty());
        assert(escape_char_dq(s[0]) + Seq::<char>::empty() =~= escape_char_dq(s[0]));
    } else {
        lemma_escape_body_front(s.drop_last());
        assert(s.drop_last().drop_first() =~= s.drop_first().drop_last());
        assert(s.drop_first().last() == s.last());
        assert(s.drop_last()[0] == s[0]);
        assert(escape_char_dq(s[0]) + escape_body_dq(s.drop_first().drop_last()) + escape_char_dq(s.last())
            =~= escape_char_dq(s[0]) + (escape_body_dq(s.drop_first().drop_last()) + escape_char_dq(s.last())));
    }
}

/// Two hex digits written for a value below 256 read back as that value.
pub proof fn lemma_hex_fixed_two(n: nat)
    requires
        n < 256,
    ensures
        hex_fixed(n, 2).len() == 2,
        is_hex_digit(hex_fixed(n, 2)[0]),
        is_hex_digit(hex_fixed(n, 2)[1]),
        hex_value(hex_fixed(n, 2)) == n,
{
    let hi = (n / 16) as int;
    let lo = (n % 16) as int;
    assert(hex_fixed(n / 16, 1) =~= hex_fixed(n / 16 / 16, 0) + seq![crate::text::hex_digit_char(((n / 16) % 16) as int)]);
    assert((n / 16) % 16 == n / 16);
    assert(hex_fixed(n, 2) =~= seq![crate::text::hex_digit_char(hi), crate::text::hex_digit_char(lo)]);
    lemma_hex_digit_roundtrip(hi);
    lemma_hex_digit_roundtrip(lo);
    let h = hex_fixed(n, 2);
    assert(h.drop_last() =~= seq![crate::text::hex_digit_char(hi)]);
    assert(h.drop_last().drop_last() =~= Seq::<char>::empty());
    assert(hex_value(h.drop_last().drop_last()) == 0);
    assert(h.drop_last().last() == crate::text::hex_digit_char(hi));
    assert(hex_value(h.drop_last()) == hi);
    assert(hi * 16 + lo == n);
}

/// An uppercase hex digit is a hex digit worth its value.
proof fn lemma_hex_digit_roundtrip(d: int)
    requires
        0 <= d < 16,
    ensures
        is_hex_digit(crate::text::hex_digit_char(d)),
        hex_digit_value(crate::text::hex_digit_char(d)) == d,
{
    assert('0' as int == 48);
    assert('A' as int == 65);
    assert('9' as int == 57);
    assert('F' as int == 70);
}

/// Processing the escape written for a character reads back the character.
proof fn lemma_unescape_escaped_char(c: char, t: Seq<char>)
    ensures
        unescape(escape_char_dq(c) + t) == prepend(seq![c], unescape(t)),
{
    let u = escape_char_dq(c) + t;
    if escape_letter(c) is Some {
        let l = escape_letter(c)->0;
        assert(u[0] == '\\' && u[1] == l);
        assert(u.skip(2) =~= t);
        assert(simple_escape(l) == Some(c));
    } else if is_control_char(c) {
        let n = c as u32;
        assert(n <= 0x9F);
        lemma_hex_fixed_two(n as nat);
        let digits = hex_fixed(n as nat, 2);
        assert(escape_char_dq(c) =~= seq!['\\', 'x'] + digits);
        let rest = u.skip(2);
        assert(rest =~= digits + t);
        assert(u[1] == 'x');
        assert(simple_escape('x') is None);
        assert forall|i: int| 0 <= i < 2 implies is_hex_digit(#[trigger] rest[i]) by {
            assert(rest[i] == digits[i]);
        }
        lemma_leading_hex_at_least(rest, 2);
        assert(rest.take(2) =~= digits);
        assert(read_hex_spec(rest, 2) == Ok::<u32, EscapeError>(n));
        assert((n as u8) as int == n as int);
        crate::text::lemma_char_of_code(c, n);
        assert(rest.skip(2) =~= t);
    } else {
        assert(escape_char_dq(c) == seq![c]);
        assert(c != '\\');
        assert(u[0] == c);
        assert(u.drop_first() =~= t);
    }
}

impl UnicodeProcessor {
    /// Process escape sequences in a string
    pub fn process_escapes(input: &str) -> (r: Result<String, EscapeError>)
        ensures
            match r {
                Ok(out) => unescape(input@) == Ok::<Seq<char>, EscapeError>(out@),
                Err(e) => unescape(input@) == Err::<Seq<char>, EscapeError>(e),
            },
    {
        let v = str_to_chars(input);
        let n = v.len();
        let mut result = String::new();
        let mut i: usize = 0;
        assert(v@.skip(0) =~= v@);
        while i < n
            invariant
                n == v@.len(),
                v@ == input@,
                i <= n,
                unescape(input@) == prepend(result@, unescape(v@.skip(i as int))),
            decreases n - i,
        {
            let ch = v[i];
            if ch != '\\' {
                let ghost before = result@;
                proof {
                    lemma_unescape_step(v@, i as int);
                    lemma_prepend_assoc(result@, seq![ch], unescape(v@.skip(i + 1)));
                }
                push_char(&mut result, ch);
                i = i + 1;
                assert(result@ =~= before + seq![ch]);
                assert(unescape(input@) == prepend(result@, unescape(v@.skip(i as int))));
            } else {
                let ghost sfx = v@.skip(i as int);
                assert(sfx[0] == '\\');
                if i + 1 >= n {
                    return Err(EscapeError::UnterminatedEscape);
                }
                let c = v[i + 1];
                assert(sfx[1] == c);
                let ghost rest = sfx.skip(2);
                assert(rest =~= v@.skip(i + 2));
                let simple: Option<char> = match c {
                    '0' => Some('\0'),
                    'a' => Some('\x07'),
                    'b' => Some('\x08'),
                    't' => Some('\t'),
                    'n' => Some('\n'),
                    'v' => Some('\x0B'),
                    'f' => Some('\x0C'),
                    'r' => Some('\r'),
                    'e' => Some('\x1B'),
                    ' ' => Some(' '),
                    '"' => Some('"'),
                    '/' => Some('/'),
                    '\\' => Some('\\'),
                    'N' => Some('\u{85}'),
                    '_' => Some('\u{A0}'),
                    'L' => Some('\u{2028}'),
                    'P' => Some('\u{2029}'),
                    _ => None,
                };
                assert(simple == simple_escape(c));
                match simple {
                    Some(x) => {
                        proof {
                            assert(unescape(sfx) == prepend(seq![x], unescape(rest)));
                            lemma_prepend_assoc(result@, seq![x], unescape(v@.skip(i + 2)));
                        }
                        let ghost before = result@;
                        push_char(&mut result, x);
                        i = i + 2;
                        assert(result@ =~= before + seq![x]);
                        assert(unescape(input@) == prepend(result@, unescape(v@.skip(i as int))));
                    },
                    None => {
                        if c == 'x' || c == 'u' || c == 'U' {
                            let width: usize = if c == 'x' { 2 } else if c == 'u' { 4 } else { 8 };
                            let tail = v.as_slice().split_at(i + 2).1;
                            assert(tail@ =~= rest);
                            let h = match UnicodeProcessor::read_hex_digits(tail, width) {
                                Ok(h) => h,
                                Err(e) => { return Err(e); },
                            };
                            proof {
                                lemma_leading_hex_le(rest);
                                assert(rest.skip(width as int) =~= v@.skip(i + 2 + width));
                            }
                            let out: char = if c == 'x' {
                                (h as u8) as char
                            } else {
                                match char_from_u32(h) {
                                    Some(ch2) => ch2,
                                    None => { return Err(EscapeError::InvalidUnicode(h)); },
                                }
                            };
                            proof {
                                let ghost w: nat = if c == 'x' { 2 } else if c == 'u' { 4 } else { 8 };
                                assert(w == width);
                                assert(read_hex_spec(rest, w) == Ok::<u32, EscapeError>(h));
                                if c == 'x' {
                                    assert forall|j: int| 0 <= j < rest.take(2).len() implies is_hex_digit(#[trigger] rest.take(2)[j]) by {
                                        lemma_leading_hex(rest, j);
                                    }
                                    lemma_hex_value_bound(rest.take(2));
                                    assert(vstd::arithmetic::power::pow(16, 2) == 256) by {
                                        reveal_with_fuel(vstd::arithmetic::power::pow, 3);
                                    }
                                    assert(h < 256);
                                }
                                assert(out as u32 == (if c == 'x' { (h as u8) as int } else { h as int }));
                                lemma_char_of_code(out, (if c == 'x' { (h as u8) as int } else { h as int }) as u32);
                                assert(unescape(sfx) == prepend(seq![out], unescape(rest.skip(width as int))));
                                lemma_prepend_assoc(result@, seq![out], unescape(v@.skip(i + 2 + width)));
                            }
                            let ghost before = result@;
                            push_char(&mut result, out);
                            i = i + 2 + width;
                            assert(result@ =~= before + seq![out]);
                        } else {
                            return Err(EscapeError::InvalidEscape(c));
                        }
                    },
                }
            }
        }
        assert(v@.skip(n as int) =~= Seq::<char>::empty());
        assert(result@ + Seq::<char>::empty() =~= result@);
        Ok(result)
    }

    /// Escape a string for YAML output
    pub fn escape_string(input: &str, style: EscapeStyle) -> (out: String)
        ensures
            out@ == escape_spec(input@, style),
    {
        let v = str_to_chars(input);
        let mut result = String::new();
        match style {
            EscapeStyle::DoubleQuoted => {
                push_char(&mut result, '"');
                for i in 0..v.len()
                    invariant
                        result@ == seq!['"'] + escape_body_dq(v@.take(i as int)),
                {
                    let ch = v[i];
                    let ghost before = result@;
                    proof {
                        assert(v@.take(i + 1).drop_last() =~= v@.take(i as int));
                        assert(v@.take(i + 1).last() == ch);
                    }
                    match ch {
                        '\0' => push_str(&mut result, "\\0"),
                        '\x07' => push_str(&mut result, "\\a"),
                        '\x08' => push_str(&mut result, "\\b"),
                        '\t' => push_str(&mut result, "\\t"),
                        '\n' => push_str(&mut result, "\\n"),
                        '\x0B' => push_str(&mut result, "\\v"),
                        '\x0C' => push_str(&mut result, "\\f"),
                        '\r' => push_str(&mut result, "\\r"),
                        '\x1B' => push_str(&mut result, "\\e"),
                        '"' => push_str(&mut result, "\\\""),
                        '\\' => push_str(&mut result, "\\\\"),
                        '\u{85}' => push_str(&mut result, "\\N"),
                        '\u{A0}' => push_str(&mut result, "\\_"),
                        '\u{2028}' => push_str(&mut result, "\\L"),
                        '\u{2029}' => push_str(&mut result, "\\P"),
                        _ => {
                            if is_control(ch) {
                                let code = ch as u32;
                                push_char(&mut result, '\\');
                                if code <= 0xFF {
                                    push_char(&mut result, 'x');
                                    push_hex_fixed(&mut result, code, 2);
                                } else if code <= 0xFFFF {
                                    push_char(&mut result, 'u');
                                    push_hex_fixed(&mut result, code, 4);
                                } else {
                                    push_char(&mut result, 'U');
                                    push_hex_fixed(&mut result, code, 8);
                                }
                            } else {
                                push_char(&mut result, ch);
                            }
                        },
                    }
                    proof {
                        reveal_strlit("\\0");
                        reveal_strlit("\\a");
                        reveal_strlit("\\b");
                        reveal_strlit("\\t");
                        reveal_strlit("\\n");
                        reveal_strlit("\\v");
                        reveal_strlit("\\f");
                        reveal_strlit("\\r");
                        reveal_strlit("\\e");
                        reveal_strlit("\\\"");
                        reveal_strlit("\\\\");
                        reveal_strlit("\\N");
                        reveal_strlit("\\_");
                        reveal_strlit("\\L");
                        reveal_strlit("\\P");
                        assert(result@ =~= before + escape_char_dq(ch));
                    }
                }
                assert(v@.take(v@.len() as int) =~= v@);
                push_char(&mut result, '"');
            },
            EscapeStyle::SingleQuoted => {
                push_char(&mut result, '\'');
                for i in 0..v.len()
                    invariant
                        result@ == seq!['\''] + escape_body_sq(v@.take(i as int)),
                {
                    let ch = v[i];
                    proof {
                        assert(v@.take(i + 1).drop_last() =~= v@.take(i as int));
                        assert(v@.take(i + 1).last() == ch);
                    }
                    if ch == '\'' {
                        push_char(&mut result, '\'');
                        push_char(&mut result, '\'');
                    } else {
                        push_char(&mut result, ch);
                    }
                }
                assert(v@.take(v@.len() as int) =~= v@);
                push_char(&mut result, '\'');
            },
        }
        result
    }
}

} // verus!
