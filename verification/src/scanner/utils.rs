//! Utility functions for scanner operations: whitespace and comment skipping, character
//! classes, bounded reads, and a string builder.
use vstd::prelude::*;
use crate::error::{Marker, ScanError};
use crate::parser::character_productions::CharacterProductions;
use crate::scanner::state::ScannerState;
use crate::scanner::scalars::{after_line, lemma_after_line};
use crate::lexer::position::{utf8_len, utf8_len_seq, char_len_utf8};
use crate::lexer::unicode::chars::{spec_is_printable, spec_is_ascii_alphanumeric, spec_plain_start_excluded};
use crate::text::{push_char, push_str, push_decimal, decimal, str_to_chars};

verus! {

/// The next character is one the whitespace skipper stops at (or the input has ended).
pub open spec fn stops_skipping(s: &ScannerState) -> bool {
    s.spec_pos() < s.spec_source().len() ==> {
        let c = s.spec_source()[s.spec_pos()];
        c != ' ' && c != '\t' && c != '\n' && c != '\r' && c != '#'
    }
}

/// Where skipping spaces, line breaks (`\r\n` as one) and comments from `p` stops, or
/// the position of a tab, which is an error.
pub open spec fn ws_skip(s: Seq<char>, p: int) -> Result<int, int>
    decreases s.len() - p,
{
    if p < 0 || p >= s.len() {
        Ok(p)
    } else if s[p] == ' ' || s[p] == '\n' {
        ws_skip(s, p + 1)
    } else if s[p] == '\t' {
        Err(p)
    } else if s[p] == '\r' {
        ws_skip(s, if p + 1 < s.len() && s[p + 1] == '\n' { p + 2 } else { p + 1 })
    } else if s[p] == '#' {
        proof { lemma_after_line(s, p + 1); }
        ws_skip(s, after_line(s, p))
    } else {
        Ok(p)
    }
}

/// Skip spaces, line breaks and comments; a tab is an error (`ws_skip`).
pub fn skip_whitespace_and_comments(state: &mut ScannerState) -> (r: Result<(), ScanError>)
    requires
        old(state).wf(),
    ensures
        final(state).read_on_from(old(state)),
        r is Ok ==> stops_skipping(final(state)),
        r is Err ==> final(state).spec_pos() < final(state).spec_source().len()
            && final(state).spec_source()[final(state).spec_pos()] == '\t',
        match ws_skip(old(state).spec_source(), old(state).spec_pos()) {
            Ok(q) => r is Ok && final(state).spec_pos() == q,
            Err(q) => r matches Err(e) && final(state).spec_pos() == q && e.mark == final(state).spec_mark()
                && e.info@ == "tabs are not allowed in YAML, use spaces for indentation"@,
        },
        r is Ok ==> final(state).spec_fetched() > final(state).spec_pos() || final(state).spec_done(),
{
    let ghost goal = ws_skip(old(state).spec_source(), old(state).spec_pos());
    loop
        invariant
            old(state).wf(),
            state.read_on_from(old(state)),
            ws_skip(state.spec_source(), state.spec_pos()) == goal,
            goal == ws_skip(old(state).spec_source(), old(state).spec_pos()),
        ensures
            state.read_on_from(old(state)),
            stops_skipping(state),
            goal == Ok::<int, int>(state.spec_pos()),
            state.spec_fetched() > state.spec_pos() || state.spec_done(),
        decreases state.spec_source().len() - state.spec_pos(),
    {
        let ghost p0 = state.spec_pos();
        proof {
            if p0 < state.spec_source().len() && state.spec_source()[p0] == '#' {
                lemma_after_line(state.spec_source(), p0 + 1);
            }
        }
        match state.peek_char() {
            Ok(' ') => {
                state.consume_char()?;
            },
            Ok('\t') => {
                return Err(ScanError::new(state.mark(), "tabs are not allowed in YAML, use spaces for indentation"));
            },
            Ok('\n') | Ok('\r') => {
                consume_line_break(state)?;
            },
            Ok('#') => {
                skip_comment_line(state)?;
            },
            _ => {
                break;
            },
        }
        assert(state.spec_pos() > p0);
    }
    Ok(())
}

/// Skip spaces; a tab is an error.
pub fn skip_whitespace(state: &mut ScannerState) -> (r: Result<(), ScanError>)
    requires
        old(state).wf(),
    ensures
        final(state).read_on_from(old(state)),
        forall|i: int| old(state).spec_pos() <= i < final(state).spec_pos() ==> final(state).spec_source()[i] == ' ',
        r is Ok ==> (final(state).spec_pos() < final(state).spec_source().len() ==>
            final(state).spec_source()[final(state).spec_pos()] != ' ' && final(state).spec_source()[final(state).spec_pos()] != '\t'),
        r is Err ==> final(state).spec_pos() < final(state).spec_source().len()
            && final(state).spec_source()[final(state).spec_pos()] == '\t',
{
    loop
        invariant
            old(state).wf(),
            state.read_on_from(old(state)),
            forall|i: int| old(state).spec_pos() <= i < state.spec_pos() ==> state.spec_source()[i] == ' ',
        ensures
            state.read_on_from(old(state)),
            forall|i: int| old(state).spec_pos() <= i < state.spec_pos() ==> state.spec_source()[i] == ' ',
            state.spec_pos() < state.spec_source().len() ==>
                state.spec_source()[state.spec_pos()] != ' ' && state.spec_source()[state.spec_pos()] != '\t',
        decreases state.spec_source().len() - state.spec_pos(),
    {
        match state.peek_char() {
            Ok(' ') => {
                state.consume_char()?;
            },
            Ok('\t') => {
                return Err(ScanError::new(state.mark(), "tabs are not allowed in YAML, use spaces for indentation"));
            },
            _ => {
                break;
            },
        }
    }
    Ok(())
}

/// Skip entire comment line including its line break
pub fn skip_comment_line(state: &mut ScannerState) -> (r: Result<(), ScanError>)
    requires
        old(state).wf(),
    ensures
        r is Ok,
        final(state).read_on_from(old(state)),
        old(state).spec_pos() < old(state).spec_source().len() ==> final(state).spec_pos() > old(state).spec_pos(),
        final(state).spec_pos() == after_line(old(state).spec_source(), old(state).spec_pos()),
{
    if let Ok('#') = state.peek_char() {
        let _ = state.consume_char();
    }
    skip_to_next_line(state)
}

/// Consume line break handling both \n and \r\n; any other character is an error.
pub fn consume_line_break(state: &mut ScannerState) -> (r: Result<(), ScanError>)
    requires
        old(state).wf(),
    ensures
        final(state).read_on_from(old(state)),
        r is Ok <==> old(state).spec_pos() < old(state).spec_fetched()
            && (old(state).spec_source()[old(state).spec_pos()] == '\n' || old(state).spec_source()[old(state).spec_pos()] == '\r'),
        r is Ok ==> final(state).spec_pos() > old(state).spec_pos(),
        r is Ok ==> final(state).spec_pos() == (if old(state).spec_source()[old(state).spec_pos()] == '\r'
            && old(state).spec_pos() + 1 < old(state).spec_source().len()
            && old(state).spec_source()[old(state).spec_pos() + 1] == '\n' {
                old(state).spec_pos() + 2
            } else {
                old(state).spec_pos() + 1
            }),
{
    let ch = state.consume_char()?;
    if ch == '\r' {
        if let Ok('\n') = state.peek_char() {
            state.consume_char()?;
        }
    } else if ch == '\n' {
    } else {
        let mut msg = String::new();
        push_str(&mut msg, "expected line break, found '");
        push_char(&mut msg, ch);
        push_char(&mut msg, '\'');
        return Err(ScanError::new(state.mark(), msg.as_str()));
    }
    Ok(())
}

/// Skip to start of next line
pub fn skip_to_next_line(state: &mut ScannerState) -> (r: Result<(), ScanError>)
    requires
        old(state).wf(),
    ensures
        r is Ok,
        final(state).read_on_from(old(state)),
        old(state).spec_pos() < old(state).spec_source().len() ==> final(state).spec_pos() > old(state).spec_pos(),
        final(state).spec_pos() == after_line(old(state).spec_source(), old(state).spec_pos()),
{
    let ghost s = old(state).spec_source();
    let ghost p = old(state).spec_pos();
    loop
        invariant_except_break
            after_line(s, state.spec_pos()) == after_line(s, p),
        invariant
            old(state).wf(),
            state.read_on_from(old(state)),
            s == old(state).spec_source(),
        ensures
            state.read_on_from(old(state)),
            state.spec_pos() > old(state).spec_pos() || state.spec_pos() == state.spec_source().len(),
            state.spec_pos() == after_line(s, p),
        decreases state.spec_source().len() - state.spec_pos(),
    {
        match state.peek_char() {
            Ok(ch) => {
                if ch == '\n' || ch == '\r' {
                    let _ = consume_line_break(state);
                    break;
                }
                let _ = state.consume_char();
            },
            Err(_) => {
                break;
            },
        }
    }
    Ok(())
}

/// Check if character is YAML whitespace
pub fn is_whitespace(ch: char) -> (b: bool)
    ensures
        b == (ch == ' ' || ch == '\t'),
{
    CharacterProductions::is_white(ch)
}

/// Check if character is line break
pub fn is_line_break(ch: char) -> (b: bool)
    ensures
        b == (ch == '\n' || ch == '\r'),
{
    CharacterProductions::is_break(ch)
}

/// Check if character is blank (whitespace or line break)
pub fn is_blank(ch: char) -> (b: bool)
    ensures
        b == (ch == ' ' || ch == '\t' || ch == '\n' || ch == '\r'),
{
    CharacterProductions::is_blank(ch)
}

/// Check if character can start a plain scalar
pub fn can_start_plain_scalar(ch: char) -> (b: bool)
    ensures
        b == !spec_plain_start_excluded(ch),
{
    CharacterProductions::can_start_plain_scalar(ch)
}

pub open spec fn spec_can_continue_in(ch: char, in_flow: bool) -> bool {
    !(ch == ' ' || ch == '\t' || ch == '\n' || ch == '\r') && ch != '#'
        && !(in_flow && (ch == ',' || ch == '[' || ch == ']' || ch == '{' || ch == '}'))
}

/// Check if character can continue a plain scalar; flow indicators end it in flow context
pub fn can_continue_plain_scalar(ch: char, in_flow: bool) -> (b: bool)
    ensures
        b == spec_can_continue_in(ch, in_flow),
{
    if CharacterProductions::is_blank(ch) {
        return false;
    }
    if ch == '#' {
        return false;
    }
    if in_flow && (ch == ',' || ch == '[' || ch == ']' || ch == '{' || ch == '}') {
        return false;
    }
    true
}

pub open spec fn spec_needs_escaping(ch: char) -> bool {
    ch == '"' || ch == '\\' || (ch as u32) <= 0x1F || ch == '\x7F' || ch == '\u{85}' || ch == '\u{A0}'
        || ch == '\u{2028}' || ch == '\u{2029}'
}

/// Check if character needs escaping in double-quoted strings
pub fn needs_escaping_in_double_quoted(ch: char) -> (b: bool)
    ensures
        b == spec_needs_escaping(ch),
{
    ch == '"' || ch == '\\' || (ch as u32) <= 0x1F || ch == '\x7F' || ch == '\u{85}' || ch == '\u{A0}'
        || ch == '\u{2028}' || ch == '\u{2029}'
}

/// Check if character is printable YAML character
pub fn is_printable(ch: char) -> (b: bool)
    ensures
        b == spec_is_printable(ch),
{
    CharacterProductions::is_printable(ch)
}

/// Check if character is valid YAML identifier character
pub fn is_yaml_identifier_char(ch: char) -> (b: bool)
    ensures
        b == (spec_is_ascii_alphanumeric(ch) || ch == '_' || ch == '-'),
{
    crate::lexer::unicode::chars::is_ascii_alphanumeric(ch) || ch == '_' || ch == '-'
}

/// The UTF-8 byte count, held at `usize::MAX` when larger.
pub open spec fn capped_len(s: Seq<char>) -> int {
    if utf8_len_seq(s) <= usize::MAX { utf8_len_seq(s) as int } else { usize::MAX as int }
}

/// Read characters while `predicate` holds; an error once the text read reaches
/// `max_length` bytes and another character would be added.
pub fn read_while<F: Fn(char) -> bool>(
    state: &mut ScannerState,
    predicate: F,
    max_length: usize,
    context: &str,
) -> (r: Result<String, ScanError>)
    requires
        old(state).wf(),
        forall|c: char| predicate.requires((c,)),
    ensures
        final(state).read_on_from(old(state)),
        forall|i: int| old(state).spec_pos() <= i < final(state).spec_pos()
            ==> predicate.ensures((final(state).spec_source()[i],), true),
        utf8_len_seq(final(state).spec_source().subrange(old(state).spec_pos(), final(state).spec_pos())) <= max_length + 3,
        r matches Ok(s) ==> s@ == final(state).spec_source().subrange(old(state).spec_pos(), final(state).spec_pos())
            && (final(state).spec_pos() == final(state).spec_source().len()
                || predicate.ensures((final(state).spec_source()[final(state).spec_pos()],), false)),
        r matches Err(e) ==> e.mark == old(state).spec_mark()
            && final(state).spec_pos() < final(state).spec_source().len()
            && predicate.ensures((final(state).spec_source()[final(state).spec_pos()],), true)
            && utf8_len_seq(final(state).spec_source().subrange(old(state).spec_pos(), final(state).spec_pos())) >= max_length,
{
    let mut result = String::new();
    let mut bytes: usize = 0;
    let start_mark = state.mark();
    loop
        invariant
            old(state).wf(),
            state.read_on_from(old(state)),
            start_mark == old(state).spec_mark(),
            forall|c: char| predicate.requires((c,)),
            result@ == state.spec_source().subrange(old(state).spec_pos(), state.spec_pos()),
            bytes == capped_len(result@),
            utf8_len_seq(result@) <= max_length + 3,
            forall|i: int| old(state).spec_pos() <= i < state.spec_pos()
                ==> predicate.ensures((state.spec_source()[i],), true),
        ensures
            state.read_on_from(old(state)),
            result@ == state.spec_source().subrange(old(state).spec_pos(), state.spec_pos()),
            utf8_len_seq(result@) <= max_length + 3,
            forall|i: int| old(state).spec_pos() <= i < state.spec_pos()
                ==> predicate.ensures((state.spec_source()[i],), true),
            state.spec_pos() == state.spec_source().len()
                || predicate.ensures((state.spec_source()[state.spec_pos()],), false),
        decreases state.spec_source().len() - state.spec_pos(),
    {
        let ch = match state.peek_char() {
            Ok(c) => c,
            Err(_) => { break; },
        };
        if !predicate(ch) {
            break;
        }
        if bytes >= max_length {
            let mut msg = String::new();
            push_str(&mut msg, context);
            push_str(&mut msg, " too long (max ");
            push_decimal(&mut msg, max_length);
            push_str(&mut msg, " characters)");
            return Err(ScanError::new(start_mark, msg.as_str()));
        }
        let ghost ph = state.spec_pos();
        let c = state.consume_char()?;
        assert(state.spec_pos() == ph + 1);
        assert(c == state.spec_source()[ph]);
        let ghost before = result@;
        assert(before == state.spec_source().subrange(old(state).spec_pos(), ph));
        push_char(&mut result, c);
        bytes = bytes.saturating_add(char_len_utf8(c));
        proof {
            assert(old(state).spec_pos() <= ph < state.spec_source().len());
            crate::text::lemma_subrange_extend(state.spec_source(), old(state).spec_pos(), ph);
            assert(result@.drop_last() =~= before);
            assert(utf8_len_seq(result@) == utf8_len_seq(before) + utf8_len(c));
        }
    }
    Ok(result)
}

/// Read exactly n characters
pub fn read_exact_chars(state: &mut ScannerState, n: usize, context: &str) -> (r: Result<String, ScanError>)
    requires
        old(state).wf(),
    ensures
        final(state).read_on_from(old(state)),
        r is Ok <==> old(state).spec_pos() + n <= old(state).spec_fetched(),
        r matches Ok(s) ==> s@ == old(state).spec_source().subrange(old(state).spec_pos(), old(state).spec_pos() + n),
{
    let mut result = String::new();
    for i in 0..n
        invariant
            old(state).wf(),
            state.read_on_from(old(state)),
            state.spec_fetched() == old(state).spec_fetched(),
            state.spec_pos() == old(state).spec_pos() + i,
            result@ == state.spec_source().subrange(old(state).spec_pos(), state.spec_pos()),
    {
        let ghost ph = state.spec_pos();
        match state.consume_char() {
            Ok(ch) => {
                let ghost before = result@;
                assert(ch == state.spec_source()[ph]);
                assert(before == state.spec_source().subrange(old(state).spec_pos(), ph));
                push_char(&mut result, ch);
                proof {
                    assert(old(state).spec_pos() <= ph < state.spec_source().len());
                    crate::text::lemma_subrange_extend(state.spec_source(), old(state).spec_pos(), ph);
                }
            },
            Err(_) => {
                let mut msg = String::new();
                push_str(&mut msg, "unexpected end of input in ");
                push_str(&mut msg, context);
                push_str(&mut msg, " (expected ");
                push_decimal(&mut msg, n);
                push_str(&mut msg, " characters, got ");
                push_decimal(&mut msg, i);
                push_char(&mut msg, ')');
                return Err(ScanError::new(state.mark(), msg.as_str()));
            },
        }
    }
    Ok(result)
}

/// Consume a specific character, or report the one found
pub fn expect_char(state: &mut ScannerState, expected: char, context: &str) -> (r: Result<(), ScanError>)
    requires
        old(state).wf(),
    ensures
        final(state).read_on_from(old(state)),
        r is Ok <==> old(state).spec_pos() < old(state).spec_fetched()
            && old(state).spec_source()[old(state).spec_pos()] == expected,
{
    let ch = state.consume_char()?;
    if ch == expected {
        Ok(())
    } else {
        let mut msg = String::new();
        push_str(&mut msg, "expected '");
        push_char(&mut msg, expected);
        push_str(&mut msg, "' in ");
        push_str(&mut msg, context);
        push_str(&mut msg, ", found '");
        push_char(&mut msg, ch);
        push_char(&mut msg, '\'');
        Err(ScanError::new(state.mark(), msg.as_str()))
    }
}

/// Consume a specific string, character by character, or report where it differs
pub fn expect_string(state: &mut ScannerState, expected: &str, context: &str) -> (r: Result<(), ScanError>)
    requires
        old(state).wf(),
    ensures
        final(state).read_on_from(old(state)),
        r is Ok <==> old(state).spec_pos() + expected@.len() <= old(state).spec_fetched()
            && old(state).spec_source().subrange(old(state).spec_pos(), old(state).spec_pos() + expected@.len()) == expected@,
{
    let v = str_to_chars(expected);
    for i in 0..v.len()
        invariant
            v@ == expected@,
            old(state).wf(),
            state.read_on_from(old(state)),
            state.spec_fetched() == old(state).spec_fetched(),
            state.spec_pos() == old(state).spec_pos() + i,
            forall|j: int| 0 <= j < i ==> old(state).spec_source()[old(state).spec_pos() + j] == expected@[j],
    {
        let ghost ph = state.spec_pos();
        match state.consume_char() {
            Ok(ch) => {
                assert(ch == old(state).spec_source()[old(state).spec_pos() + i]);
                if ch != v[i] {
                    let mut msg = String::new();
                    push_str(&mut msg, "expected '");
                    push_str(&mut msg, expected);
                    push_str(&mut msg, "' in ");
                    push_str(&mut msg, context);
                    push_str(&mut msg, " at position ");
                    push_decimal(&mut msg, i);
                    push_str(&mut msg, ", found '");
                    push_char(&mut msg, ch);
                    push_char(&mut msg, '\'');
                    proof {
                        let ghost p = old(state).spec_pos();
                        if p + expected@.len() <= old(state).spec_fetched() {
                            assert(ch != expected@[i as int]);
                            assert(old(state).spec_source().subrange(p, p + expected@.len())[i as int] == old(state).spec_source()[p + i]);
                        }
                    }
                    return Err(ScanError::new(state.mark(), msg.as_str()));
                }
            },
            Err(_) => {
                let mut msg = String::new();
                push_str(&mut msg, "unexpected end of input in ");
                push_str(&mut msg, context);
                push_str(&mut msg, " (expected '");
                push_str(&mut msg, expected);
                push_str(&mut msg, "', got ");
                push_decimal(&mut msg, i);
                push_str(&mut msg, " characters)");
                return Err(ScanError::new(state.mark(), msg.as_str()));
            },
        }
    }
    assert(old(state).spec_source().subrange(old(state).spec_pos(), old(state).spec_pos() + expected@.len()) =~= expected@);
    Ok(())
}

/// Peek ahead for pattern without consuming
pub fn peek_pattern(state: &mut ScannerState, pattern: &[char]) -> (b: bool)
    requires
        old(state).wf(),
    ensures
        final(state).only_window_grew(old(state)),
        b == (old(state).spec_pos() + pattern@.len() <= old(state).spec_source().len()
            && old(state).spec_source().subrange(old(state).spec_pos(), old(state).spec_pos() + pattern@.len()) == pattern@),
{
    state.check_chars(pattern)
}

/// Check if at end of input
pub fn at_end(state: &mut ScannerState) -> (b: bool)
    ensures
        *final(state) == *old(state),
        b == (old(state).spec_done() && old(state).spec_pos() == old(state).spec_fetched()),
{
    state.is_done()
}

/// Get current position info as string: `"line {line}, column {col + 1}"`
pub fn position_info(marker: Marker) -> (s: String)
    requires
        marker.col < usize::MAX,
    ensures
        s@ == "line "@ + decimal(marker.line as nat) + ", column "@ + decimal((marker.col + 1) as nat),
{
    let mut s = String::new();
    push_str(&mut s, "line ");
    push_decimal(&mut s, marker.line);
    push_str(&mut s, ", column ");
    push_decimal(&mut s, marker.col + 1);
    s
}

/// Validate character is in allowed set
pub fn validate_char_in_set(ch: char, allowed: &[char], position: Marker, context: &str) -> (r: Result<(), ScanError>)
    ensures
        r is Ok <==> allowed@.contains(ch),
        r matches Err(e) ==> e.mark == position,
{
    for i in 0..allowed.len()
        invariant
            forall|j: int| 0 <= j < i ==> allowed@[j] != ch,
    {
        if allowed[i] == ch {
            return Ok(());
        }
    }
    let mut msg = String::new();
    push_str(&mut msg, "invalid character '");
    push_char(&mut msg, ch);
    push_str(&mut msg, "' in ");
    push_str(&mut msg, context);
    Err(ScanError::new(position, msg.as_str()))
}

/// Normalize line endings to LF
pub fn normalize_line_endings(input: &str) -> (out: String)
    ensures
        out@ == crate::lexer::unicode::normalization::normalize_spec(input@),
{
    crate::lexer::unicode::normalization::normalize_line_endings(input)
}

/// Count UTF-8 byte length of string slice
pub fn byte_length(s: &str) -> (n: usize)
    ensures
        n == s.len(),
{
    s.len()
}

/// Count characters (the simplified grapheme count)
pub fn grapheme_count(s: &str) -> (n: usize)
    ensures
        n == s@.len(),
{
    s.unicode_len()
}

/// `String::reserve`: more capacity, the same contents.
#[verifier::external_body]
fn string_reserve(s: &mut String, additional: usize)
    requires
        vstd::utf8::encode_utf8(old(s)@).len() + additional <= isize::MAX,
    ensures
        final(s)@ == old(s)@,
{
    s.reserve(additional);
}

/// String builder for scanner operations
pub struct StringBuilder {
    buffer: String,
    _capacity_hint: usize,
}

impl StringBuilder {
    pub closed spec fn contents(&self) -> Seq<char> {
        self.buffer@
    }

    /// Create new string builder with capacity hint
    pub fn with_capacity(capacity: usize) -> (b: Self)
        ensures
            b.contents() == Seq::<char>::empty(),
    {
        Self { buffer: String::new(), _capacity_hint: capacity }
    }

    /// Push character to buffer
    pub fn push(&mut self, ch: char)
        ensures
            final(self).contents() == old(self).contents().push(ch),
    {
        push_char(&mut self.buffer, ch);
    }

    /// Push string slice to buffer
    pub fn push_str(&mut self, s: &str)
        ensures
            final(self).contents() == old(self).contents() + s@,
    {
        push_str(&mut self.buffer, s);
    }

    /// Get current length in bytes
    pub fn len(&self) -> (n: usize)
        ensures
            utf8_len_seq(self.contents()) <= usize::MAX ==> n == utf8_len_seq(self.contents()),
    {
        let s = self.buffer.as_str();
        proof {
            crate::lexer::position::lemma_utf8_len_is_encoding_len(s@);
        }
        s.len()
    }

    /// Check if empty
    pub fn is_empty(&self) -> (b: bool)
        ensures
            b == (self.contents().len() == 0),
    {
        self.buffer.as_str().is_empty()
    }

    /// Clear buffer
    pub fn clear(&mut self)
        ensures
            final(self).contents() == Seq::<char>::empty(),
    {
        self.buffer = String::new();
    }

    /// Convert to final string
    pub fn into_string(self) -> (s: String)
        ensures
            s@ == self.contents(),
    {
        self.buffer
    }

    /// Get string slice view
    pub fn as_str(&self) -> (s: &str)
        ensures
            s@ == self.contents(),
    {
        self.buffer.as_str()
    }

    /// Reserve additional capacity
    pub fn reserve(&mut self, additional: usize)
        requires
            utf8_len_seq(old(self).contents()) + additional <= isize::MAX,
        ensures
            final(self).contents() == old(self).contents(),
    {
        proof {
            crate::lexer::position::lemma_utf8_len_is_encoding_len(self.buffer@);
        }
        string_reserve(&mut self.buffer, additional);
    }
}

impl Default for StringBuilder {
    fn default() -> (b: Self)
        ensures
            b.contents() == Seq::<char>::empty(),
    {
        Self::with_capacity(32)
    }
}

} // verus!
