//! Directives: `%YAML major.minor`, `%TAG handle prefix`, and reserved `%NAME args...`,
//! scanned after the `%` with their syntax and values checked.
use vstd::prelude::*;
use crate::error::{Marker, ScanError};
use crate::scanner::state::ScannerState;
use crate::lexer::unicode::chars::spec_is_ascii_alphanumeric;
use crate::lexer::unicode::is_hex_digit;
use crate::text::{push_char, push_str, push_decimal, decimal, decimal_value, str_eq, lemma_subrange_extend};
use crate::lexer::scanner::{run_end, lemma_run_end, lemma_run_end_unique};

verus! {

/// Directive types for type-safe handling
#[derive(Debug, Clone)]
pub enum Directive {
    /// YAML version directive: %YAML major.minor
    Version { major: u32, minor: u32 },
    /// TAG directive: %TAG handle prefix
    Tag { handle: String, prefix: String },
    /// Reserved directive: %NAME args...
    Reserved { name: String, args: Vec<String> },
}

/// `char::is_whitespace`: the Unicode White_Space characters.
pub open spec fn spec_is_whitespace(ch: char) -> bool {
    ch == ' ' || ('\t' <= ch <= '\r') || ch == '\u{85}' || ch == '\u{A0}' || ch == '\u{1680}'
        || ('\u{2000}' <= ch <= '\u{200A}') || ch == '\u{2028}' || ch == '\u{2029}' || ch == '\u{202F}'
        || ch == '\u{205F}' || ch == '\u{3000}'
}

fn is_whitespace(ch: char) -> (b: bool)
    ensures
        b == spec_is_whitespace(ch),
{
    ch == ' ' || ('\t' <= ch && ch <= '\r') || ch == '\u{85}' || ch == '\u{A0}' || ch == '\u{1680}'
        || ('\u{2000}' <= ch && ch <= '\u{200A}') || ch == '\u{2028}' || ch == '\u{2029}' || ch == '\u{202F}'
        || ch == '\u{205F}' || ch == '\u{3000}'
}

/// An ASCII letter.
pub open spec fn spec_is_ascii_alpha(ch: char) -> bool {
    ('a' <= ch <= 'z') || ('A' <= ch <= 'Z')
}

/// A character after the first of a directive name (and of a named tag handle).
pub open spec fn spec_name_rest_char(ch: char) -> bool {
    spec_is_ascii_alphanumeric(ch) || ch == '-' || ch == '_'
}

fn is_name_rest_char(ch: char) -> (b: bool)
    ensures
        b == spec_name_rest_char(ch),
{
    ('0' <= ch && ch <= '9') || ('a' <= ch && ch <= 'z') || ('A' <= ch && ch <= 'Z') || ch == '-' || ch == '_'
}

/// A character of a tag prefix besides `%` escapes.
pub open spec fn spec_prefix_char(ch: char) -> bool {
    spec_is_ascii_alphanumeric(ch) || ch == '-' || ch == '_' || ch == '.' || ch == '~' || ch == ':'
        || ch == '/' || ch == '?' || ch == '#' || ch == '[' || ch == ']' || ch == '@' || ch == '!'
        || ch == '$' || ch == '&' || ch == '\'' || ch == '(' || ch == ')' || ch == '*' || ch == '+'
        || ch == ',' || ch == ';' || ch == '='
}

fn is_tag_prefix_char(ch: char) -> (b: bool)
    ensures
        b == spec_prefix_char(ch),
{
    ('0' <= ch && ch <= '9') || ('a' <= ch && ch <= 'z') || ('A' <= ch && ch <= 'Z') || ch == '-' || ch == '_'
        || ch == '.' || ch == '~' || ch == ':' || ch == '/' || ch == '?' || ch == '#' || ch == '['
        || ch == ']' || ch == '@' || ch == '!' || ch == '$' || ch == '&' || ch == '\'' || ch == '('
        || ch == ')' || ch == '*' || ch == '+' || ch == ',' || ch == ';' || ch == '='
}

/// The text consumed between two states of one scan.
pub open spec fn consumed(old: &ScannerState, new: &ScannerState) -> Seq<char> {
    old.spec_source().subrange(old.spec_pos(), new.spec_pos())
}

/// The character at the scan position, if any.
pub open spec fn next_char(st: &ScannerState) -> Option<char> {
    if st.spec_pos() < st.spec_source().len() { Some(st.spec_source()[st.spec_pos()]) } else { None }
}

fn skip_whitespace(state: &mut ScannerState)
    requires
        old(state).wf(),
    ensures
        final(state).read_on_from(old(state)),
        forall|i: int| old(state).spec_pos() <= i < final(state).spec_pos()
            ==> (#[trigger] final(state).spec_source()[i] == ' ' || final(state).spec_source()[i] == '\t'),
        next_char(final(state)) != Some(' ') && next_char(final(state)) != Some('\t'),
        final(state).spec_pos() == blanks_end(old(state).spec_source(), old(state).spec_pos()),
{
    loop
        invariant
            state.read_on_from(old(state)),
            forall|i: int| old(state).spec_pos() <= i < state.spec_pos()
                ==> (#[trigger] state.spec_source()[i] == ' ' || state.spec_source()[i] == '\t'),
        ensures
            state.read_on_from(old(state)),
            forall|i: int| old(state).spec_pos() <= i < state.spec_pos()
                ==> (#[trigger] state.spec_source()[i] == ' ' || state.spec_source()[i] == '\t'),
            next_char(state) != Some(' ') && next_char(state) != Some('\t'),
        decreases state.spec_source().len() - state.spec_pos(),
    {
        match state.peek_char() {
            Ok(' ') | Ok('\t') => {
                let _ = state.consume_char();
            },
            _ => {
                break;
            },
        }
    }
    proof {
        lemma_run_end_unique(old(state).spec_source(), old(state).spec_pos(), state.spec_pos(),
            |c: char| c == ' ' || c == '\t');
    }
}

/// A directive name: an ASCII letter, then letters, digits, `-` and `_`, 32 at most.
pub open spec fn valid_directive_name(n: Seq<char>) -> bool {
    &&& 1 <= n.len() <= 32
    &&& spec_is_ascii_alpha(n[0])
    &&& forall|i: int| 1 <= i < n.len() ==> spec_name_rest_char(#[trigger] n[i])
}

fn scan_directive_name(state: &mut ScannerState) -> (r: Result<String, ScanError>)
    requires
        old(state).wf(),
    ensures
        final(state).read_on_from(old(state)),
        r matches Ok(n) ==> n@ == consumed(old(state), final(state)) && valid_directive_name(n@)
            && !(next_char(final(state)) matches Some(c) && spec_name_rest_char(c)),
        r matches Err(e) ==> e.mark == old(state).spec_mark(),
        r is Err <==> (next_char(old(state)) matches Some(c) ==> !spec_is_ascii_alpha(c))
            || consumed(old(state), final(state)).len() > 32,
        r is Ok <==> old(state).spec_pos() < old(state).spec_source().len()
            && spec_is_ascii_alpha(old(state).spec_source()[old(state).spec_pos()])
            && name_end(old(state).spec_source(), old(state).spec_pos() + 1) - old(state).spec_pos() <= 32,
        r is Ok ==> final(state).spec_pos() == name_end(old(state).spec_source(), old(state).spec_pos() + 1),
{
    let ghost s = old(state).spec_source();
    let ghost p0 = old(state).spec_pos();
    let start_mark = state.mark();
    let mut name = String::new();
    let first = match state.peek_char() {
        Ok(c) => c,
        Err(e) => { return Err(e); },
    };
    if !(('a' <= first && first <= 'z') || ('A' <= first && first <= 'Z')) {
        let mut msg = String::new();
        push_str(&mut msg, "invalid directive name start character '");
        push_char(&mut msg, first);
        push_char(&mut msg, '\'');
        return Err(ScanError::new(start_mark, msg.as_str()));
    }
    let c = state.consume_char()?;
    push_char(&mut name, c);
    let mut n: usize = 1;
    assert(name@ =~= s.subrange(p0, p0 + 1));
    loop
        invariant
            s == old(state).spec_source(),
            p0 == old(state).spec_pos(),
            old(state).wf(),
            start_mark == old(state).spec_mark(),
            state.read_on_from(old(state)),
            state.spec_pos() == p0 + n,
            1 <= n <= 32,
            name@ == s.subrange(p0, state.spec_pos()),
            spec_is_ascii_alpha(s[p0]),
            forall|i: int| p0 + 1 <= i < state.spec_pos() ==> spec_name_rest_char(#[trigger] s[i]),
            name_end(s, state.spec_pos()) == name_end(s, p0 + 1),
        ensures
            state.read_on_from(old(state)),
            name@ == s.subrange(p0, state.spec_pos()),
            state.spec_pos() == p0 + n,
            1 <= n <= 32,
            name_end(s, p0 + 1) == state.spec_pos(),
            forall|i: int| p0 + 1 <= i < state.spec_pos() ==> spec_name_rest_char(#[trigger] s[i]),
            !(next_char(state) matches Some(c) && spec_name_rest_char(c)),
        decreases s.len() - state.spec_pos(),
    {
        let ghost i = state.spec_pos();
        match state.peek_char() {
            Ok(ch) => {
                if is_name_rest_char(ch) {
                    let c = state.consume_char()?;
                    push_char(&mut name, c);
                    proof { lemma_subrange_extend(s, p0, i); }
                    if n == 32 {
                        proof { lemma_run_end(s, state.spec_pos(), |c: char| spec_name_rest_char(c)); }
                        return Err(ScanError::new(start_mark, "directive name too long (max 32 characters)"));
                    }
                    n = n + 1;
                } else {
                    break;
                }
            },
            Err(_) => {
                break;
            },
        }
    }
    proof {
        assert forall|i: int| 1 <= i < name@.len() implies spec_name_rest_char(#[trigger] name@[i]) by {
            assert(name@[i] == s[p0 + i]);
        }
    }
    Ok(name)
}

/// Ten to the power `n`.
pub open spec fn pow10(n: nat) -> nat
    decreases n,
{
    if n == 0 { 1 } else { 10 * pow10((n - 1) as nat) }
}

/// A version number: one to six ASCII digits.
pub open spec fn valid_version_digits(d: Seq<char>) -> bool {
    1 <= d.len() <= 6 && forall|i: int| 0 <= i < d.len() ==> '0' <= #[trigger] d[i] <= '9'
}

proof fn lemma_pow10_mono(a: nat, b: nat)
    requires
        a <= b,
    ensures
        pow10(a) <= pow10(b),
    decreases b,
{
    if a < b {
        lemma_pow10_mono(a, (b - 1) as nat);
    }
}

fn scan_version_number(state: &mut ScannerState, context: &str) -> (r: Result<u32, ScanError>)
    requires
        old(state).wf(),
    ensures
        final(state).read_on_from(old(state)),
        r matches Ok(v) ==> valid_version_digits(consumed(old(state), final(state)))
            && v == decimal_value(consumed(old(state), final(state)))
            && !(next_char(final(state)) matches Some(c) && '0' <= c <= '9'),
        r matches Err(e) ==> e.mark == old(state).spec_mark(),
        r is Err <==> consumed(old(state), final(state)).len() == 0 || consumed(old(state), final(state)).len() > 6,
{
    let ghost s = old(state).spec_source();
    let ghost p0 = old(state).spec_pos();
    let start_mark = state.mark();
    let mut n: usize = 0;
    let mut value: u32 = 0;
    loop
        invariant
            s == old(state).spec_source(),
            p0 == old(state).spec_pos(),
            old(state).wf(),
            start_mark == old(state).spec_mark(),
            state.read_on_from(old(state)),
            state.spec_pos() == p0 + n,
            n <= 6,
            forall|i: int| p0 <= i < state.spec_pos() ==> '0' <= #[trigger] s[i] <= '9',
            value == decimal_value(s.subrange(p0, state.spec_pos())),
            value < pow10(n as nat),
        ensures
            state.read_on_from(old(state)),
            state.spec_pos() == p0 + n,
            n <= 6,
            forall|i: int| p0 <= i < state.spec_pos() ==> '0' <= #[trigger] s[i] <= '9',
            value == decimal_value(s.subrange(p0, state.spec_pos())),
            !(next_char(state) matches Some(c) && '0' <= c <= '9'),
        decreases s.len() - state.spec_pos(),
    {
        let ghost i = state.spec_pos();
        match state.peek_char() {
            Ok(ch) => {
                if '0' <= ch && ch <= '9' {
                    let c = state.consume_char()?;
                    proof {
                        lemma_subrange_extend(s, p0, i);
                        assert(s.subrange(p0, i + 1).drop_last() =~= s.subrange(p0, i));
                    }
                    if n == 6 {
                        let mut msg = String::new();
                        push_str(&mut msg, context);
                        push_str(&mut msg, " number too long");
                        return Err(ScanError::new(start_mark, msg.as_str()));
                    }
                    proof {
                        assert(pow10((n + 1) as nat) == 10 * pow10(n as nat));
                        assert(value * 10 + 9 < 10 * pow10(n as nat)) by (nonlinear_arith)
                            requires value < pow10(n as nat);
                        assert(pow10(n as nat) <= 100000) by {
                            reveal_with_fuel(pow10, 6);
                            assert(pow10(5) == 100000);
                            lemma_pow10_mono(n as nat, 5);
                        }
                    }
                    value = value * 10 + ((c as u32) - ('0' as u32));
                    n = n + 1;
                } else {
                    break;
                }
            },
            Err(_) => {
                break;
            },
        }
    }
    if n == 0 {
        let mut msg = String::new();
        push_str(&mut msg, "expected ");
        push_str(&mut msg, context);
        push_str(&mut msg, " number");
        return Err(ScanError::new(start_mark, msg.as_str()));
    }
    Ok(value)
}

/// The versions accepted: 1.x; 0.x and majors above 1 are refused.
pub open spec fn supported_version(major: u32, minor: u32) -> bool {
    major == 1
}

/// The message for a refused version.
pub open spec fn version_message(major: u32, minor: u32) -> Seq<char> {
    if major == 0 {
        "invalid YAML version (major version cannot be 0)"@
    } else {
        "unsupported YAML version "@ + decimal(major as nat) + "."@ + decimal(minor as nat)
    }
}

/// Validate YAML version
pub fn validate_yaml_version(major: u32, minor: u32, position: Marker) -> (r: Result<(), ScanError>)
    ensures
        r is Ok <==> supported_version(major, minor),
        r matches Err(e) ==> e.mark == position && e.info@ == version_message(major, minor),
{
    if major == 1 {
        Ok(())
    } else if major == 0 {
        Err(ScanError::new(position, "invalid YAML version (major version cannot be 0)"))
    } else {
        let mut msg = String::new();
        push_str(&mut msg, "unsupported YAML version ");
        push_decimal(&mut msg, major as usize);
        push_str(&mut msg, ".");
        push_decimal(&mut msg, minor as usize);
        Err(ScanError::new(position, msg.as_str()))
    }
}

fn require_whitespace(state: &mut ScannerState, context: &str) -> (r: Result<(), ScanError>)
    requires
        old(state).wf(),
    ensures
        final(state).read_on_from(old(state)),
        r is Ok <==> (next_char(old(state)) == Some(' ') || next_char(old(state)) == Some('\t')),
        forall|i: int| old(state).spec_pos() <= i < final(state).spec_pos()
            ==> (#[trigger] final(state).spec_source()[i] == ' ' || final(state).spec_source()[i] == '\t'),
        r is Ok ==> next_char(final(state)) != Some(' ') && next_char(final(state)) != Some('\t'),
{
    match state.peek_char() {
        Ok(' ') | Ok('\t') => {},
        _ => {
            let mut msg = String::new();
            push_str(&mut msg, "expected whitespace in ");
            push_str(&mut msg, context);
            return Err(ScanError::new(state.mark(), msg.as_str()));
        },
    }
    skip_whitespace(state);
    Ok(())
}

fn ensure_line_end(state: &mut ScannerState, context: &str) -> (r: Result<(), ScanError>)
    requires
        old(state).wf(),
    ensures
        final(state).only_window_grew(old(state)),
        r is Ok <==> match next_char(old(state)) {
            None => true,
            Some(c) => c == '#' || c == '\n' || c == '\r',
        },
{
    match state.peek_char() {
        Ok(ch) => {
            if ch == '#' || ch == '\n' || ch == '\r' {
                Ok(())
            } else {
                let mut msg = String::new();
                push_str(&mut msg, "unexpected character '");
                push_char(&mut msg, ch);
                push_str(&mut msg, "' after ");
                push_str(&mut msg, context);
                Err(ScanError::new(state.mark(), msg.as_str()))
            }
        },
        Err(_) => Ok(()),
    }
}

fn is_line_end(state: &mut ScannerState) -> (b: bool)
    requires
        old(state).wf(),
    ensures
        final(state).only_window_grew(old(state)),
        b == match next_char(old(state)) {
            None => true,
            Some(c) => c == '\n' || c == '\r',
        },
{
    match state.peek_char() {
        Ok(ch) => ch == '\n' || ch == '\r',
        Err(_) => true,
    }
}

/// The end of the run of name characters from `i`.
pub open spec fn name_end(s: Seq<char>, i: int) -> int {
    run_end(s, i, |c: char| spec_name_rest_char(c))
}

/// The end of a directive argument from `i`: the first white space, or the end.
pub open spec fn arg_end(s: Seq<char>, i: int) -> int {
    run_end(s, i, |c: char| !spec_is_whitespace(c))
}

/// Whether a TAG directive's handle can be read at `p`: `!` alone before white space or the
/// end, or `!`, name characters and a closing `!`, 64 characters at most.
pub open spec fn handle_ok(s: Seq<char>, p: int) -> bool {
    let j = name_end(s, p + 1);
    &&& 0 <= p < s.len() && s[p] == '!'
    &&& ((j < s.len() && s[j] == '!' && j + 1 - p <= 64) || (j == p + 1 && (j >= s.len() || spec_is_whitespace(s[j]))))
}

/// Where a tag prefix from `i` ends: at white space or the end, after prefix characters
/// and `%XY` escapes; none at any other character.
pub open spec fn prefix_scan(s: Seq<char>, i: int) -> Option<int>
    decreases s.len() - i,
{
    if i < 0 || i >= s.len() || spec_is_whitespace(s[i]) {
        Some(i)
    } else if spec_prefix_char(s[i]) {
        prefix_scan(s, i + 1)
    } else if s[i] == '%' {
        if i + 2 < s.len() && is_hex_digit(s[i + 1]) && is_hex_digit(s[i + 2]) { prefix_scan(s, i + 3) } else { None }
    } else {
        None
    }
}

/// The end of a run of spaces and tabs from `i`.
pub open spec fn blanks_end(s: Seq<char>, i: int) -> int {
    run_end(s, i, |c: char| c == ' ' || c == '\t')
}

/// The arguments of a reserved directive from `i` (after white space): white-space
/// separated runs up to the line's end or a white space character other than a space or
/// tab, and where they end; none when one is longer than 256 characters.
pub open spec fn reserved_args(s: Seq<char>, i: int) -> Option<(Seq<Seq<char>>, int)>
    decreases s.len() - i,
{
    if i < 0 || i >= s.len() || s[i] == '\n' || s[i] == '\r' {
        Some((Seq::empty(), i))
    } else {
        let e = arg_end(s, i);
        proof {
            lemma_run_end(s, i, |c: char| !spec_is_whitespace(c));
            lemma_run_end(s, e, |c: char| c == ' ' || c == '\t');
        }
        if e - i > 256 {
            None
        } else if e == i {
            Some((Seq::empty(), i))
        } else {
            match reserved_args(s, blanks_end(s, e)) {
                Some((v, f)) => Some((seq![s.subrange(i, e)] + v, f)),
                None => None,
            }
        }
    }
}

/// A tag prefix ends no earlier than it starts.
pub proof fn lemma_prefix_scan_ge(s: Seq<char>, i: int)
    requires
        0 <= i,
    ensures
        prefix_scan(s, i) matches Some(e) ==> e >= i,
    decreases s.len() - i,
{
    if i < s.len() && !spec_is_whitespace(s[i]) {
        if spec_prefix_char(s[i]) {
            lemma_prefix_scan_ge(s, i + 1);
        } else if s[i] == '%' && i + 2 < s.len() {
            lemma_prefix_scan_ge(s, i + 3);
        }
    }
}

/// A named handle in a TAG directive: `!`, or `!` and name characters closed by `!`, 64
/// characters at most.
pub open spec fn valid_directive_handle(h: Seq<char>) -> bool {
    &&& 1 <= h.len() <= 64
    &&& h[0] == '!'
    &&& (h.len() == 1 || h.last() == '!')
    &&& forall|i: int| 1 <= i < h.len() - 1 ==> spec_name_rest_char(#[trigger] h[i])
}

fn scan_tag_handle_directive(state: &mut ScannerState) -> (r: Result<String, ScanError>)
    requires
        old(state).wf(),
    ensures
        final(state).read_on_from(old(state)),
        r matches Ok(h) ==> h@ == consumed(old(state), final(state)) && valid_directive_handle(h@),
        r is Ok <==> handle_ok(old(state).spec_source(), old(state).spec_pos()),
{
    let ghost s = old(state).spec_source();
    let ghost p0 = old(state).spec_pos();
    let start_mark = state.mark();
    state.peek_char()?;
    let c = state.consume_char()?;
    if c != '!' {
        return Err(ScanError::new(start_mark, "tag handle must start with '!'"));
    }
    let mut handle = String::new();
    push_char(&mut handle, '!');
    let mut n: usize = 1;
    let mut closed = false;
    assert(handle@ =~= s.subrange(p0, p0 + 1));
    loop
        invariant
            s == old(state).spec_source(),
            p0 == old(state).spec_pos(),
            old(state).wf(),
            p0 < s.len() && s[p0] == '!',
            state.read_on_from(old(state)),
            state.spec_pos() == p0 + n,
            1 <= n <= 64,
            handle@ == s.subrange(p0, state.spec_pos()),
            !closed ==> forall|i: int| p0 + 1 <= i < state.spec_pos() ==> spec_name_rest_char(#[trigger] s[i]),
            closed ==> n >= 2 && s[p0 + n - 1] == '!'
                && forall|i: int| p0 + 1 <= i < state.spec_pos() - 1 ==> spec_name_rest_char(#[trigger] s[i]),
            !closed ==> name_end(s, state.spec_pos()) == name_end(s, p0 + 1),
            closed ==> state.spec_pos() - 1 == name_end(s, p0 + 1),
        ensures
            state.read_on_from(old(state)),
            state.spec_pos() == p0 + n,
            1 <= n <= 64,
            handle@ == s.subrange(p0, state.spec_pos()),
            closed ==> n >= 2 && s[p0 + n - 1] == '!'
                && forall|i: int| p0 + 1 <= i < state.spec_pos() - 1 ==> spec_name_rest_char(#[trigger] s[i]),
            !closed ==> forall|i: int| p0 + 1 <= i < state.spec_pos() ==> spec_name_rest_char(#[trigger] s[i]),
            closed ==> state.spec_pos() - 1 == name_end(s, p0 + 1),
            !closed ==> name_end(s, p0 + 1) == state.spec_pos()
                && (state.spec_pos() >= s.len() || spec_is_whitespace(s[state.spec_pos()])),
        decreases s.len() - state.spec_pos(), (if closed { 0int } else { 1int }),
    {
        if closed {
            break;
        }
        let ghost i = state.spec_pos();
        match state.peek_char() {
            Ok(ch) => {
                if is_name_rest_char(ch) {
                    let c = state.consume_char()?;
                    push_char(&mut handle, c);
                    proof { lemma_subrange_extend(s, p0, i); }
                } else if ch == '!' {
                    let c = state.consume_char()?;
                    push_char(&mut handle, c);
                    proof { lemma_subrange_extend(s, p0, i); }
                    closed = true;
                } else if is_whitespace(ch) {
                    break;
                } else {
                    let mut msg = String::new();
                    push_str(&mut msg, "invalid character '");
                    push_char(&mut msg, ch);
                    push_str(&mut msg, "' in tag handle");
                    return Err(ScanError::new(state.mark(), msg.as_str()));
                }
                if n == 64 {
                    proof {
                        if !closed {
                            lemma_run_end(s, state.spec_pos(), |c: char| spec_name_rest_char(c));
                        }
                    }
                    return Err(ScanError::new(start_mark, "tag handle too long (max 64 characters)"));
                }
                n = n + 1;
            },
            Err(_) => {
                break;
            },
        }
    }
    if n > 1 && !closed {
        return Err(ScanError::new(start_mark, "tag handle must end with '!' (except primary handle)"));
    }
    proof {
        assert forall|i: int| 1 <= i < handle@.len() - 1 implies spec_name_rest_char(#[trigger] handle@[i]) by {
            assert(handle@[i] == s[p0 + i]);
        }
        if n > 1 {
            assert(handle@.last() == s[p0 + n - 1]);
        }
    }
    Ok(handle)
}

/// A tag prefix as written: prefix characters and `%XY` escapes, 1024 characters at most.
pub open spec fn prefix_text_ok(p: Seq<char>, i: int) -> bool
    decreases p.len() - i,
{
    if i < 0 || i >= p.len() {
        true
    } else if p[i] == '%' {
        i + 2 < p.len() && is_hex_digit(p[i + 1]) && is_hex_digit(p[i + 2]) && prefix_text_ok(p, i + 3)
    } else {
        spec_prefix_char(p[i]) && prefix_text_ok(p, i + 1)
    }
}

fn scan_tag_prefix_directive(state: &mut ScannerState) -> (r: Result<String, ScanError>)
    requires
        old(state).wf(),
    ensures
        final(state).read_on_from(old(state)),
        r matches Ok(p) ==> p@ == consumed(old(state), final(state)) && 1 <= p@.len() <= 1024
            && prefix_text_ok(p@, 0),
        match prefix_scan(old(state).spec_source(), old(state).spec_pos()) {
            Some(e) => (r is Ok <==> 1 <= e - old(state).spec_pos() <= 1024) && (r is Ok ==> final(state).spec_pos() == e),
            None => r is Err,
        },
{
    let ghost s = old(state).spec_source();
    let ghost p0 = old(state).spec_pos();
    let start_mark = state.mark();
    let mut prefix = String::new();
    let mut n: usize = 0;
    loop
        invariant
            s == old(state).spec_source(),
            p0 == old(state).spec_pos(),
            old(state).wf(),
            state.read_on_from(old(state)),
            state.spec_pos() == p0 + n,
            n <= 1024,
            prefix@ == s.subrange(p0, state.spec_pos()),
            prefix_text_ok(prefix@, 0),
            prefix_scan(s, state.spec_pos()) == prefix_scan(s, p0),
        ensures
            state.read_on_from(old(state)),
            state.spec_pos() == p0 + n,
            n <= 1024,
            prefix@ == s.subrange(p0, state.spec_pos()),
            prefix_text_ok(prefix@, 0),
            prefix_scan(s, p0) == Some(state.spec_pos()),
        decreases s.len() - state.spec_pos(),
    {
        let ghost i = state.spec_pos();
        let ghost before = prefix@;
        match state.peek_char() {
            Ok(ch) => {
                if is_tag_prefix_char(ch) {
                    let c = state.consume_char()?;
                    push_char(&mut prefix, c);
                    proof {
                        lemma_subrange_extend(s, p0, i);
                        assert(prefix_text_ok(seq![c], 1));
                        assert(prefix_text_ok(seq![c], 0));
                        lemma_prefix_text_push(before, seq![c], 0);
                        assert(before + seq![c] =~= prefix@);
                    }
                    n = n + 1;
                } else if ch == '%' {
                    let pct = state.consume_char()?;
                    state.peek_char()?;
                    let h1 = state.consume_char()?;
                    if !crate::lexer::unicode::is_ascii_hexdigit(h1) {
                        let mut msg = String::new();
                        push_str(&mut msg, "invalid hex digit '");
                        push_char(&mut msg, h1);
                        push_str(&mut msg, "' in percent encoding");
                        return Err(ScanError::new(state.mark(), msg.as_str()));
                    }
                    state.peek_char()?;
                    let h2 = state.consume_char()?;
                    if !crate::lexer::unicode::is_ascii_hexdigit(h2) {
                        let mut msg = String::new();
                        push_str(&mut msg, "invalid hex digit '");
                        push_char(&mut msg, h2);
                        push_str(&mut msg, "' in percent encoding");
                        return Err(ScanError::new(state.mark(), msg.as_str()));
                    }
                    push_char(&mut prefix, pct);
                    push_char(&mut prefix, h1);
                    push_char(&mut prefix, h2);
                    proof {
                        lemma_subrange_extend(s, p0, i);
                        lemma_subrange_extend(s, p0, i + 1);
                        lemma_subrange_extend(s, p0, i + 2);
                        assert(pct == '%');
                        assert(prefix_text_ok(seq![pct, h1, h2], 3));
                        assert(prefix_text_ok(seq![pct, h1, h2], 0));
                        lemma_prefix_text_push(before, seq![pct, h1, h2], 0);
                        assert(before + seq![pct, h1, h2] =~= prefix@);
                    }
                    n = n + 3;
                } else if is_whitespace(ch) || ch == '\n' || ch == '\r' {
                    break;
                } else {
                    let mut msg = String::new();
                    push_str(&mut msg, "invalid character '");
                    push_char(&mut msg, ch);
                    push_str(&mut msg, "' in tag prefix");
                    return Err(ScanError::new(state.mark(), msg.as_str()));
                }
                if n > 1024 {
                    proof { lemma_prefix_scan_ge(s, state.spec_pos()); }
                    return Err(ScanError::new(start_mark, "tag prefix too long (max 1024 characters)"));
                }
            },
            Err(_) => {
                break;
            },
        }
    }
    if n == 0 {
        return Err(ScanError::new(start_mark, "empty tag prefix"));
    }
    Ok(prefix)
}

/// Appending a well-formed piece keeps a prefix text well formed.
pub proof fn lemma_prefix_text_push(a: Seq<char>, b: Seq<char>, i: int)
    requires
        0 <= i <= a.len(),
        prefix_text_ok(a, i),
        prefix_text_ok(b, 0),
    ensures
        prefix_text_ok(a + b, i),
    decreases a.len() - i,
{
    if i == a.len() {
        lemma_prefix_text_shift(a, b, 0);
    } else if a[i] == '%' {
        lemma_prefix_text_push(a, b, i + 3);
    } else {
        lemma_prefix_text_push(a, b, i + 1);
    }
}

proof fn lemma_prefix_text_shift(a: Seq<char>, b: Seq<char>, j: int)
    requires
        0 <= j <= b.len(),
        prefix_text_ok(b, j),
    ensures
        prefix_text_ok(a + b, a.len() + j),
    decreases b.len() - j,
{
    let c = a + b;
    let k = a.len() + j;
    if j < b.len() {
        assert(c[k] == b[j]);
        if b[j] == '%' {
            assert(c[k + 1] == b[j + 1]);
            assert(c[k + 2] == b[j + 2]);
            lemma_prefix_text_shift(a, b, j + 3);
        } else {
            lemma_prefix_text_shift(a, b, j + 1);
        }
    }
}

fn scan_directive_argument(state: &mut ScannerState) -> (r: Result<String, ScanError>)
    requires
        old(state).wf(),
    ensures
        final(state).read_on_from(old(state)),
        forall|i: int| old(state).spec_pos() <= i < final(state).spec_pos()
            ==> !spec_is_whitespace(#[trigger] final(state).spec_source()[i]),
        r matches Ok(a) ==> a@ == consumed(old(state), final(state)) && a@.len() <= 256
            && (next_char(final(state)) matches Some(c) ==> spec_is_whitespace(c)),
        r is Ok <==> arg_end(old(state).spec_source(), old(state).spec_pos()) - old(state).spec_pos() <= 256,
        r is Ok ==> final(state).spec_pos() == arg_end(old(state).spec_source(), old(state).spec_pos()),
{
    let ghost s = old(state).spec_source();
    let ghost p0 = old(state).spec_pos();
    let mut arg = String::new();
    let mut n: usize = 0;
    loop
        invariant
            s == old(state).spec_source(),
            p0 == old(state).spec_pos(),
            old(state).wf(),
            state.read_on_from(old(state)),
            state.spec_pos() == p0 + n,
            n <= 256,
            arg@ == s.subrange(p0, state.spec_pos()),
            forall|i: int| p0 <= i < state.spec_pos() ==> !spec_is_whitespace(#[trigger] s[i]),
            arg_end(s, state.spec_pos()) == arg_end(s, p0),
        ensures
            arg_end(s, state.spec_pos()) == state.spec_pos(),
            arg_end(s, p0) == state.spec_pos(),
            state.read_on_from(old(state)),
            state.spec_pos() == p0 + n,
            n <= 256,
            arg@ == s.subrange(p0, state.spec_pos()),
            forall|i: int| p0 <= i < state.spec_pos() ==> !spec_is_whitespace(#[trigger] s[i]),
            next_char(state) matches Some(c) ==> spec_is_whitespace(c),
        decreases s.len() - state.spec_pos(),
    {
        let ghost i = state.spec_pos();
        match state.peek_char() {
            Ok(ch) => {
                if is_whitespace(ch) || ch == '\n' || ch == '\r' {
                    break;
                }
                let c = state.consume_char()?;
                push_char(&mut arg, c);
                proof { lemma_subrange_extend(s, p0, i); }
                if n == 256 {
                    proof { lemma_run_end(s, state.spec_pos(), |c: char| !spec_is_whitespace(c)); }
                    return Err(ScanError::new(state.mark(), "directive argument too long (max 256 characters)"));
                }
                n = n + 1;
            },
            Err(_) => {
                break;
            },
        }
    }
    Ok(arg)
}

fn scan_reserved_directive(state: &mut ScannerState, name: String) -> (r: Result<Directive, ScanError>)
    requires
        old(state).wf(),
    ensures
        final(state).read_on_from(old(state)),
        r matches Ok(d) ==> d matches Directive::Reserved { name: n, args } && n@ == name@
            && forall|i: int| 0 <= i < args@.len() ==> 1 <= (#[trigger] args@[i])@.len() <= 256,
        match reserved_args(old(state).spec_source(), blanks_end(old(state).spec_source(), old(state).spec_pos())) {
            Some((v, f)) => r matches Ok(Directive::Reserved { args, .. }) && args@.map_values(|a: String| a@) == v
                && final(state).spec_pos() == f,
            None => r is Err,
        },
{
    let ghost s = old(state).spec_source();
    let ghost p = old(state).spec_pos();
    let mut args: Vec<String> = Vec::new();
    skip_whitespace(state);
    loop
        invariant_except_break
            match reserved_args(s, state.spec_pos()) {
                Some((v, f)) => reserved_args(s, blanks_end(s, p)) == Some((args@.map_values(|a: String| a@) + v, f)),
                None => reserved_args(s, blanks_end(s, p)) is None,
            },
            state.spec_pos() == blanks_end(s, state.spec_pos()),
        invariant
            old(state).wf(),
            state.read_on_from(old(state)),
            s == old(state).spec_source(),
            p == old(state).spec_pos(),
            forall|i: int| 0 <= i < args@.len() ==> 1 <= (#[trigger] args@[i])@.len() <= 256,
        ensures
            state.read_on_from(old(state)),
            reserved_args(s, blanks_end(s, p)) == Some((args@.map_values(|a: String| a@), state.spec_pos())),
        decreases state.spec_source().len() - state.spec_pos(),
    {
        let ghost q = state.spec_pos();
        let ghost before = args@.map_values(|a: String| a@);
        if is_line_end(state) {
            proof { assert(before + Seq::<Seq<char>>::empty() =~= before); }
            break;
        }
        skip_whitespace(state);
        if is_line_end(state) {
            proof { assert(before + Seq::<Seq<char>>::empty() =~= before); }
            break;
        }
        let arg = scan_directive_argument(state)?;
        if arg.as_str().unicode_len() == 0 {
            // a White_Space character that is neither a space nor a tab stops the scan here
            proof { assert(before + Seq::<Seq<char>>::empty() =~= before); }
            break;
        }
        let ghost e = state.spec_pos();
        args.push(arg);
        skip_whitespace(state);
        proof {
            assert(args@.map_values(|a: String| a@) =~= before.push(arg@));
            lemma_run_end(s, e, |c: char| c == ' ' || c == '\t');
            assert(blanks_end(s, state.spec_pos()) == state.spec_pos());
            match reserved_args(s, state.spec_pos()) {
                Some((v, f)) => {
                    assert(before.push(arg@) + v =~= before + (seq![arg@] + v));
                },
                None => {},
            }
        }
    }
    Ok(Directive::Reserved { name, args })
}

/// What a TAG directive's handle and prefix are checked for.
pub open spec fn tag_directive_ok(handle: Seq<char>, prefix: Seq<char>) -> bool {
    (handle == seq!['!'] || handle == seq!['!', '!'] || (handle.len() > 0 && handle[0] == '!' && handle.last() == '!'))
        && crate::lexer::position::utf8_len_seq(handle) <= 64
        && prefix.len() > 0
        && crate::lexer::position::utf8_len_seq(prefix) <= 1024
}

fn validate_tag_directive(handle: &str, prefix: &str, position: Marker) -> (r: Result<(), ScanError>)
    ensures
        r is Ok <==> tag_directive_ok(handle@, prefix@),
        r matches Err(e) ==> e.mark == position,
{
    let h = crate::text::str_to_chars(handle);
    let n = h.len();
    let shape = (n == 1 && h[0] == '!') || (n == 2 && h[0] == '!' && h[1] == '!') || (n > 0 && h[0] == '!' && h[n - 1] == '!');
    proof {
        if handle@ == seq!['!'] { assert(h@.len() == 1 && h@[0] == '!'); }
        if handle@ == seq!['!', '!'] { assert(h@.len() == 2 && h@[1] == '!'); }
        if n == 1 && h@[0] == '!' { assert(handle@ =~= seq!['!']); }
        if n == 2 && h@[0] == '!' && h@[1] == '!' { assert(handle@ =~= seq!['!', '!']); }
    }
    if !shape {
        return Err(ScanError::new(position, "invalid tag handle format (must be !, !!, or !word!)"));
    }
    if crate::scanner::anchors::utf8_len_exceeds(h.as_slice(), 64) {
        return Err(ScanError::new(position, "tag handle too long (max 64 characters)"));
    }
    let p = crate::text::str_to_chars(prefix);
    if p.len() == 0 {
        return Err(ScanError::new(position, "empty tag prefix"));
    }
    if crate::scanner::anchors::utf8_len_exceeds(p.as_slice(), 1024) {
        return Err(ScanError::new(position, "tag prefix too long (max 1024 characters)"));
    }
    Ok(())
}

/// Scan directive starting after '%' character
pub fn scan_directive(state: &mut ScannerState) -> (r: Result<Directive, ScanError>)
    requires
        old(state).wf(),
    ensures
        final(state).read_on_from(old(state)),
        r matches Ok(Directive::Version { major, minor }) ==> supported_version(major, minor),
        r matches Ok(Directive::Tag { handle, prefix }) ==> valid_directive_handle(handle@)
            && prefix_text_ok(prefix@, 0) && tag_directive_ok(handle@, prefix@),
        r matches Ok(Directive::Reserved { name, args }) ==> valid_directive_name(name@)
            && name@ != "YAML"@ && name@ != "TAG"@,
        ({
            let s = old(state).spec_source();
            let q = blanks_end(s, old(state).spec_pos());
            let e = name_end(s, q + 1);
            let name = s.subrange(q, e);
            &&& !(q < s.len() && spec_is_ascii_alpha(s[q]) && e - q <= 32) ==> r is Err
            &&& (q < s.len() && spec_is_ascii_alpha(s[q]) && e - q <= 32 && name != "YAML"@ && name != "TAG"@)
                ==> match reserved_args(s, blanks_end(s, e)) {
                    Some((v, f)) => (r matches Ok(Directive::Reserved { name: n, args }) && n@ == name
                        && args@.map_values(|a: String| a@) == v && final(state).spec_pos() == f),
                    None => r is Err,
                }
        }),
{
    let start_mark = state.mark();
    skip_whitespace(state);
    let name = scan_directive_name(state)?;
    if str_eq(name.as_str(), "YAML") {
        require_whitespace(state, "YAML directive")?;
        skip_whitespace(state);
        let major = scan_version_number(state, "major version")?;
        let dot = state.consume_char()?;
        if dot != '.' {
            return Err(ScanError::new(state.mark(), "expected '.' in YAML version directive"));
        }
        let minor = scan_version_number(state, "minor version")?;
        validate_yaml_version(major, minor, start_mark)?;
        skip_whitespace(state);
        ensure_line_end(state, "YAML directive")?;
        Ok(Directive::Version { major, minor })
    } else if str_eq(name.as_str(), "TAG") {
        require_whitespace(state, "TAG directive")?;
        skip_whitespace(state);
        let handle = scan_tag_handle_directive(state)?;
        require_whitespace(state, "TAG directive handle")?;
        skip_whitespace(state);
        let prefix = scan_tag_prefix_directive(state)?;
        validate_tag_directive(handle.as_str(), prefix.as_str(), start_mark)?;
        skip_whitespace(state);
        ensure_line_end(state, "TAG directive")?;
        Ok(Directive::Tag { handle, prefix })
    } else {
        scan_reserved_directive(state, name)
    }
}

/// Check if directive is valid YAML 1.2 directive
pub fn is_standard_directive(directive: &Directive) -> (b: bool)
    ensures
        b == !(directive is Reserved),
{
    match directive {
        Directive::Version { .. } => true,
        Directive::Tag { .. } => true,
        Directive::Reserved { .. } => false,
    }
}

/// Get directive name as string
pub fn directive_name(directive: &Directive) -> (s: &str)
    ensures
        s@ == match directive {
            Directive::Version { .. } => "YAML"@,
            Directive::Tag { .. } => "TAG"@,
            Directive::Reserved { name, .. } => name@,
        },
{
    match directive {
        Directive::Version { .. } => "YAML",
        Directive::Tag { .. } => "TAG",
        Directive::Reserved { name, .. } => name.as_str(),
    }
}

} // verus!
