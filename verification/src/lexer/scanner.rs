//! The YAML tokenizer: turns characters into `Token`s with positions, tracking indentation
//! and flow nesting.
use vstd::prelude::*;
use super::position::{Position, PositionTracker, utf8_len, utf8_len_seq, can_advance, advance_spec, char_len_utf8,
    advance_seq_spec, lemma_advance_step};
use super::tokens::{Token, TokenKind, ScalarStyle};
use super::unicode::UnicodeProcessor;
use super::unicode::chars::{is_break, is_blank, is_anchor_char, is_tag_char, is_yaml_identifier,
    can_start_plain_scalar, can_continue_plain_scalar, is_ascii_digit, spec_is_anchor_char,
    spec_can_continue_plain_scalar, spec_is_tag_char, spec_is_blank, spec_is_break, spec_is_ascii_alphanumeric,
    spec_plain_start_excluded};
use super::unicode::normalization::remove_bom;
use super::{LexError, LexErrorKind};
use super::unicode::{EscapeError, unescape};
use crate::text::{str_to_chars, substring, push_char, push_str, push_decimal, parse_u32_digits, decimal_value};

verus! {

/// Indentation levels: the root level 0 first, each later level deeper than the one before.
pub open spec fn indent_levels_ok(s: Seq<usize>) -> bool {
    &&& s.len() >= 1
    &&& s[0] == 0
    &&& forall|i: int, j: int| 0 <= i < j < s.len() ==> s[i] < s[j]
}

/// The smallest positive level among `s`, if there is one.
pub open spec fn min_positive(s: Seq<usize>) -> Option<usize>
    decreases s.len(),
{
    if s.len() == 0 {
        None
    } else {
        let rest = min_positive(s.drop_first());
        if s[0] > 0 {
            match rest {
                Some(m) => Some(if s[0] < m { s[0] } else { m }),
                None => Some(s[0]),
            }
        } else {
            rest
        }
    }
}

pub proof fn lemma_utf8_len_seq_bound(s: Seq<char>)
    ensures
        s.len() <= utf8_len_seq(s) <= 4 * s.len(),
    decreases s.len(),
{
    if s.len() > 0 {
        lemma_utf8_len_seq_bound(s.drop_last());
    }
}

/// Where the run of characters that satisfy `p` from `i` ends.
pub open spec fn run_end(s: Seq<char>, i: int, p: spec_fn(char) -> bool) -> int
    decreases s.len() - i,
{
    if 0 <= i < s.len() && p(s[i]) { run_end(s, i + 1, p) } else { i }
}

/// A run ends within the input, at a character that does not satisfy its predicate.
pub proof fn lemma_run_end(s: Seq<char>, i: int, p: spec_fn(char) -> bool)
    requires
        0 <= i <= s.len(),
    ensures
        i <= run_end(s, i, p) <= s.len(),
        run_end(s, i, p) < s.len() ==> !p(s[run_end(s, i, p)]),
        forall|j: int| i <= j < run_end(s, i, p) ==> p(#[trigger] s[j]),
    decreases s.len() - i,
{
    if i < s.len() && p(s[i]) {
        lemma_run_end(s, i + 1, p);
    }
}

/// A run that satisfies `p` on `[i, q)` and stops at `q` ends at `q`.
pub proof fn lemma_run_end_unique(s: Seq<char>, i: int, q: int, p: spec_fn(char) -> bool)
    requires
        0 <= i <= q <= s.len(),
        forall|j: int| i <= j < q ==> p(#[trigger] s[j]),
        q < s.len() ==> !p(s[q]),
    ensures
        run_end(s, i, p) == q,
    decreases q - i,
{
    if i < q {
        assert(p(s[i]));
        lemma_run_end_unique(s, i + 1, q, p);
    }
}

/// The end of an anchor name from `i`.
pub open spec fn anchor_run(s: Seq<char>, i: int) -> int {
    run_end(s, i, |c: char| spec_is_anchor_char(c))
}

/// The end of a directive name from `i`.
pub open spec fn ident_run(s: Seq<char>, i: int) -> int {
    run_end(s, i, |c: char| spec_is_ascii_alphanumeric(c) || c == '_' || c == '-')
}

/// The end of a run of decimal digits from `i`.
pub open spec fn digit_run(s: Seq<char>, i: int) -> int {
    run_end(s, i, |c: char| '0' <= c <= '9')
}

/// The end of a run of spaces from `i`.
pub open spec fn spaces_run(s: Seq<char>, i: int) -> int {
    run_end(s, i, |c: char| c == ' ')
}

/// The end of a comment's text from `i`: the next line break, or the end.
pub open spec fn comment_run(s: Seq<char>, i: int) -> int {
    run_end(s, i, |c: char| !spec_is_break(c))
}

/// The end of a verbatim tag's text from `i`: the tag characters before a `>`.
pub open spec fn verbatim_run(s: Seq<char>, i: int) -> int {
    run_end(s, i, |c: char| spec_is_tag_char(c) && c != '>')
}

/// The end of a plain scalar from `i`.
pub open spec fn plain_run(s: Seq<char>, i: int) -> int {
    run_end(s, i, |c: char| spec_can_continue_plain_scalar(c))
}

/// Where skipping spaces, tabs and comments from `i` stops.
pub open spec fn lex_skip(s: Seq<char>, i: int) -> int
    decreases s.len() - i,
{
    if 0 <= i < s.len() && (s[i] == ' ' || s[i] == '\t') {
        lex_skip(s, i + 1)
    } else if 0 <= i < s.len() && s[i] == '#' {
        comment_run(s, i + 1)
    } else {
        i
    }
}

/// The characters that a scanner of their own reads, rather than the plain scalar one.
pub open spec fn dispatched_char(c: char) -> bool {
    c == '-' || c == '.' || c == '[' || c == ']' || c == '{' || c == '}' || c == ',' || c == '?' || c == ':'
        || c == '&' || c == '*' || c == '!' || c == '%' || c == '\'' || c == '"' || c == '|' || c == '>'
        || c == '\n' || c == '\r'
}

/// The one-character indicator token a character is, if it is one.
pub open spec fn single_indicator(c: char) -> Option<TokenKind> {
    if c == '[' { Some(TokenKind::FlowSequenceStart) }
    else if c == ']' { Some(TokenKind::FlowSequenceEnd) }
    else if c == '{' { Some(TokenKind::FlowMappingStart) }
    else if c == '}' { Some(TokenKind::FlowMappingEnd) }
    else if c == ',' { Some(TokenKind::FlowEntry) }
    else if c == '?' { Some(TokenKind::Key) }
    else { None }
}

/// The next token of `s` from `pos` (ending the scan at `pos2`), for a tracker at `p0`:
/// after spaces, tabs and comments, at the position reached there, the stream's end, the
/// stream's start, a one-character indicator, `:` before a blank, `---`, `...`, `-` before
/// a blank, an anchor or alias (its name), a quoted scalar (its value), a line break, the
/// header of a block scalar, or a plain scalar (its run of characters); indentation tokens
/// at a line's start, tags, directives, and `-`, `.` or `:` read as a plain scalar are
/// left open here.
pub open spec fn lexed_token(s: Seq<char>, pos: int, doc_start: bool, top: usize, p0: Position,
    r: Result<Token, LexError>, pos2: int) -> bool {
    let q = lex_skip(s, pos);
    let start = advance_seq_spec(p0, s.subrange(pos, q));
    if q >= s.len() {
        r == Ok::<Token, LexError>(Token { kind: TokenKind::StreamEnd, position: start, length: 0 }) && pos2 == q
    } else if doc_start {
        r == Ok::<Token, LexError>(Token { kind: TokenKind::StreamStart, position: start, length: 0 }) && pos2 == q
    } else if start.column == 1 && (s[q] == ' ' || top > 0) {
        true
    } else {
        match single_indicator(s[q]) {
            Some(k) => r == Ok::<Token, LexError>(Token { kind: k, position: start, length: 1 }) && pos2 == q + 1,
            None => if s[q] == ':' {
                q + 1 >= s.len() || spec_is_blank(s[q + 1])
                    ==> r == Ok::<Token, LexError>(Token { kind: TokenKind::Value, position: start, length: 1 }) && pos2 == q + 1
            } else if s[q] == '&' || s[q] == '*' {
                &&& (r is Err <==> !(q + 1 < s.len() && spec_is_anchor_char(s[q + 1])))
                &&& r matches Ok(t) ==> t.position == start && pos2 == anchor_run(s, q + 1)
                    && (if s[q] == '&' {
                        t.kind matches TokenKind::Anchor(name) && name@ == s.subrange(q + 1, anchor_run(s, q + 1))
                    } else {
                        t.kind matches TokenKind::Alias(name) && name@ == s.subrange(q + 1, anchor_run(s, q + 1))
                    })
            } else if s[q] == '\n' || s[q] == '\r' {
                r == Ok::<Token, LexError>(Token { kind: TokenKind::LineBreak, position: start, length: 1 })
            } else if s[q] == '-' {
                &&& (q + 3 <= s.len() && s[q + 1] == '-' && s[q + 2] == '-')
                    ==> r == Ok::<Token, LexError>(Token { kind: TokenKind::DocumentStart, position: start, length: 3 })
                        && pos2 == q + 3
                &&& !(q + 3 <= s.len() && s[q + 1] == '-' && s[q + 2] == '-') && q + 1 < s.len() && spec_is_blank(s[q + 1])
                    ==> r == Ok::<Token, LexError>(Token { kind: TokenKind::BlockEntry, position: start, length: 1 })
                        && pos2 == q + 1
            } else if s[q] == '.' {
                (q + 3 <= s.len() && s[q + 1] == '.' && s[q + 2] == '.')
                    ==> r == Ok::<Token, LexError>(Token { kind: TokenKind::DocumentEnd, position: start, length: 3 })
                        && pos2 == q + 3
            } else if s[q] == '\'' {
                match lex_sq(s, q + 1, Seq::empty()) {
                    Some((v, e)) => r matches Ok(t) && t.position == start && pos2 == e
                        && (t.kind matches TokenKind::Scalar { value, style, tag } && value@ == v
                            && style == ScalarStyle::SingleQuoted && tag is None),
                    None => r is Err,
                }
            } else if s[q] == '"' {
                match lex_dq_end(s, q + 1) {
                    None => r is Err,
                    Some(e) => {
                        let raw = s.subrange(q + 1, e);
                        let v = if raw.contains('\\') { unescape(raw) } else { Ok::<Seq<char>, EscapeError>(raw) };
                        &&& r is Ok <==> v is Ok
                        &&& r matches Ok(t) ==> t.position == start && pos2 == e + 1
                            && (t.kind matches TokenKind::Scalar { value, style, tag } && v == Ok::<Seq<char>, EscapeError>(value@)
                                && style == ScalarStyle::DoubleQuoted && tag is None)
                    },
                }
            } else if s[q] == '|' || s[q] == '>' {
                r matches Ok(t) && t.position == start && pos2 == q + 1
                    && (t.kind matches TokenKind::Scalar { value, style, tag } && value@.len() == 0 && tag is None
                        && style == (if s[q] == '|' { ScalarStyle::Literal } else { ScalarStyle::Folded }))
            } else {
                !dispatched_char(s[q]) ==> {
                    &&& (r is Ok <==> !spec_plain_start_excluded(s[q]) && spec_can_continue_plain_scalar(s[q]))
                    &&& r matches Ok(t) ==> t.position == start && pos2 == plain_run(s, q) && t.length == plain_run(s, q) - q
                        && (t.kind matches TokenKind::Scalar { value, style, tag } && style == ScalarStyle::Plain && tag is None
                            && value@ == s.subrange(q, plain_run(s, q)))
                }
            },
        }
    }
}

/// A decimal number at `i` that fits in a `u32`, and where it ends.
pub open spec fn number_at(s: Seq<char>, i: int) -> Option<(u32, int)> {
    let e = digit_run(s, i);
    if e > i && decimal_value(s.subrange(i, e)) <= u32::MAX {
        Some((decimal_value(s.subrange(i, e)) as u32, e))
    } else {
        None
    }
}

/// A version `major.minor` at `i`, and where it ends.
pub open spec fn version_at(s: Seq<char>, i: int) -> Option<(u32, u32, int)> {
    match number_at(s, i) {
        Some((a, e)) => if 0 <= e < s.len() && s[e] == '.' {
            match number_at(s, e + 1) {
                Some((b, f)) => Some((a, b, f)),
                None => None,
            }
        } else {
            None
        },
        None => None,
    }
}

/// The rest of a single-quoted string from `i`, after the text `acc`: its text and where it
/// ends, past the closing quote; none without one.
pub open spec fn lex_sq(s: Seq<char>, i: int, acc: Seq<char>) -> Option<(Seq<char>, int)>
    decreases s.len() - i,
{
    if i < 0 || i >= s.len() {
        None
    } else if s[i] == '\'' {
        if i + 1 < s.len() && s[i + 1] == '\'' { lex_sq(s, i + 2, acc.push('\'')) } else { Some((acc, i + 1)) }
    } else {
        lex_sq(s, i + 1, acc.push(s[i]))
    }
}

/// Where the closing quote of a double-quoted string from `i` stands (a backslash escapes
/// the character after it); none without one.
pub open spec fn lex_dq_end(s: Seq<char>, i: int) -> Option<int>
    decreases s.len() - i,
{
    if i < 0 || i >= s.len() {
        None
    } else if s[i] == '"' {
        Some(i)
    } else if s[i] == '\\' {
        if i + 1 < s.len() { lex_dq_end(s, i + 2) } else { None }
    } else {
        lex_dq_end(s, i + 1)
    }
}

/// High-performance YAML scanner
#[derive(Debug, Clone)]
pub struct Scanner {
    input: Vec<char>,
    pos: usize,
    current_offset: usize,
    peeked_token: Option<Token>,
    indent_stack: Vec<usize>,
    flow_level: usize,
    _simple_key_allowed: bool,
    document_start: bool,
}

impl Scanner {
    /// The characters being scanned (after the byte-order mark is removed).
    pub closed spec fn input_seq(&self) -> Seq<char> {
        self.input@
    }

    /// How many characters have been consumed.
    pub closed spec fn spec_pos(&self) -> int {
        self.pos as int
    }

    /// The open indentation levels, outermost first.
    pub closed spec fn levels(&self) -> Seq<usize> {
        self.indent_stack@
    }

    /// The flow nesting depth.
    pub closed spec fn spec_flow_level(&self) -> usize {
        self.flow_level
    }

    /// Whether a token has been peeked and not yet taken.
    pub closed spec fn has_peeked(&self) -> bool {
        self.peeked_token is Some
    }

    /// The token looked at and not yet taken, if any.
    pub closed spec fn spec_peeked(&self) -> Option<Token> {
        self.peeked_token
    }

    /// Whether the stream-start token is still to come.
    pub closed spec fn at_document_start(&self) -> bool {
        self.document_start
    }

    pub closed spec fn wf(&self) -> bool {
        &&& self.pos <= self.input@.len()
        &&& 8 * self.input@.len() <= usize::MAX
        &&& self.current_offset == utf8_len_seq(self.input@.take(self.pos as int))
        &&& indent_levels_ok(self.indent_stack@)
        &&& self.flow_level <= self.pos
    }

    /// The scanner is well formed and the tracker can follow it to the end of the input.
    pub open spec fn ready(&self, t: PositionTracker) -> bool {
        &&& self.wf()
        &&& can_advance(t.spec_current(), self.input_seq().len() - self.spec_pos())
    }

    /// `self` is `old` after scanning on: the same input, no fewer characters consumed, no
    /// token held back, and the tracker no earlier.
    pub closed spec fn advanced_from(&self, old: &Scanner, t: PositionTracker, t0: PositionTracker) -> bool {
        &&& self.ready(t)
        &&& self.input@ == old.input@
        &&& self.pos >= old.pos
        &&& self.peeked_token is None
        &&& t0.spec_current().byte_offset <= t.spec_current().byte_offset
    }

    /// `self` keeps the indentation levels, flow depth and stream-start flag of `old`.
    pub closed spec fn same_layout(&self, old: &Scanner) -> bool {
        &&& self.indent_stack@ == old.indent_stack@
        &&& self.flow_level == old.flow_level
        &&& self.document_start == old.document_start
    }

    /// Create a new scanner for the given input
    pub fn new(input: &str) -> (s: Self)
        requires
            8 * input@.len() <= usize::MAX,
        ensures
            s.wf(),
            s.input_seq() == (if input@.len() > 0 && input@[0] == '\u{FEFF}' { input@.skip(1) } else { input@ }),
            s.spec_pos() == 0,
            s.levels() == seq![0usize],
            s.spec_flow_level() == 0,
            !s.has_peeked(),
            s.at_document_start(),
    {
        let normalized = remove_bom(input);
        let chars = str_to_chars(normalized);
        let mut stack: Vec<usize> = Vec::new();
        stack.push(0);
        assert(chars@.take(0) =~= Seq::<char>::empty());
        Self {
            input: chars,
            pos: 0,
            current_offset: 0,
            peeked_token: None,
            indent_stack: stack,
            flow_level: 0,
            _simple_key_allowed: true,
            document_start: true,
        }
    }

    /// Check if we've reached the end of input
    pub fn is_at_end(&mut self) -> (b: bool)
        requires
            old(self).wf(),
        ensures
            *final(self) == *old(self),
            b == (old(self).spec_pos() == old(self).input_seq().len()),
    {
        self.pos >= self.input.len()
    }

    /// Check if an indentation level is valid: zero, or a multiple of the smallest positive
    /// level established so far (any level when none is).
    fn is_valid_indentation_level(&self, indent: usize) -> (b: bool)
        ensures
            b == (indent == 0 || match min_positive(self.indent_stack@) {
                Some(m) => indent % m == 0,
                None => true,
            }),
    {
        if indent == 0 {
            return true;
        }
        let n = self.indent_stack.len();
        let mut k = n;
        let mut best: Option<usize> = None;
        assert(self.indent_stack@.skip(n as int) =~= Seq::<usize>::empty());
        while k > 0
            invariant
                k <= n == self.indent_stack@.len(),
                best == min_positive(self.indent_stack@.skip(k as int)),
                best matches Some(m) ==> m > 0,
            decreases k,
        {
            k = k - 1;
            let x = self.indent_stack[k];
            proof {
                assert(self.indent_stack@.skip(k as int).drop_first() =~= self.indent_stack@.skip(k + 1));
                assert(self.indent_stack@.skip(k as int)[0] == x);
            }
            if x > 0 {
                best = match best {
                    Some(m) => Some(if x < m { x } else { m }),
                    None => Some(x),
                };
            }
        }
        assert(self.indent_stack@.skip(0) =~= self.indent_stack@);
        match best {
            Some(m) => indent % m == 0,
            None => true,
        }
    }

    /// Scan the next token
    pub fn scan_token(&mut self, position: &mut PositionTracker) -> (r: Result<Token, LexError>)
        requires
            old(self).ready(*old(position)),
        ensures
            final(self).ready(*final(position)),
            final(self).input_seq() == old(self).input_seq(),
            final(self).spec_pos() >= old(self).spec_pos(),
            !final(self).has_peeked(),
            old(self).has_peeked() ==> final(self).spec_pos() == old(self).spec_pos(),
            old(self).has_peeked() ==> r == Ok::<Token, LexError>(old(self).spec_peeked()->0),
            !old(self).has_peeked() ==> lexed_token(old(self).input_seq(), old(self).spec_pos(), old(self).at_document_start(),
                old(self).levels().last(), old(position).spec_current(), r, final(self).spec_pos()),
            old(position).spec_current().byte_offset <= final(position).spec_current().byte_offset,
            ({
                let q = lex_skip(old(self).input_seq(), old(self).spec_pos());
                &&& !old(self).has_peeked() && q == old(self).input_seq().len() ==> (r matches Ok(t) && t.kind is StreamEnd
                    && t.length == 0 && final(self).spec_pos() == q)
                &&& !old(self).has_peeked() && q < old(self).input_seq().len() && old(self).at_document_start()
                    ==> (r matches Ok(t) && t.kind is StreamStart && t.length == 0 && final(self).spec_pos() == q)
            }),
    {
        if let Some(token) = self.peeked_token.take() {
            return Ok(token);
        }
        self.scan_token_impl(position)
    }

    /// Peek at the next token without consuming it
    pub fn peek_token(&mut self, position: &mut PositionTracker) -> (r: Result<Token, LexError>)
        requires
            old(self).ready(*old(position)),
        ensures
            final(self).ready(*final(position)),
            final(self).input_seq() == old(self).input_seq(),
            final(self).spec_pos() >= old(self).spec_pos(),
            r is Ok ==> final(self).has_peeked(),
            old(self).has_peeked() ==> *final(self) == *old(self) && r is Ok,
            !old(self).has_peeked() ==> lexed_token(old(self).input_seq(), old(self).spec_pos(), old(self).at_document_start(),
                old(self).levels().last(), old(position).spec_current(), r, final(self).spec_pos()),
            old(position).spec_current().byte_offset <= final(position).spec_current().byte_offset,
            ({
                let q = lex_skip(old(self).input_seq(), old(self).spec_pos());
                &&& !old(self).has_peeked() && q == old(self).input_seq().len() ==> (r matches Ok(t) && t.kind is StreamEnd)
                &&& !old(self).has_peeked() && q < old(self).input_seq().len() && old(self).at_document_start()
                    ==> (r matches Ok(t) && t.kind is StreamStart)
            }),
    {
        if self.peeked_token.is_none() {
            let t = self.scan_token_impl(position)?;
            self.peeked_token = Some(t.clone());
            return Ok(t);
        }
        match &self.peeked_token {
            Some(token) => Ok(token.clone()),
            None => Err(LexError::new(LexErrorKind::UnexpectedCharacter(crate::text::chars_to_string(&['\0'])), position.current())),
        }
    }

    /// Internal token scanning implementation
    fn scan_token_impl(&mut self, position: &mut PositionTracker) -> (r: Result<Token, LexError>)
        requires
            old(self).ready(*old(position)),
            !old(self).has_peeked(),
        ensures
            final(self).ready(*final(position)),
            final(self).input_seq() == old(self).input_seq(),
            final(self).spec_pos() >= old(self).spec_pos(),
            !final(self).has_peeked(),
            old(position).spec_current().byte_offset <= final(position).spec_current().byte_offset,
            ({
                let q = lex_skip(old(self).input_seq(), old(self).spec_pos());
                &&& q == old(self).input_seq().len() ==> (r matches Ok(t) && t.kind is StreamEnd && t.length == 0
                    && final(self).spec_pos() == q)
                &&& q < old(self).input_seq().len() && old(self).at_document_start() ==> (r matches Ok(t)
                    && t.kind is StreamStart && t.length == 0 && final(self).spec_pos() == q && !final(self).at_document_start())
            }),
            lexed_token(old(self).input_seq(), old(self).spec_pos(), old(self).at_document_start(),
                old(self).levels().last(), old(position).spec_current(), r, final(self).spec_pos()),
        decreases old(self).input_seq().len() - old(self).spec_pos(), 1nat,
    {
        self.skip_whitespace_and_comments(position);
        let start_pos = position.current();
        if self.is_at_end() {
            return Ok(Token::new(TokenKind::StreamEnd, start_pos, 0));
        }
        if self.document_start {
            self.document_start = false;
            return Ok(Token::new(TokenKind::StreamStart, start_pos, 0));
        }
        let ch = self.input[self.pos];
        if start_pos.column == 1 {
            if ch == ' ' {
                return self.scan_indentation(position);
            }
            let current_indent = self.indent_stack[self.indent_stack.len() - 1];
            if current_indent > 0 {
                let mut dedent_count: usize = 0;
                let n0 = self.indent_stack.len();
                while self.indent_stack.len() > 1
                    invariant
                        indent_levels_ok(self.indent_stack@),
                        dedent_count + self.indent_stack@.len() == n0,
                        self.pos <= self.input@.len(),
                        8 * self.input@.len() <= usize::MAX,
                        self.current_offset == utf8_len_seq(self.input@.take(self.pos as int)),
                        self.flow_level <= self.pos,
                        self.input@ == old(self).input@,
                        self.pos >= old(self).pos,
                        self.peeked_token is None,
                        can_advance(position.spec_current(), self.input@.len() - self.pos),
                        old(position).spec_current().byte_offset <= position.spec_current().byte_offset,
                    decreases self.indent_stack@.len(),
                {
                    let top = self.indent_stack[self.indent_stack.len() - 1];
                    if top == 0 {
                        break;
                    }
                    let ghost before = self.indent_stack@;
                    self.indent_stack.pop();
                    proof {
                        assert forall|i: int, j: int| 0 <= i < j < self.indent_stack@.len()
                            implies self.indent_stack@[i] < self.indent_stack@[j] by {
                            assert(self.indent_stack@[i] == before[i] && self.indent_stack@[j] == before[j]);
                        }
                    }
                    dedent_count = dedent_count + 1;
                }
                return Ok(Token::new(TokenKind::Dedent(dedent_count), start_pos, 0));
            }
        }
        match ch {
            '-' => self.scan_dash_or_document_start(position),
            '.' => self.scan_dot_or_document_end(position),
            '[' => self.scan_single_char(TokenKind::FlowSequenceStart, position),
            ']' => self.scan_single_char(TokenKind::FlowSequenceEnd, position),
            '{' => self.scan_single_char(TokenKind::FlowMappingStart, position),
            '}' => self.scan_single_char(TokenKind::FlowMappingEnd, position),
            ',' => self.scan_single_char(TokenKind::FlowEntry, position),
            '?' => self.scan_single_char(TokenKind::Key, position),
            ':' => self.scan_colon(position),
            '&' => self.scan_anchor(position),
            '*' => self.scan_alias(position),
            '!' => self.scan_tag(position),
            '%' => self.scan_directive(position),
            '\'' => self.scan_single_quoted_string(position),
            '"' => self.scan_double_quoted_string(position),
            '|' => self.scan_literal_scalar(position),
            '>' => self.scan_folded_scalar(position),
            '\n' | '\r' => self.scan_line_break(position),
            _ => self.scan_plain_scalar(position),
        }
    }

    /// Consume one character and update position
    fn consume_char(&mut self, position: &mut PositionTracker)
        requires
            old(self).ready(*old(position)),
        ensures
            final(self).ready(*final(position)),
            final(self).input@ == old(self).input@,
            final(self).indent_stack@ == old(self).indent_stack@,
            final(self).flow_level == old(self).flow_level,
            final(self).peeked_token == old(self).peeked_token,
            final(self).document_start == old(self).document_start,
            old(self).pos < old(self).input@.len() ==> final(self).pos == old(self).pos + 1
                && final(position).spec_current() == advance_spec(old(position).spec_current(), old(self).input@[old(self).pos as int]),
            old(self).pos == old(self).input@.len() ==> final(self).pos == old(self).pos
                && final(position).spec_current() == old(position).spec_current(),
            old(position).spec_current().byte_offset <= final(position).spec_current().byte_offset,
            final(position).spec_marks() == old(position).spec_marks(),
    {
        if self.pos < self.input.len() {
            let ch = self.input[self.pos];
            position.advance_char(ch);
            proof {
                assert(self.input@.take(self.pos + 1).drop_last() =~= self.input@.take(self.pos as int));
                lemma_utf8_len_seq_bound(self.input@.take(self.pos + 1));
            }
            self.current_offset = self.current_offset + char_len_utf8(ch);
            self.pos = self.pos + 1;
        }
    }

    /// Check if the next character matches
    fn check_char(&self, expected: char) -> (b: bool)
        ensures
            b == (self.pos < self.input@.len() && self.input@[self.pos as int] == expected),
    {
        self.pos < self.input.len() && self.input[self.pos] == expected
    }

    /// The next character, if any
    fn peek(&self) -> (c: Option<char>)
        ensures
            c == if self.pos < self.input@.len() { Some(self.input@[self.pos as int]) } else { None::<char> },
    {
        if self.pos < self.input.len() {
            Some(self.input[self.pos])
        } else {
            None
        }
    }

    /// Check if the next characters are `a`, `b`, `c`
    fn check_sequence3(&self, a: char, b: char, c: char) -> (r: bool)
        requires
            self.wf(),
        ensures
            r == (self.pos + 3 <= self.input@.len() && self.input@[self.pos as int] == a
                && self.input@[self.pos + 1] == b && self.input@[self.pos + 2] == c),
    {
        self.pos + 3 <= self.input.len() && self.input[self.pos] == a && self.input[self.pos + 1] == b
            && self.input[self.pos + 2] == c
    }
}


impl Scanner {
    /// Skip whitespace and comments
    fn skip_whitespace_and_comments(&mut self, position: &mut PositionTracker)
        requires
            old(self).ready(*old(position)),
            old(self).peeked_token is None,
        ensures
            final(self).advanced_from(old(self), *final(position), *old(position)),
            final(self).indent_stack@ == old(self).indent_stack@,
            final(self).flow_level == old(self).flow_level,
            final(self).document_start == old(self).document_start,
            final(self).pos == lex_skip(old(self).input@, old(self).pos as int),
            final(position).spec_current() == advance_seq_spec(old(position).spec_current(),
                old(self).input@.subrange(old(self).pos as int, final(self).pos as int)),
    {
        let ghost s = old(self).input@;
        let ghost target = lex_skip(s, old(self).pos as int);
        let ghost p0 = old(position).spec_current();
        let ghost i0 = old(self).pos as int;
        assert(s.subrange(i0, i0) =~= Seq::<char>::empty());
        while self.pos < self.input.len()
            invariant
                self.advanced_from(old(self), *position, *old(position)),
                self.indent_stack@ == old(self).indent_stack@,
                self.flow_level == old(self).flow_level,
                self.document_start == old(self).document_start,
                s == old(self).input@,
                target == lex_skip(s, old(self).pos as int),
                lex_skip(s, self.pos as int) == target,
                position.spec_current() == advance_seq_spec(p0, s.subrange(i0, self.pos as int)),
                i0 <= self.pos,
                p0 == old(position).spec_current(),
                i0 == old(self).pos,
            ensures
                self.advanced_from(old(self), *position, *old(position)),
                self.indent_stack@ == old(self).indent_stack@,
                self.flow_level == old(self).flow_level,
                self.document_start == old(self).document_start,
                self.pos == target,
                position.spec_current() == advance_seq_spec(p0, s.subrange(i0, self.pos as int)),
            decreases self.input@.len() - self.pos,
        {
            let ch = self.input[self.pos];
            if ch == ' ' || ch == '\t' {
                proof { lemma_advance_step(p0, s, i0, self.pos as int); }
                self.consume_char(position);
            } else if ch == '#' {
                let ghost pc = self.pos;
                proof { lemma_advance_step(p0, s, i0, self.pos as int); }
                self.consume_char(position);
                while self.pos < self.input.len() && !is_break(self.input[self.pos])
                    invariant
                        self.pos > pc,
                        i0 <= self.pos,
                        p0 == old(position).spec_current(),
                        i0 == old(self).pos,
                        position.spec_current() == advance_seq_spec(p0, s.subrange(i0, self.pos as int)),
                        self.advanced_from(old(self), *position, *old(position)),
                        self.indent_stack@ == old(self).indent_stack@,
                        self.flow_level == old(self).flow_level,
                        self.document_start == old(self).document_start,
                        s == old(self).input@,
                        comment_run(s, self.pos as int) == comment_run(s, pc + 1),
                    decreases self.input@.len() - self.pos,
                {
                    proof { lemma_advance_step(p0, s, i0, self.pos as int); }
                    self.consume_char(position);
                }
                proof {
                    assert(comment_run(s, self.pos as int) == self.pos);
                    assert(lex_skip(s, self.pos as int) == self.pos);
                }
            } else {
                break;
            }
        }
    }

    /// Scan indentation tokens
    fn scan_indentation(&mut self, position: &mut PositionTracker) -> (r: Result<Token, LexError>)
        requires
            old(self).ready(*old(position)),
            old(self).peeked_token is None,
            old(self).pos < old(self).input@.len(),
            old(self).input@[old(self).pos as int] == ' ',
        ensures
            final(self).advanced_from(old(self), *final(position), *old(position)),
            ({
                let lv = old(self).indent_stack@;
                let n = spaces_run(old(self).input@, old(self).pos as int) - old(self).pos;
                let top = lv.last();
                &&& n > top ==> (r is Ok <==> (n == 0 || match min_positive(lv) {
                        Some(m) => n % (m as int) == 0,
                        None => true,
                    }))
                &&& n > top ==> (r matches Ok(t) ==> t.kind == TokenKind::Indent(n as usize)
                        && final(self).indent_stack@ == lv.push(n as usize))
                &&& n < top ==> (r is Ok <==> lv.contains(n as usize))
                &&& n < top ==> (r matches Ok(t) ==> (t.kind matches TokenKind::Dedent(k) && k < lv.len()
                        && final(self).indent_stack@ == lv.take(lv.len() - k)
                        && final(self).indent_stack@.last() == n))
            }),
        decreases old(self).input@.len() - old(self).pos, 0nat,
    {
        let start_pos = position.current();
        let mut indent: usize = 0;
        while self.pos < self.input.len() && self.input[self.pos] == ' '
            invariant
                self.advanced_from(old(self), *position, *old(position)),
                self.indent_stack@ == old(self).indent_stack@,
                self.document_start == old(self).document_start,
                self.pos == old(self).pos + indent,
                spaces_run(self.input@, self.pos as int) == spaces_run(old(self).input@, old(self).pos as int),
            decreases self.input@.len() - self.pos,
        {
            indent = indent + 1;
            self.consume_char(position);
        }
        let current_indent = self.indent_stack[self.indent_stack.len() - 1];
        if indent > current_indent {
            if !self.is_valid_indentation_level(indent) {
                let mut msg = String::new();
                push_str(&mut msg, "indentation level ");
                push_decimal(&mut msg, indent);
                push_str(&mut msg, " is inconsistent with established pattern");
                return Err(LexError::new(LexErrorKind::InvalidIndentation(msg), start_pos));
            }
            let ghost before = self.indent_stack@;
            self.indent_stack.push(indent);
            proof {
                assert forall|i: int, j: int| 0 <= i < j < self.indent_stack@.len()
                    implies self.indent_stack@[i] < self.indent_stack@[j] by {
                    if j == before.len() {
                        assert(before[i] <= before[before.len() - 1]);
                    }
                }
            }
            Ok(Token::new(TokenKind::Indent(indent), start_pos, indent))
        } else if indent < current_indent {
            let mut dedent_count: usize = 0;
            let n0 = self.indent_stack.len();
            let ghost lv = self.indent_stack@;
            while self.indent_stack.len() > 1
                invariant
                    indent_levels_ok(self.indent_stack@),
                    self.indent_stack@.len() <= n0,
                    dedent_count + self.indent_stack@.len() == n0,
                    lv == old(self).indent_stack@,
                    n0 == lv.len(),
                    self.indent_stack@ == lv.take(self.indent_stack@.len() as int),
                    forall|j: int| self.indent_stack@.len() <= j < n0 ==> lv[j] > indent,
                    self.pos <= self.input@.len(),
                    8 * self.input@.len() <= usize::MAX,
                    self.current_offset == utf8_len_seq(self.input@.take(self.pos as int)),
                    self.flow_level <= self.pos,
                    self.input@ == old(self).input@,
                    self.pos >= old(self).pos,
                    self.peeked_token is None,
                    can_advance(position.spec_current(), self.input@.len() - self.pos),
                    old(position).spec_current().byte_offset <= position.spec_current().byte_offset,
                ensures
                    self.indent_stack@.len() == 1 || self.indent_stack@.last() <= indent,
                decreases self.indent_stack@.len(),
            {
                let top = self.indent_stack[self.indent_stack.len() - 1];
                if top <= indent {
                    break;
                }
                let ghost before = self.indent_stack@;
                self.indent_stack.pop();
                proof {
                    assert forall|i: int, j: int| 0 <= i < j < self.indent_stack@.len()
                        implies self.indent_stack@[i] < self.indent_stack@[j] by {
                        assert(self.indent_stack@[i] == before[i] && self.indent_stack@[j] == before[j]);
                    }
                }
                dedent_count = dedent_count + 1;
            }
            let final_indent = self.indent_stack[self.indent_stack.len() - 1];
            proof {
                let m = self.indent_stack@.len();
                if final_indent == indent {
                    assert(lv[m - 1] == indent);
                } else {
                    assert(final_indent < indent) by {
                        if m == 1 {
                            assert(self.indent_stack@[0] == 0);
                        }
                    }
                    assert forall|j: int| 0 <= j < lv.len() implies lv[j] != indent by {
                        if j < m {
                            assert(self.indent_stack@[j] == lv[j]);
                            if j < m - 1 {
                                assert(self.indent_stack@[j] < self.indent_stack@[m - 1]);
                            }
                        }
                    }
                }
            }
            if final_indent != indent {
                let mut msg = String::new();
                push_str(&mut msg, "indentation level ");
                push_decimal(&mut msg, indent);
                push_str(&mut msg, " does not match any previous level (found ");
                push_decimal(&mut msg, final_indent);
                push_char(&mut msg, ')');
                return Err(LexError::new(LexErrorKind::InvalidIndentation(msg), start_pos));
            }
            Ok(Token::new(TokenKind::Dedent(dedent_count), start_pos, 0))
        } else {
            self.scan_token_impl(position)
        }
    }

    /// Scan dash or document start marker
    fn scan_dash_or_document_start(&mut self, position: &mut PositionTracker) -> (r: Result<Token, LexError>)
        requires
            old(self).ready(*old(position)),
            old(self).peeked_token is None,
            old(self).pos < old(self).input@.len(),
        ensures
            final(self).advanced_from(old(self), *final(position), *old(position)),
            final(self).indent_stack@ == old(self).indent_stack@,
            ({
                let s = old(self).input@;
                let p = old(self).pos as int;
                &&& (p + 3 <= s.len() && s[p] == '-' && s[p + 1] == '-' && s[p + 2] == '-')
                    ==> r == Ok::<Token, LexError>(Token { kind: TokenKind::DocumentStart, position: old(position).spec_current(), length: 3 })
                    && final(self).pos == p + 3
                &&& !(p + 3 <= s.len() && s[p] == '-' && s[p + 1] == '-' && s[p + 2] == '-')
                    && p + 1 < s.len() && spec_is_blank(s[p + 1])
                    ==> r == Ok::<Token, LexError>(Token { kind: TokenKind::BlockEntry, position: old(position).spec_current(), length: 1 })
                    && final(self).pos == p + 1
            }),
    {
        let start_pos = position.current();
        if self.check_sequence3('-', '-', '-') {
            self.consume_char(position);
            self.consume_char(position);
            self.consume_char(position);
            Ok(Token::new(TokenKind::DocumentStart, start_pos, 3))
        } else {
            self.consume_char(position);
            let next = match self.peek() {
                Some(c) => c,
                None => '\0',
            };
            if is_blank(next) {
                Ok(Token::new(TokenKind::BlockEntry, start_pos, 1))
            } else {
                self.scan_plain_scalar_from_dash(position, start_pos)
            }
        }
    }

    /// Scan dot or document end marker
    fn scan_dot_or_document_end(&mut self, position: &mut PositionTracker) -> (r: Result<Token, LexError>)
        requires
            old(self).ready(*old(position)),
            old(self).peeked_token is None,
        ensures
            final(self).advanced_from(old(self), *final(position), *old(position)),
            final(self).indent_stack@ == old(self).indent_stack@,
            ({
                let s = old(self).input@;
                let p = old(self).pos as int;
                (p + 3 <= s.len() && s[p] == '.' && s[p + 1] == '.' && s[p + 2] == '.')
                    ==> r == Ok::<Token, LexError>(Token { kind: TokenKind::DocumentEnd, position: old(position).spec_current(), length: 3 })
                    && final(self).pos == p + 3
            }),
    {
        let start_pos = position.current();
        if self.check_sequence3('.', '.', '.') {
            self.consume_char(position);
            self.consume_char(position);
            self.consume_char(position);
            Ok(Token::new(TokenKind::DocumentEnd, start_pos, 3))
        } else {
            self.scan_plain_scalar(position)
        }
    }

    /// Scan a single character token; brackets open and close a flow level.
    fn scan_single_char(&mut self, kind: TokenKind, position: &mut PositionTracker) -> (r: Result<Token, LexError>)
        requires
            old(self).ready(*old(position)),
            old(self).peeked_token is None,
            old(self).pos < old(self).input@.len(),
        ensures
            final(self).advanced_from(old(self), *final(position), *old(position)),
            final(self).indent_stack@ == old(self).indent_stack@,
            r == Ok::<Token, LexError>(Token { kind, position: old(position).spec_current(), length: 1 }),
            final(self).pos == old(self).pos + 1,
            final(self).flow_level == match kind {
                TokenKind::FlowSequenceStart | TokenKind::FlowMappingStart => (old(self).flow_level + 1) as usize,
                TokenKind::FlowSequenceEnd | TokenKind::FlowMappingEnd => if old(self).flow_level > 0 { (old(self).flow_level - 1) as usize } else { 0 },
                _ => old(self).flow_level,
            },
    {
        let start_pos = position.current();
        self.consume_char(position);
        match kind {
            TokenKind::FlowSequenceStart | TokenKind::FlowMappingStart => {
                self.flow_level = self.flow_level + 1;
            },
            TokenKind::FlowSequenceEnd | TokenKind::FlowMappingEnd => {
                if self.flow_level > 0 {
                    self.flow_level = self.flow_level - 1;
                }
            },
            _ => {},
        }
        Ok(Token::new(kind, start_pos, 1))
    }
}

impl Scanner {
    /// Scan colon (value indicator)
    fn scan_colon(&mut self, position: &mut PositionTracker) -> (r: Result<Token, LexError>)
        requires
            old(self).ready(*old(position)),
            old(self).peeked_token is None,
            old(self).pos < old(self).input@.len(),
        ensures
            final(self).advanced_from(old(self), *final(position), *old(position)),
            final(self).same_layout(old(self)),
            old(self).pos + 1 >= old(self).input@.len() || spec_is_blank(old(self).input@[old(self).pos + 1])
                ==> r == Ok::<Token, LexError>(Token { kind: TokenKind::Value, position: old(position).spec_current(), length: 1 })
                && final(self).pos == old(self).pos + 1,
    {
        let start_pos = position.current();
        let start = self.pos;
        self.consume_char(position);
        let next = match self.peek() {
            Some(c) => c,
            None => '\0',
        };
        if is_blank(next) || self.is_at_end() {
            Ok(Token::new(TokenKind::Value, start_pos, 1))
        } else {
            self.scan_plain_scalar_rest(position, start_pos, start)
        }
    }

    /// Scan anchor
    fn scan_anchor(&mut self, position: &mut PositionTracker) -> (r: Result<Token, LexError>)
        requires
            old(self).ready(*old(position)),
            old(self).peeked_token is None,
            old(self).pos < old(self).input@.len(),
        ensures
            final(self).advanced_from(old(self), *final(position), *old(position)),
            final(self).same_layout(old(self)),
            r matches Ok(t) ==> t.kind matches TokenKind::Anchor(name)
                && name@ == final(self).input@.subrange(old(self).pos + 1, final(self).pos as int)
                && name@.len() > 0
                && (forall|i: int| 0 <= i < name@.len() ==> spec_is_anchor_char(#[trigger] name@[i])),
            r is Err <==> !(old(self).pos + 1 < old(self).input@.len() && spec_is_anchor_char(old(self).input@[old(self).pos + 1])),
            r matches Ok(t) ==> t.position == old(position).spec_current()
                && final(self).pos == anchor_run(old(self).input@, old(self).pos + 1),
    {
        let start_pos = position.current();
        self.consume_char(position);
        let name = self.scan_anchor_name(position)?;
        let length = position.current().byte_offset - start_pos.byte_offset;
        Ok(Token::new(TokenKind::Anchor(name), start_pos, length))
    }

    /// Scan alias
    fn scan_alias(&mut self, position: &mut PositionTracker) -> (r: Result<Token, LexError>)
        requires
            old(self).ready(*old(position)),
            old(self).peeked_token is None,
            old(self).pos < old(self).input@.len(),
        ensures
            final(self).advanced_from(old(self), *final(position), *old(position)),
            final(self).same_layout(old(self)),
            r matches Ok(t) ==> t.kind matches TokenKind::Alias(name)
                && name@ == final(self).input@.subrange(old(self).pos + 1, final(self).pos as int)
                && name@.len() > 0
                && (forall|i: int| 0 <= i < name@.len() ==> spec_is_anchor_char(#[trigger] name@[i])),
            r is Err <==> !(old(self).pos + 1 < old(self).input@.len() && spec_is_anchor_char(old(self).input@[old(self).pos + 1])),
            r matches Ok(t) ==> t.position == old(position).spec_current()
                && final(self).pos == anchor_run(old(self).input@, old(self).pos + 1),
    {
        let start_pos = position.current();
        self.consume_char(position);
        let name = self.scan_anchor_name(position)?;
        let length = position.current().byte_offset - start_pos.byte_offset;
        Ok(Token::new(TokenKind::Alias(name), start_pos, length))
    }

    /// Scan anchor or alias name: a non-empty run of anchor characters.
    fn scan_anchor_name(&mut self, position: &mut PositionTracker) -> (r: Result<String, LexError>)
        requires
            old(self).ready(*old(position)),
            old(self).peeked_token is None,
        ensures
            final(self).advanced_from(old(self), *final(position), *old(position)),
            final(self).same_layout(old(self)),
            r matches Ok(name) ==> name@ == final(self).input@.subrange(old(self).pos as int, final(self).pos as int)
                && name@.len() > 0
                && (forall|i: int| 0 <= i < name@.len() ==> spec_is_anchor_char(#[trigger] name@[i])),
            r is Err <==> !(old(self).pos < old(self).input@.len() && spec_is_anchor_char(old(self).input@[old(self).pos as int])),
            r is Ok ==> final(self).pos == anchor_run(old(self).input@, old(self).pos as int),
    {
        let start = self.pos;
        if !(self.pos < self.input.len() && is_anchor_char(self.input[self.pos])) {
            let mut msg = String::new();
            push_str(&mut msg, "anchor name cannot be empty");
            return Err(LexError::new(LexErrorKind::InvalidAnchor(msg), position.current()));
        }
        while self.pos < self.input.len() && is_anchor_char(self.input[self.pos])
            invariant
                self.advanced_from(old(self), *position, *old(position)),
                self.same_layout(old(self)),
                start == old(self).pos <= self.pos,
                forall|i: int| start <= i < self.pos ==> spec_is_anchor_char(#[trigger] self.input@[i]),
                anchor_run(self.input@, self.pos as int) == anchor_run(self.input@, start as int),
            decreases self.input@.len() - self.pos,
        {
            self.consume_char(position);
        }
        let name = substring(self.input.as_slice(), start, self.pos);
        proof {
            assert forall|i: int| 0 <= i < name@.len() implies spec_is_anchor_char(#[trigger] name@[i]) by {
                assert(name@[i] == self.input@[start + i]);
            }
        }
        Ok(name)
    }

    /// Scan tag: `!<verbatim>`, `!handle!suffix`, `!suffix` or `!`.
    fn scan_tag(&mut self, position: &mut PositionTracker) -> (r: Result<Token, LexError>)
        requires
            old(self).ready(*old(position)),
            old(self).peeked_token is None,
            old(self).pos < old(self).input@.len(),
        ensures
            final(self).advanced_from(old(self), *final(position), *old(position)),
            final(self).same_layout(old(self)),
            r matches Ok(t) ==> t.kind is Tag,
            r matches Ok(t) ==> t.position == old(position).spec_current(),
            ({
                let s = old(self).input@;
                let p = old(self).pos as int;
                let e = verbatim_run(s, p + 2);
                if p + 1 < s.len() && s[p + 1] == '<' {
                    &&& r is Ok <==> (e < s.len() && s[e] == '>')
                    &&& r matches Ok(t) ==> (t.kind matches TokenKind::Tag { handle, suffix } && handle is None
                        && suffix@ == s.subrange(p + 2, e))
                } else {
                    r is Ok
                }
            }),
    {
        let start_pos = position.current();
        self.consume_char(position);
        let (handle, suffix) = if self.check_char('<') {
            self.consume_char(position);
            let tag = self.scan_verbatim_tag(position)?;
            (None, tag)
        } else {
            self.scan_named_tag(position)?
        };
        let length = position.current().byte_offset - start_pos.byte_offset;
        Ok(Token::new(TokenKind::Tag { handle, suffix }, start_pos, length))
    }

    /// Scan verbatim tag content up to the closing `>`.
    fn scan_verbatim_tag(&mut self, position: &mut PositionTracker) -> (r: Result<String, LexError>)
        requires
            old(self).ready(*old(position)),
            old(self).peeked_token is None,
        ensures
            final(self).advanced_from(old(self), *final(position), *old(position)),
            final(self).same_layout(old(self)),
            r matches Ok(tag) ==> final(self).pos >= old(self).pos + 1
                && tag@ == final(self).input@.subrange(old(self).pos as int, final(self).pos - 1)
                && final(self).input@[final(self).pos - 1] == '>'
                && (forall|i: int| 0 <= i < tag@.len() ==> spec_is_tag_char(#[trigger] tag@[i]) && tag@[i] != '>'),
            ({
                let e = verbatim_run(old(self).input@, old(self).pos as int);
                &&& r is Ok <==> (e < old(self).input@.len() && old(self).input@[e] == '>')
                &&& r is Ok ==> final(self).pos == e + 1
            }),
    {
        let start = self.pos;
        while self.pos < self.input.len()
            invariant
                self.advanced_from(old(self), *position, *old(position)),
                self.same_layout(old(self)),
                start == old(self).pos <= self.pos,
                verbatim_run(self.input@, self.pos as int) == verbatim_run(self.input@, start as int),
                forall|i: int| start <= i < self.pos ==> spec_is_tag_char(#[trigger] self.input@[i]) && self.input@[i] != '>',
            decreases self.input@.len() - self.pos,
        {
            let ch = self.input[self.pos];
            if ch == '>' {
                let end = self.pos;
                self.consume_char(position);
                let tag = substring(self.input.as_slice(), start, end);
                proof {
                    assert forall|i: int| 0 <= i < tag@.len() implies spec_is_tag_char(#[trigger] tag@[i]) && tag@[i] != '>' by {
                        assert(tag@[i] == self.input@[start + i]);
                    }
                }
                return Ok(tag);
            } else if is_tag_char(ch) {
                self.consume_char(position);
            } else {
                let mut msg = String::new();
                push_str(&mut msg, "invalid character in verbatim tag");
                return Err(LexError::new(LexErrorKind::InvalidTag(msg), position.current()));
            }
        }
        Err(LexError::new(LexErrorKind::UnexpectedEndOfInput, position.current()))
    }

    /// Scan named tag: a run of tag characters, split after its first `!` into handle and
    /// suffix; an empty run is the tag `!`.
    fn scan_named_tag(&mut self, position: &mut PositionTracker) -> (r: Result<(Option<String>, String), LexError>)
        requires
            old(self).ready(*old(position)),
            old(self).peeked_token is None,
        ensures
            final(self).advanced_from(old(self), *final(position), *old(position)),
            final(self).same_layout(old(self)),
            r is Ok,
            r matches Ok(p) ==> {
                let content = final(self).input@.subrange(old(self).pos as int, final(self).pos as int);
                let k = crate::text::find_char(content, '!');
                &&& (forall|i: int| 0 <= i < content.len() ==> spec_is_tag_char(#[trigger] content[i]))
                &&& (k < content.len() ==> (p.0 matches Some(h) && h@ == content.take(k + 1) && p.1@ == content.skip(k + 1)))
                &&& (k == content.len() ==> p.0 is None && p.1@ == if content.len() == 0 { seq!['!'] } else { content })
            },
    {
        let start = self.pos;
        while self.pos < self.input.len() && is_tag_char(self.input[self.pos])
            invariant
                self.advanced_from(old(self), *position, *old(position)),
                self.same_layout(old(self)),
                start == old(self).pos <= self.pos,
                forall|i: int| start <= i < self.pos ==> spec_is_tag_char(#[trigger] self.input@[i]),
            decreases self.input@.len() - self.pos,
        {
            self.consume_char(position);
        }
        let end = self.pos;
        let ghost content = self.input@.subrange(start as int, end as int);
        let k = crate::text::find_char_between(self.input.as_slice(), start, end, '!');
        proof {
            crate::text::lemma_find_char(content, '!');
            assert forall|i: int| 0 <= i < content.len() implies spec_is_tag_char(#[trigger] content[i]) by {
                assert(content[i] == self.input@[start + i]);
            }
        }
        if k < end - start {
            let handle = substring(self.input.as_slice(), start, start + k + 1);
            let suffix = substring(self.input.as_slice(), start + k + 1, end);
            assert(handle@ =~= content.take(k + 1));
            assert(suffix@ =~= content.skip(k + 1));
            Ok((Some(handle), suffix))
        } else if start == end {
            let mut s = String::new();
            push_char(&mut s, '!');
            Ok((None, s))
        } else {
            let s = substring(self.input.as_slice(), start, end);
            Ok((None, s))
        }
    }

    /// Skip space characters
    fn skip_spaces(&mut self, position: &mut PositionTracker)
        requires
            old(self).ready(*old(position)),
            old(self).peeked_token is None,
        ensures
            final(self).advanced_from(old(self), *final(position), *old(position)),
            final(self).same_layout(old(self)),
            forall|i: int| old(self).pos <= i < final(self).pos ==> final(self).input@[i] == ' ',
            final(self).pos == spaces_run(old(self).input@, old(self).pos as int),
    {
        while self.pos < self.input.len() && self.input[self.pos] == ' '
            invariant
                self.advanced_from(old(self), *position, *old(position)),
                self.same_layout(old(self)),
                old(self).pos <= self.pos,
                forall|i: int| old(self).pos <= i < self.pos ==> self.input@[i] == ' ',
                spaces_run(self.input@, self.pos as int) == spaces_run(old(self).input@, old(self).pos as int),
            decreases self.input@.len() - self.pos,
        {
            self.consume_char(position);
        }
    }

    /// Scan directive: `%YAML major.minor`, `%TAG handle prefix`, or a reserved one.
    fn scan_directive(&mut self, position: &mut PositionTracker) -> (r: Result<Token, LexError>)
        requires
            old(self).ready(*old(position)),
            old(self).peeked_token is None,
            old(self).pos < old(self).input@.len(),
        ensures
            final(self).advanced_from(old(self), *final(position), *old(position)),
            final(self).same_layout(old(self)),
            r matches Ok(t) ==> (t.kind is YamlDirective || t.kind is TagDirective || t.kind is ReservedDirective),
            ({
                let s = old(self).input@;
                let p = old(self).pos as int;
                let e = ident_run(s, p + 1);
                let name = s.subrange(p + 1, e);
                let q = spaces_run(s, e);
                &&& e == p + 1 ==> r is Err
                &&& e > p + 1 && name == "YAML"@ ==> match version_at(s, q) {
                    Some((a, b, f)) => (r matches Ok(t) && t.kind == (TokenKind::YamlDirective { major: a, minor: b })
                        && t.position == old(position).spec_current() && final(self).pos == f),
                    None => r is Err,
                }
                &&& e > p + 1 && name == "TAG"@ ==> (r is Ok <==> (q < s.len() && s[q] == '!'))
                &&& e > p + 1 && name != "YAML"@ && name != "TAG"@ ==> (r matches Ok(t)
                    && (t.kind matches TokenKind::ReservedDirective { name: n, .. } && n@ == name))
            }),
    {
        proof {
            reveal_strlit("YAML");
            reveal_strlit("TAG");
        }
        let start_pos = position.current();
        self.consume_char(position);
        let name = self.scan_directive_name(position)?;
        let is_yaml = crate::text::str_eq(name.as_str(), "YAML");
        let is_tag = crate::text::str_eq(name.as_str(), "TAG");
        if is_yaml {
            self.skip_spaces(position);
            let (major, minor) = self.scan_yaml_version(position)?;
            let length = position.current().byte_offset - start_pos.byte_offset;
            Ok(Token::new(TokenKind::YamlDirective { major, minor }, start_pos, length))
        } else if is_tag {
            self.skip_spaces(position);
            let (handle, prefix) = self.scan_tag_directive(position)?;
            let length = position.current().byte_offset - start_pos.byte_offset;
            Ok(Token::new(TokenKind::TagDirective { handle, prefix }, start_pos, length))
        } else {
            self.skip_spaces(position);
            let value = self.scan_directive_value(position);
            let length = position.current().byte_offset - start_pos.byte_offset;
            Ok(Token::new(TokenKind::ReservedDirective { name, value }, start_pos, length))
        }
    }

    /// Scan directive name: a non-empty run of identifier characters.
    fn scan_directive_name(&mut self, position: &mut PositionTracker) -> (r: Result<String, LexError>)
        requires
            old(self).ready(*old(position)),
            old(self).peeked_token is None,
        ensures
            final(self).advanced_from(old(self), *final(position), *old(position)),
            final(self).same_layout(old(self)),
            r matches Ok(name) ==> name@ == final(self).input@.subrange(old(self).pos as int, final(self).pos as int)
                && name@.len() > 0,
            r is Err <==> ident_run(old(self).input@, old(self).pos as int) == old(self).pos,
            r is Ok ==> final(self).pos == ident_run(old(self).input@, old(self).pos as int),
    {
        let start = self.pos;
        while self.pos < self.input.len() && is_yaml_identifier(self.input[self.pos])
            invariant
                self.advanced_from(old(self), *position, *old(position)),
                self.same_layout(old(self)),
                start == old(self).pos <= self.pos,
                ident_run(self.input@, self.pos as int) == ident_run(self.input@, start as int),
            decreases self.input@.len() - self.pos,
        {
            self.consume_char(position);
        }
        if start == self.pos {
            let mut msg = String::new();
            push_str(&mut msg, "directive name cannot be empty");
            return Err(LexError::new(LexErrorKind::InvalidDirective(msg), position.current()));
        }
        Ok(substring(self.input.as_slice(), start, self.pos))
    }

    /// Scan YAML version `major.minor`
    fn scan_yaml_version(&mut self, position: &mut PositionTracker) -> (r: Result<(u32, u32), LexError>)
        requires
            old(self).ready(*old(position)),
            old(self).peeked_token is None,
        ensures
            final(self).advanced_from(old(self), *final(position), *old(position)),
            final(self).same_layout(old(self)),
            match version_at(old(self).input@, old(self).pos as int) {
                Some((a, b, f)) => r == Ok::<(u32, u32), LexError>((a, b)) && final(self).pos == f,
                None => r is Err,
            },
    {
        let major = self.scan_version_number(position)?;
        if !self.check_char('.') {
            let mut msg = String::new();
            push_str(&mut msg, "expected '.' in YAML version");
            return Err(LexError::new(LexErrorKind::InvalidDirective(msg), position.current()));
        }
        self.consume_char(position);
        let minor = self.scan_version_number(position)?;
        Ok((major, minor))
    }

    /// Scan version number: a non-empty run of digits whose value fits in a `u32`.
    fn scan_version_number(&mut self, position: &mut PositionTracker) -> (r: Result<u32, LexError>)
        requires
            old(self).ready(*old(position)),
            old(self).peeked_token is None,
        ensures
            final(self).advanced_from(old(self), *final(position), *old(position)),
            final(self).same_layout(old(self)),
            r matches Ok(n) ==> final(self).pos > old(self).pos
                && n == decimal_value(final(self).input@.subrange(old(self).pos as int, final(self).pos as int)),
            match number_at(old(self).input@, old(self).pos as int) {
                Some((v, e)) => r == Ok::<u32, LexError>(v) && final(self).pos == e,
                None => r is Err,
            },
    {
        let start = self.pos;
        while self.pos < self.input.len() && is_ascii_digit(self.input[self.pos])
            invariant
                self.advanced_from(old(self), *position, *old(position)),
                self.same_layout(old(self)),
                start == old(self).pos <= self.pos,
                digit_run(self.input@, self.pos as int) == digit_run(self.input@, start as int),
                forall|i: int| start <= i < self.pos ==> '0' <= #[trigger] self.input@[i] <= '9',
            decreases self.input@.len() - self.pos,
        {
            self.consume_char(position);
        }
        if start == self.pos {
            let mut msg = String::new();
            push_str(&mut msg, "expected version number");
            return Err(LexError::new(LexErrorKind::InvalidDirective(msg), position.current()));
        }
        match parse_u32_digits(self.input.as_slice(), start, self.pos) {
            Some(n) => Ok(n),
            None => Err(LexError::new(LexErrorKind::InvalidNumber, position.current())),
        }
    }

    /// Scan TAG directive parameters
    fn scan_tag_directive(&mut self, position: &mut PositionTracker) -> (r: Result<(String, String), LexError>)
        requires
            old(self).ready(*old(position)),
            old(self).peeked_token is None,
        ensures
            final(self).advanced_from(old(self), *final(position), *old(position)),
            final(self).same_layout(old(self)),
            r is Err <==> !(old(self).pos < old(self).input@.len() && old(self).input@[old(self).pos as int] == '!'),
    {
        let handle = self.scan_tag_handle(position)?;
        self.skip_spaces(position);
        let prefix = self.scan_tag_prefix(position);
        Ok((handle, prefix))
    }

    /// Scan tag handle: `!`, identifier characters, and an optional closing `!`.
    fn scan_tag_handle(&mut self, position: &mut PositionTracker) -> (r: Result<String, LexError>)
        requires
            old(self).ready(*old(position)),
            old(self).peeked_token is None,
        ensures
            final(self).advanced_from(old(self), *final(position), *old(position)),
            final(self).same_layout(old(self)),
            r matches Ok(h) ==> h@ == final(self).input@.subrange(old(self).pos as int, final(self).pos as int)
                && h@.len() > 0 && h@[0] == '!',
            r is Err <==> !(old(self).pos < old(self).input@.len() && old(self).input@[old(self).pos as int] == '!'),
    {
        let start = self.pos;
        if !self.check_char('!') {
            let mut msg = String::new();
            push_str(&mut msg, "tag handle must start with '!'");
            return Err(LexError::new(LexErrorKind::InvalidTag(msg), position.current()));
        }
        self.consume_char(position);
        while self.pos < self.input.len() && is_yaml_identifier(self.input[self.pos])
            invariant
                self.advanced_from(old(self), *position, *old(position)),
                self.same_layout(old(self)),
                start == old(self).pos < self.pos,
                self.input@[start as int] == '!',
            decreases self.input@.len() - self.pos,
        {
            self.consume_char(position);
        }
        if self.check_char('!') {
            self.consume_char(position);
        }
        Ok(substring(self.input.as_slice(), start, self.pos))
    }

    /// Scan tag prefix: a run of tag characters.
    fn scan_tag_prefix(&mut self, position: &mut PositionTracker) -> (r: String)
        requires
            old(self).ready(*old(position)),
            old(self).peeked_token is None,
        ensures
            final(self).advanced_from(old(self), *final(position), *old(position)),
            final(self).same_layout(old(self)),
            r@ == final(self).input@.subrange(old(self).pos as int, final(self).pos as int),
            forall|i: int| 0 <= i < r@.len() ==> spec_is_tag_char(#[trigger] r@[i]),
            final(self).pos < final(self).input@.len() ==> !spec_is_tag_char(final(self).input@[final(self).pos as int]),
    {
        let start = self.pos;
        while self.pos < self.input.len() && is_tag_char(self.input[self.pos])
            invariant
                self.advanced_from(old(self), *position, *old(position)),
                self.same_layout(old(self)),
                start == old(self).pos <= self.pos,
                forall|i: int| start <= i < self.pos ==> spec_is_tag_char(#[trigger] self.input@[i]),
            decreases self.input@.len() - self.pos,
        {
            self.consume_char(position);
        }
        let r = substring(self.input.as_slice(), start, self.pos);
        proof {
            assert forall|i: int| 0 <= i < r@.len() implies spec_is_tag_char(#[trigger] r@[i]) by {
                assert(r@[i] == self.input@[start + i]);
            }
        }
        r
    }

    /// Scan directive value: everything up to the end of the line.
    fn scan_directive_value(&mut self, position: &mut PositionTracker) -> (r: String)
        requires
            old(self).ready(*old(position)),
            old(self).peeked_token is None,
        ensures
            final(self).advanced_from(old(self), *final(position), *old(position)),
            final(self).same_layout(old(self)),
            r@ == final(self).input@.subrange(old(self).pos as int, final(self).pos as int),
            forall|i: int| 0 <= i < r@.len() ==> !spec_is_break(#[trigger] r@[i]),
            final(self).pos < final(self).input@.len() ==> spec_is_break(final(self).input@[final(self).pos as int]),
    {
        let start = self.pos;
        while self.pos < self.input.len() && !is_break(self.input[self.pos])
            invariant
                self.advanced_from(old(self), *position, *old(position)),
                self.same_layout(old(self)),
                start == old(self).pos <= self.pos,
                forall|i: int| start <= i < self.pos ==> !spec_is_break(#[trigger] self.input@[i]),
            decreases self.input@.len() - self.pos,
        {
            self.consume_char(position);
        }
        let r = substring(self.input.as_slice(), start, self.pos);
        proof {
            assert forall|i: int| 0 <= i < r@.len() implies !spec_is_break(#[trigger] r@[i]) by {
                assert(r@[i] == self.input@[start + i]);
            }
        }
        r
    }

    /// Scan single-quoted string: `''` stands for one quote; the next lone quote ends it.
    fn scan_single_quoted_string(&mut self, position: &mut PositionTracker) -> (r: Result<Token, LexError>)
        requires
            old(self).ready(*old(position)),
            old(self).peeked_token is None,
            old(self).pos < old(self).input@.len(),
        ensures
            final(self).advanced_from(old(self), *final(position), *old(position)),
            final(self).same_layout(old(self)),
            r matches Ok(t) ==> t.kind matches TokenKind::Scalar { style, tag, .. }
                && style == ScalarStyle::SingleQuoted && tag is None,
            match lex_sq(old(self).input@, old(self).pos + 1, Seq::empty()) {
                Some((v, e)) => r matches Ok(t) && t.position == old(position).spec_current()
                    && (t.kind matches TokenKind::Scalar { value, .. } && value@ == v) && final(self).pos == e,
                None => r is Err,
            },
    {
        let start_pos = position.current();
        self.consume_char(position);
        let mut result = String::new();
        while self.pos < self.input.len()
            invariant
                self.advanced_from(old(self), *position, *old(position)),
                self.same_layout(old(self)),
                start_pos == old(position).spec_current(),
                lex_sq(self.input@, self.pos as int, result@) == lex_sq(old(self).input@, old(self).pos + 1, Seq::empty()),
            decreases self.input@.len() - self.pos,
        {
            let ch = self.input[self.pos];
            if ch == '\'' {
                self.consume_char(position);
                if self.check_char('\'') {
                    self.consume_char(position);
                    push_char(&mut result, '\'');
                } else {
                    let length = position.current().byte_offset - start_pos.byte_offset;
                    return Ok(Token::new(
                        TokenKind::Scalar { value: result, style: ScalarStyle::SingleQuoted, tag: None },
                        start_pos,
                        length,
                    ));
                }
            } else {
                push_char(&mut result, ch);
                self.consume_char(position);
            }
        }
        Err(LexError::new(LexErrorKind::UnterminatedString, start_pos))
    }

    /// Scan double-quoted string; escape sequences in it are decoded.
    fn scan_double_quoted_string(&mut self, position: &mut PositionTracker) -> (r: Result<Token, LexError>)
        requires
            old(self).ready(*old(position)),
            old(self).peeked_token is None,
            old(self).pos < old(self).input@.len(),
        ensures
            final(self).advanced_from(old(self), *final(position), *old(position)),
            final(self).same_layout(old(self)),
            r matches Ok(t) ==> t.kind matches TokenKind::Scalar { style, tag, .. }
                && style == ScalarStyle::DoubleQuoted && tag is None,
            match lex_dq_end(old(self).input@, old(self).pos + 1) {
                None => r is Err,
                Some(e) => {
                    let raw = old(self).input@.subrange(old(self).pos + 1, e);
                    let v = if raw.contains('\\') { unescape(raw) } else { Ok::<Seq<char>, EscapeError>(raw) };
                    &&& r is Ok <==> v is Ok
                    &&& r matches Ok(t) ==> t.position == old(position).spec_current() && final(self).pos == e + 1
                        && (t.kind matches TokenKind::Scalar { value, .. } && v == Ok::<Seq<char>, EscapeError>(value@))
                },
            },
    {
        let start_pos = position.current();
        self.consume_char(position);
        let start = self.pos;
        let mut has_escapes = false;
        while self.pos < self.input.len()
            invariant
                self.advanced_from(old(self), *position, *old(position)),
                self.same_layout(old(self)),
                start_pos == old(position).spec_current(),
                start <= self.pos,
                start == old(self).pos + 1,
                lex_dq_end(self.input@, self.pos as int) == lex_dq_end(self.input@, start as int),
                has_escapes <==> exists|j: int| start <= j < self.pos && self.input@[j] == '\\',
            decreases self.input@.len() - self.pos,
        {
            let ch = self.input[self.pos];
            if ch == '"' {
                let end = self.pos;
                self.consume_char(position);
                let raw_value = substring(self.input.as_slice(), start, end);
                proof {
                    if has_escapes {
                        let j = choose|j: int| start <= j < end && self.input@[j] == '\\';
                        assert(raw_value@[j - start] == '\\');
                    } else {
                        assert forall|j: int| 0 <= j < raw_value@.len() implies raw_value@[j] != '\\' by {
                            assert(raw_value@[j] == self.input@[start + j]);
                        }
                    }
                }
                let value = if has_escapes {
                    match UnicodeProcessor::process_escapes(raw_value.as_str()) {
                        Ok(processed) => processed,
                        Err(e) => {
                            let mut msg = String::new();
                            push_str(&mut msg, "escape error: ");
                            let es = e.to_string();
                            push_str(&mut msg, es.as_str());
                            return Err(LexError::new(LexErrorKind::InvalidEscape(msg), position.current()));
                        },
                    }
                } else {
                    raw_value
                };
                let length = position.current().byte_offset - start_pos.byte_offset;
                return Ok(Token::new(
                    TokenKind::Scalar { value, style: ScalarStyle::DoubleQuoted, tag: None },
                    start_pos,
                    length,
                ));
            } else if ch == '\\' {
                let ghost j0 = self.pos;
                has_escapes = true;
                self.consume_char(position);
                if self.pos < self.input.len() {
                    self.consume_char(position);
                }
                proof { assert(self.input@[j0 as int] == '\\'); }
            } else {
                self.consume_char(position);
            }
        }
        Err(LexError::new(LexErrorKind::UnterminatedString, start_pos))
    }

    /// Scan literal block scalar indicator; the scalar's content is left empty.
    fn scan_literal_scalar(&mut self, position: &mut PositionTracker) -> (r: Result<Token, LexError>)
        requires
            old(self).ready(*old(position)),
            old(self).peeked_token is None,
            old(self).pos < old(self).input@.len(),
        ensures
            final(self).advanced_from(old(self), *final(position), *old(position)),
            final(self).same_layout(old(self)),
            r matches Ok(t) ==> t.kind matches TokenKind::Scalar { value, style, tag }
                && value@.len() == 0 && style == ScalarStyle::Literal && tag is None,
            r matches Ok(t) && t.position == old(position).spec_current(),
            final(self).pos == old(self).pos + 1,
    {
        let start_pos = position.current();
        self.consume_char(position);
        let length = position.current().byte_offset - start_pos.byte_offset;
        Ok(Token::new(TokenKind::Scalar { value: String::new(), style: ScalarStyle::Literal, tag: None }, start_pos, length))
    }

    /// Scan folded block scalar indicator; the scalar's content is left empty.
    fn scan_folded_scalar(&mut self, position: &mut PositionTracker) -> (r: Result<Token, LexError>)
        requires
            old(self).ready(*old(position)),
            old(self).peeked_token is None,
            old(self).pos < old(self).input@.len(),
        ensures
            final(self).advanced_from(old(self), *final(position), *old(position)),
            final(self).same_layout(old(self)),
            r matches Ok(t) ==> t.kind matches TokenKind::Scalar { value, style, tag }
                && value@.len() == 0 && style == ScalarStyle::Folded && tag is None,
            r matches Ok(t) && t.position == old(position).spec_current(),
            final(self).pos == old(self).pos + 1,
    {
        let start_pos = position.current();
        self.consume_char(position);
        let length = position.current().byte_offset - start_pos.byte_offset;
        Ok(Token::new(TokenKind::Scalar { value: String::new(), style: ScalarStyle::Folded, tag: None }, start_pos, length))
    }

    /// Scan line break: LF, CR LF or a lone CR.
    fn scan_line_break(&mut self, position: &mut PositionTracker) -> (r: Result<Token, LexError>)
        requires
            old(self).ready(*old(position)),
            old(self).peeked_token is None,
            old(self).pos < old(self).input@.len(),
        ensures
            final(self).advanced_from(old(self), *final(position), *old(position)),
            final(self).same_layout(old(self)),
            r == Ok::<Token, LexError>(Token { kind: TokenKind::LineBreak, position: old(position).spec_current(), length: 1 }),
    {
        let start_pos = position.current();
        if self.check_char('\r') {
            self.consume_char(position);
            if self.check_char('\n') {
                self.consume_char(position);
            }
        } else {
            self.consume_char(position);
        }
        Ok(Token::new(TokenKind::LineBreak, start_pos, 1))
    }

    /// Scan plain scalar: a character that may start one, then the characters that may continue it.
    fn scan_plain_scalar(&mut self, position: &mut PositionTracker) -> (r: Result<Token, LexError>)
        requires
            old(self).ready(*old(position)),
            old(self).peeked_token is None,
        ensures
            final(self).advanced_from(old(self), *final(position), *old(position)),
            final(self).same_layout(old(self)),
            r matches Ok(t) ==> t.kind matches TokenKind::Scalar { value, style, tag }
                && style == ScalarStyle::Plain && tag is None
                && value@ == final(self).input@.subrange(old(self).pos as int, final(self).pos as int)
                && value@.len() > 0
                && (forall|i: int| 0 <= i < value@.len() ==> spec_can_continue_plain_scalar(#[trigger] value@[i])),
            r is Ok <==> (old(self).pos < old(self).input@.len() && !spec_plain_start_excluded(old(self).input@[old(self).pos as int])
                && spec_can_continue_plain_scalar(old(self).input@[old(self).pos as int])),
            r matches Ok(t) ==> t.position == old(position).spec_current()
                && final(self).pos == plain_run(old(self).input@, old(self).pos as int)
                && t.length == final(self).pos - old(self).pos,
    {
        let start_pos = position.current();
        let start = self.pos;
        if self.pos < self.input.len() {
            let ch = self.input[self.pos];
            if !can_start_plain_scalar(ch) {
                let mut msg = String::new();
                push_str(&mut msg, "unexpected character '");
                push_char(&mut msg, ch);
                push_char(&mut msg, '\'');
                return Err(LexError::new(LexErrorKind::UnexpectedCharacter(msg), start_pos));
            }
        }
        while self.pos < self.input.len() && can_continue_plain_scalar(self.input[self.pos])
            invariant
                self.advanced_from(old(self), *position, *old(position)),
                self.same_layout(old(self)),
                start == old(self).pos <= self.pos,
                forall|i: int| start <= i < self.pos ==> spec_can_continue_plain_scalar(#[trigger] self.input@[i]),
                plain_run(self.input@, self.pos as int) == plain_run(self.input@, start as int),
            decreases self.input@.len() - self.pos,
        {
            self.consume_char(position);
        }
        if start == self.pos {
            let mut msg = String::new();
            push_str(&mut msg, "empty plain scalar");
            return Err(LexError::new(LexErrorKind::UnexpectedCharacter(msg), start_pos));
        }
        let value = substring(self.input.as_slice(), start, self.pos);
        proof {
            assert forall|i: int| 0 <= i < value@.len() implies spec_can_continue_plain_scalar(#[trigger] value@[i]) by {
                assert(value@[i] == self.input@[start + i]);
            }
        }
        let length = self.pos - start;
        Ok(Token::new(TokenKind::Scalar { value, style: ScalarStyle::Plain, tag: None }, start_pos, length))
    }

    /// Scan plain scalar starting with dash
    fn scan_plain_scalar_from_dash(&mut self, position: &mut PositionTracker, start_pos: Position) -> (r: Result<Token, LexError>)
        requires
            old(self).ready(*old(position)),
            old(self).peeked_token is None,
            old(self).pos >= 1,
            old(position).spec_current().byte_offset >= start_pos.byte_offset,
        ensures
            final(self).advanced_from(old(self), *final(position), *old(position)),
            final(self).same_layout(old(self)),
            r matches Ok(t) ==> t.kind matches TokenKind::Scalar { value, style, tag }
                && style == ScalarStyle::Plain && tag is None
                && value@ == final(self).input@.subrange(old(self).pos - 1, final(self).pos as int),
    {
        let start = self.pos - 1;
        self.scan_plain_scalar_rest(position, start_pos, start)
    }

    /// Scan plain scalar starting with colon
    fn scan_plain_scalar_from_colon(&mut self, position: &mut PositionTracker, start_pos: Position) -> (r: Result<Token, LexError>)
        requires
            old(self).ready(*old(position)),
            old(self).peeked_token is None,
            old(self).pos >= 1,
            old(position).spec_current().byte_offset >= start_pos.byte_offset,
        ensures
            final(self).advanced_from(old(self), *final(position), *old(position)),
            final(self).same_layout(old(self)),
            r matches Ok(t) ==> t.kind matches TokenKind::Scalar { value, style, tag }
                && style == ScalarStyle::Plain && tag is None
                && value@ == final(self).input@.subrange(old(self).pos - 1, final(self).pos as int),
    {
        let start = self.pos - 1;
        self.scan_plain_scalar_rest(position, start_pos, start)
    }

    /// The rest of a plain scalar whose first character, at `start`, is already consumed.
    fn scan_plain_scalar_rest(&mut self, position: &mut PositionTracker, start_pos: Position, start: usize) -> (r: Result<Token, LexError>)
        requires
            old(self).ready(*old(position)),
            old(self).peeked_token is None,
            start < old(self).pos,
        ensures
            final(self).advanced_from(old(self), *final(position), *old(position)),
            final(self).same_layout(old(self)),
            r matches Ok(t) ==> t.kind matches TokenKind::Scalar { value, style, tag }
                && style == ScalarStyle::Plain && tag is None
                && value@ == final(self).input@.subrange(start as int, final(self).pos as int)
                && (forall|i: int| old(self).pos - start <= i < value@.len() ==> spec_can_continue_plain_scalar(#[trigger] value@[i])),
            r is Ok,
    {
        while self.pos < self.input.len() && can_continue_plain_scalar(self.input[self.pos])
            invariant
                self.advanced_from(old(self), *position, *old(position)),
                self.same_layout(old(self)),
                start < old(self).pos <= self.pos,
                forall|i: int| old(self).pos <= i < self.pos ==> spec_can_continue_plain_scalar(#[trigger] self.input@[i]),
            decreases self.input@.len() - self.pos,
        {
            self.consume_char(position);
        }
        let value = substring(self.input.as_slice(), start, self.pos);
        proof {
            assert forall|i: int| old(self).pos - start <= i < value@.len() implies spec_can_continue_plain_scalar(#[trigger] value@[i]) by {
                assert(value@[i] == self.input@[start + i]);
            }
        }
        let length = self.pos - start;
        Ok(Token::new(TokenKind::Scalar { value, style: ScalarStyle::Plain, tag: None }, start_pos, length))
    }
}

} // verus!
