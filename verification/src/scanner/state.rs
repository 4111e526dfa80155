//! Scanner state: the input with its lookahead window, the position marker, flow and
//! indentation context, and a one-token cache.
use vstd::prelude::*;
use crate::error::{Marker, ScanError};
use crate::scanner::token::Token;
use crate::text::str_to_chars;

verus! {

/// Scanner configuration for customizable behavior
#[derive(Debug, Clone)]
pub struct ScannerConfig {
    /// Maximum recursion depth for nested structures
    pub max_depth: usize,
    /// Initial buffer capacity for performance
    pub initial_buffer_capacity: usize,
    /// Maximum anchor/alias name length
    pub max_anchor_length: usize,
    /// Enable strict YAML 1.2 compliance
    pub strict_yaml12: bool,
    /// Allow duplicate anchors (non-standard)
    pub allow_duplicate_anchors: bool,
}

impl Default for ScannerConfig {
    fn default() -> (c: Self)
        ensures
            c.max_depth == 1024,
            c.initial_buffer_capacity == 64,
            c.max_anchor_length == 1024,
            c.strict_yaml12,
            !c.allow_duplicate_anchors,
    {
        Self {
            max_depth: 1024,
            initial_buffer_capacity: 64,
            max_anchor_length: 1024,
            strict_yaml12: true,
            allow_duplicate_anchors: false,
        }
    }
}

/// The marker after passing the character `ch`: a line feed starts the next line at column 0.
pub open spec fn mark_after(m: Marker, ch: char) -> Marker {
    if ch == '\n' {
        Marker { index: (m.index + 1) as usize, line: (m.line + 1) as usize, col: 0 }
    } else {
        Marker { index: (m.index + 1) as usize, line: m.line, col: (m.col + 1) as usize }
    }
}

/// The marker after the first `p` characters of `s`.
pub open spec fn mark_of(s: Seq<char>, p: int) -> Marker
    decreases p,
{
    if p <= 0 || p > s.len() {
        Marker { index: 0, line: 1, col: 0 }
    } else {
        mark_after(mark_of(s, p - 1), s[p - 1])
    }
}

/// Scanner state with its lookahead window over the input.
pub struct ScannerState {
    /// The characters of the input
    source: Vec<char>,
    /// How many characters have been drawn into the lookahead window
    fetched: usize,
    /// How many characters have been consumed
    pos: usize,
    /// Current position marker
    mark: Marker,
    /// Source exhausted flag
    done: bool,
    /// Cached token for peeking
    cached_token: Option<Token>,
    /// Stream start produced flag
    stream_start_produced: bool,
    /// Stream end produced flag
    stream_end_produced: bool,
    /// Flow nesting level for context tracking
    flow_level: usize,
    /// Current indentation level
    indent: i32,
    /// Indentation stack for block context
    indent_stack: Vec<i32>,
    /// Simple key allowed flag
    simple_key_allowed: bool,
}

impl ScannerState {
    pub closed spec fn spec_source(&self) -> Seq<char> { self.source@ }
    pub closed spec fn spec_pos(&self) -> int { self.pos as int }
    pub closed spec fn spec_fetched(&self) -> int { self.fetched as int }
    pub closed spec fn spec_done(&self) -> bool { self.done }
    pub closed spec fn spec_mark(&self) -> Marker { self.mark }
    pub closed spec fn spec_cached(&self) -> Option<Token> { self.cached_token }
    pub closed spec fn spec_started(&self) -> bool { self.stream_start_produced }
    pub closed spec fn spec_ended(&self) -> bool { self.stream_end_produced }
    pub closed spec fn spec_flow_level(&self) -> usize { self.flow_level }
    pub closed spec fn spec_indent(&self) -> i32 { self.indent }
    pub closed spec fn spec_indents(&self) -> Seq<i32> { self.indent_stack@ }
    pub closed spec fn spec_simple_key(&self) -> bool { self.simple_key_allowed }

    /// The lookahead window: drawn from the input but not yet consumed.
    pub open spec fn window(&self) -> Seq<char> {
        self.spec_source().subrange(self.spec_pos(), self.spec_fetched())
    }

    /// The consumed prefix lies within the window's end, which lies within the input; the
    /// marker's index is the consumed count.
    pub open spec fn wf(&self) -> bool {
        &&& 0 <= self.spec_pos() <= self.spec_fetched() <= self.spec_source().len()
        &&& self.spec_source().len() < usize::MAX
        &&& self.spec_done() ==> self.spec_fetched() == self.spec_source().len()
        &&& self.spec_mark().index == self.spec_pos()
        &&& self.spec_mark().line <= self.spec_pos() + 1
        &&& self.spec_mark().col <= self.spec_pos()
        &&& (self.spec_mark().col == 0 <==> (self.spec_pos() == 0 || self.spec_source()[self.spec_pos() - 1] == '\n'))
        &&& self.spec_mark() == mark_of(self.spec_source(), self.spec_pos())
    }

    /// `self` is `old` with only the lookahead window grown (possibly reaching the end).
    pub open spec fn only_window_grew(&self, old: &ScannerState) -> bool {
        &&& self.wf()
        &&& self.spec_source() == old.spec_source()
        &&& self.spec_pos() == old.spec_pos()
        &&& self.spec_mark() == old.spec_mark()
        &&& self.spec_fetched() >= old.spec_fetched()
        &&& (old.spec_done() ==> self.spec_done())
        &&& self.same_context(old)
    }

    /// `self` keeps the cache, stream flags, flow level, indentation and simple-key flag of `old`.
    pub open spec fn same_context(&self, old: &ScannerState) -> bool {
        &&& self.spec_cached() == old.spec_cached()
        &&& self.spec_started() == old.spec_started()
        &&& self.spec_ended() == old.spec_ended()
        &&& self.spec_flow_level() == old.spec_flow_level()
        &&& self.spec_indent() == old.spec_indent()
        &&& self.spec_indents() == old.spec_indents()
        &&& self.spec_simple_key() == old.spec_simple_key()
    }

    /// `self` is `old` after reading on: same input and context, nothing unconsumed.
    pub open spec fn read_on_from(&self, old: &ScannerState) -> bool {
        &&& self.wf()
        &&& self.spec_source() == old.spec_source()
        &&& self.spec_pos() >= old.spec_pos()
        &&& self.same_context(old)
    }

    /// Create new scanner state over the characters of `source`
    pub fn new(source: &str) -> (s: Self)
        requires
            source@.len() < usize::MAX,
        ensures
            s.wf(),
            s.spec_source() == source@,
            s.spec_pos() == 0,
            s.spec_fetched() == 0,
            !s.spec_done(),
            s.spec_mark() == (Marker { index: 0, line: 1, col: 0 }),
            s.spec_cached() is None,
            !s.spec_started(),
            !s.spec_ended(),
            s.spec_flow_level() == 0,
            s.spec_indent() == -1,
            s.spec_indents() == Seq::<i32>::empty(),
            s.spec_simple_key(),
    {
        Self {
            source: str_to_chars(source),
            fetched: 0,
            pos: 0,
            mark: Marker::new(),
            done: false,
            cached_token: None,
            stream_start_produced: false,
            stream_end_produced: false,
            flow_level: 0,
            indent: -1,
            indent_stack: Vec::new(),
            simple_key_allowed: true,
        }
    }

    /// Get current position marker
    pub fn mark(&self) -> (m: Marker)
        ensures
            m == self.spec_mark(),
    {
        self.mark
    }

    /// Check if source is exhausted: the end was reached and the window is empty
    pub fn is_done(&self) -> (b: bool)
        ensures
            b == (self.spec_done() && self.spec_pos() == self.spec_fetched()),
    {
        self.done && self.pos == self.fetched
    }

    /// Check if stream start was produced
    pub fn stream_started(&self) -> (b: bool)
        ensures
            b == self.spec_started(),
    {
        self.stream_start_produced
    }

    /// Check if stream end was produced
    pub fn stream_ended(&self) -> (b: bool)
        ensures
            b == self.spec_ended(),
    {
        self.stream_end_produced
    }

    /// Mark stream as started
    pub fn mark_stream_started(&mut self)
        requires
            old(self).wf(),
        ensures
            final(self).wf(),
            final(self).spec_started(),
            final(self).spec_source() == old(self).spec_source(),
            final(self).spec_pos() == old(self).spec_pos(),
            final(self).spec_fetched() == old(self).spec_fetched(),
            final(self).spec_done() == old(self).spec_done(),
            final(self).spec_mark() == old(self).spec_mark(),
            final(self).spec_ended() == old(self).spec_ended(),
            final(self).spec_cached() == old(self).spec_cached(),
            final(self).spec_flow_level() == old(self).spec_flow_level(),
    {
        self.stream_start_produced = true;
    }

    /// Mark stream as ended
    pub fn mark_stream_ended(&mut self)
        requires
            old(self).wf(),
        ensures
            final(self).wf(),
            final(self).spec_ended(),
            final(self).spec_source() == old(self).spec_source(),
            final(self).spec_pos() == old(self).spec_pos(),
            final(self).spec_fetched() == old(self).spec_fetched(),
            final(self).spec_done() == old(self).spec_done(),
            final(self).spec_mark() == old(self).spec_mark(),
            final(self).spec_started() == old(self).spec_started(),
            final(self).spec_cached() == old(self).spec_cached(),
            final(self).spec_flow_level() == old(self).spec_flow_level(),
    {
        self.stream_end_produced = true;
    }

    /// Check if we're in flow context
    pub fn in_flow_context(&self) -> (b: bool)
        ensures
            b == (self.spec_flow_level() > 0),
    {
        self.flow_level > 0
    }

    /// Enter flow context (for [ ] or { }): one level deeper, simple keys allowed
    pub fn enter_flow_context(&mut self)
        requires
            old(self).wf(),
            old(self).spec_flow_level() < usize::MAX,
        ensures
            final(self).wf(),
            final(self).spec_flow_level() == old(self).spec_flow_level() + 1,
            final(self).spec_simple_key(),
            final(self).spec_source() == old(self).spec_source(),
            final(self).spec_pos() == old(self).spec_pos(),
            final(self).spec_fetched() == old(self).spec_fetched(),
            final(self).spec_done() == old(self).spec_done(),
            final(self).spec_mark() == old(self).spec_mark(),
            final(self).spec_cached() == old(self).spec_cached(),
            final(self).spec_started() == old(self).spec_started(),
            final(self).spec_ended() == old(self).spec_ended(),
            final(self).spec_indent() == old(self).spec_indent(),
            final(self).spec_indents() == old(self).spec_indents(),
    {
        self.flow_level = self.flow_level + 1;
        self.simple_key_allowed = true;
    }

    /// Exit flow context: an error at depth zero, otherwise one level out
    pub fn exit_flow_context(&mut self) -> (r: Result<(), ScanError>)
        requires
            old(self).wf(),
        ensures
            final(self).wf(),
            r is Err <==> old(self).spec_flow_level() == 0,
            r matches Err(e) ==> e.mark == old(self).spec_mark(),
            r is Ok ==> final(self).spec_flow_level() == old(self).spec_flow_level() - 1,
            r is Err ==> final(self).spec_flow_level() == 0,
            final(self).spec_source() == old(self).spec_source(),
            final(self).spec_pos() == old(self).spec_pos(),
            final(self).spec_fetched() == old(self).spec_fetched(),
            final(self).spec_done() == old(self).spec_done(),
            final(self).spec_mark() == old(self).spec_mark(),
            final(self).spec_cached() == old(self).spec_cached(),
            final(self).spec_started() == old(self).spec_started(),
            final(self).spec_ended() == old(self).spec_ended(),
            final(self).spec_indent() == old(self).spec_indent(),
            final(self).spec_indents() == old(self).spec_indents(),
            final(self).spec_simple_key() == old(self).spec_simple_key(),
    {
        if self.flow_level == 0 {
            return Err(ScanError::new(self.mark, "unexpected flow collection end"));
        }
        self.flow_level = self.flow_level - 1;
        Ok(())
    }

    /// Get current flow level
    pub fn flow_level(&self) -> (n: usize)
        ensures
            n == self.spec_flow_level(),
    {
        self.flow_level
    }

    /// Check if simple key is allowed
    pub fn simple_key_allowed(&self) -> (b: bool)
        ensures
            b == self.spec_simple_key(),
    {
        self.simple_key_allowed
    }

    /// Set simple key allowed flag
    pub fn set_simple_key_allowed(&mut self, allowed: bool)
        requires
            old(self).wf(),
        ensures
            final(self).wf(),
            final(self).spec_simple_key() == allowed,
            final(self).spec_source() == old(self).spec_source(),
            final(self).spec_pos() == old(self).spec_pos(),
            final(self).spec_mark() == old(self).spec_mark(),
            final(self).spec_flow_level() == old(self).spec_flow_level(),
            final(self).spec_indent() == old(self).spec_indent(),
            final(self).spec_indents() == old(self).spec_indents(),
            final(self).spec_cached() == old(self).spec_cached(),
    {
        self.simple_key_allowed = allowed;
    }

    /// Get current indentation
    pub fn indent(&self) -> (i: i32)
        ensures
            i == self.spec_indent(),
    {
        self.indent
    }

    /// Push indentation level: the current one is saved, `indent` becomes current
    pub fn push_indent(&mut self, indent: i32)
        requires
            old(self).wf(),
        ensures
            final(self).wf(),
            final(self).spec_indent() == indent,
            final(self).spec_indents() == old(self).spec_indents().push(old(self).spec_indent()),
            final(self).spec_source() == old(self).spec_source(),
            final(self).spec_pos() == old(self).spec_pos(),
            final(self).spec_mark() == old(self).spec_mark(),
            final(self).spec_flow_level() == old(self).spec_flow_level(),
            final(self).spec_cached() == old(self).spec_cached(),
    {
        self.indent_stack.push(self.indent);
        self.indent = indent;
    }

    /// Pop indentation level: the saved level becomes current, the old current is returned
    pub fn pop_indent(&mut self) -> (r: Option<i32>)
        requires
            old(self).wf(),
        ensures
            final(self).wf(),
            old(self).spec_indents().len() == 0 ==> r is None && final(self).spec_indent() == old(self).spec_indent()
                && final(self).spec_indents() == old(self).spec_indents(),
            old(self).spec_indents().len() > 0 ==> r == Some(old(self).spec_indent())
                && final(self).spec_indent() == old(self).spec_indents().last()
                && final(self).spec_indents() == old(self).spec_indents().drop_last(),
            final(self).spec_source() == old(self).spec_source(),
            final(self).spec_pos() == old(self).spec_pos(),
            final(self).spec_mark() == old(self).spec_mark(),
            final(self).spec_flow_level() == old(self).spec_flow_level(),
            final(self).spec_cached() == old(self).spec_cached(),
    {
        if let Some(prev) = self.indent_stack.pop() {
            let current = self.indent;
            self.indent = prev;
            Some(current)
        } else {
            None
        }
    }

    /// Check if has cached token
    pub fn has_cached_token(&self) -> (b: bool)
        ensures
            b == (self.spec_cached() is Some),
    {
        self.cached_token.is_some()
    }

    /// Cache a token for peeking
    pub fn cache_token(&mut self, token: Token)
        requires
            old(self).wf(),
        ensures
            final(self).wf(),
            final(self).spec_cached() == Some(token),
            final(self).spec_source() == old(self).spec_source(),
            final(self).spec_pos() == old(self).spec_pos(),
            final(self).spec_fetched() == old(self).spec_fetched(),
            final(self).spec_done() == old(self).spec_done(),
            final(self).spec_mark() == old(self).spec_mark(),
            final(self).spec_started() == old(self).spec_started(),
            final(self).spec_ended() == old(self).spec_ended(),
            final(self).spec_flow_level() == old(self).spec_flow_level(),
    {
        self.cached_token = Some(token);
    }

    /// Peek at cached token
    pub fn peek_cached_token(&self) -> (r: Option<&Token>)
        ensures
            r == match self.spec_cached() { Some(t) => Some(&t), None => None::<&Token> },
    {
        match &self.cached_token {
            Some(t) => Some(t),
            None => None,
        }
    }

    /// Take cached token
    pub fn take_cached_token(&mut self) -> (r: Option<Token>)
        requires
            old(self).wf(),
        ensures
            final(self).wf(),
            r == old(self).spec_cached(),
            final(self).spec_cached() is None,
            final(self).spec_source() == old(self).spec_source(),
            final(self).spec_pos() == old(self).spec_pos(),
            final(self).spec_fetched() == old(self).spec_fetched(),
            final(self).spec_done() == old(self).spec_done(),
            final(self).spec_mark() == old(self).spec_mark(),
            final(self).spec_started() == old(self).spec_started(),
            final(self).spec_ended() == old(self).spec_ended(),
            final(self).spec_flow_level() == old(self).spec_flow_level(),
    {
        self.cached_token.take()
    }

    /// Clear cached token
    pub fn clear_cached_token(&mut self)
        requires
            old(self).wf(),
        ensures
            final(self).wf(),
            final(self).spec_cached() is None,
            final(self).spec_source() == old(self).spec_source(),
            final(self).spec_pos() == old(self).spec_pos(),
            final(self).spec_fetched() == old(self).spec_fetched(),
            final(self).spec_done() == old(self).spec_done(),
            final(self).spec_mark() == old(self).spec_mark(),
            final(self).spec_started() == old(self).spec_started(),
            final(self).spec_ended() == old(self).spec_ended(),
            final(self).spec_flow_level() == old(self).spec_flow_level(),
    {
        self.cached_token = None;
    }

    /// Fill the window to at least `n` characters, or to the end of the input (which sets the
    /// exhausted flag)
    pub fn ensure_buffer(&mut self, n: usize)
        requires
            old(self).wf(),
        ensures
            final(self).only_window_grew(old(self)),
            final(self).spec_fetched() - final(self).spec_pos() >= n || final(self).spec_done(),
            final(self).spec_fetched() == if old(self).spec_fetched() - old(self).spec_pos() >= n {
                old(self).spec_fetched()
            } else if old(self).spec_pos() + n <= old(self).spec_source().len() {
                old(self).spec_pos() + n
            } else {
                old(self).spec_source().len() as int
            },
            final(self).spec_done() == (old(self).spec_done() || (old(self).spec_fetched() - old(self).spec_pos() < n
                && old(self).spec_pos() + n > old(self).spec_source().len())),
    {
        while self.fetched - self.pos < n && !self.done
            invariant
                self.pos <= self.fetched <= self.source@.len() < usize::MAX,
                self.done ==> self.fetched == self.source@.len(),
                self.pos == old(self).pos,
                self.source@ == old(self).source@,
                self.mark == old(self).mark,
                self.cached_token == old(self).cached_token,
                self.stream_start_produced == old(self).stream_start_produced,
                self.stream_end_produced == old(self).stream_end_produced,
                self.flow_level == old(self).flow_level,
                self.indent == old(self).indent,
                self.indent_stack@ == old(self).indent_stack@,
                self.simple_key_allowed == old(self).simple_key_allowed,
                self.fetched >= old(self).fetched,
                old(self).done ==> self.done,
                old(self).fetched - old(self).pos >= n ==> self.fetched == old(self).fetched && self.done == old(self).done,
                old(self).fetched - old(self).pos < n ==> self.fetched <= if old(self).pos + n <= old(self).source@.len() { old(self).pos + n } else { old(self).source@.len() as int },
                self.done ==> old(self).done || old(self).pos + n > old(self).source@.len(),
                !self.done && self.fetched < old(self).fetched + 1 ==> self.fetched == old(self).fetched,
            decreases self.source@.len() - self.fetched + (if self.done { 0int } else { 1int }),
        {
            if self.fetched < self.source.len() {
                self.fetched = self.fetched + 1;
            } else {
                self.done = true;
            }
        }
    }

    /// Peek at next character without consuming
    pub fn peek_char(&mut self) -> (r: Result<char, ScanError>)
        requires
            old(self).wf(),
        ensures
            final(self).only_window_grew(old(self)),
            final(self).spec_fetched() > final(self).spec_pos() || final(self).spec_done(),
            r is Ok ==> final(self).spec_fetched() > final(self).spec_pos(),
            final(self).spec_fetched() == window_after_peek(old(self).spec_source(), old(self).spec_pos(), old(self).spec_fetched()),
            r matches Ok(c) ==> old(self).spec_pos() < old(self).spec_source().len()
                && c == old(self).spec_source()[old(self).spec_pos()],
            r is Err <==> old(self).spec_pos() == old(self).spec_source().len(),
            r matches Err(e) ==> e.mark == old(self).spec_mark() && e.info@ == "unexpected end of input"@,
    {
        self.ensure_buffer(1);
        if self.pos < self.fetched {
            Ok(self.source[self.pos])
        } else {
            Err(ScanError::new(self.mark, "unexpected end of input"))
        }
    }

    /// Peek at character at offset without consuming
    pub fn peek_char_at(&mut self, offset: usize) -> (r: Option<char>)
        requires
            old(self).wf(),
            offset < usize::MAX,
        ensures
            final(self).only_window_grew(old(self)),
            r == if old(self).spec_pos() + offset < old(self).spec_source().len() {
                Some(old(self).spec_source()[old(self).spec_pos() + offset])
            } else {
                None::<char>
            },
    {
        self.ensure_buffer(offset + 1);
        if self.fetched - self.pos > offset {
            Some(self.source[self.pos + offset])
        } else {
            None
        }
    }

    /// Check if next characters match a pattern
    pub fn check_chars(&mut self, pattern: &[char]) -> (b: bool)
        requires
            old(self).wf(),
        ensures
            final(self).only_window_grew(old(self)),
            b == (old(self).spec_pos() + pattern@.len() <= old(self).spec_source().len()
                && old(self).spec_source().subrange(old(self).spec_pos(), old(self).spec_pos() + pattern@.len()) == pattern@),
            b ==> final(self).spec_fetched() >= final(self).spec_pos() + pattern@.len(),
    {
        self.ensure_buffer(pattern.len());
        if self.fetched - self.pos < pattern.len() {
            return false;
        }
        let mut i: usize = 0;
        while i < pattern.len()
            invariant
                self.only_window_grew(old(self)),
                self.spec_pos() + pattern@.len() <= self.spec_fetched(),
                i <= pattern@.len(),
                forall|j: int| 0 <= j < i ==> self.source@[self.pos + j] == pattern@[j],
            decreases pattern@.len() - i,
        {
            if self.source[self.pos + i] != pattern[i] {
                return false;
            }
            i = i + 1;
        }
        assert(self.source@.subrange(self.pos as int, self.pos + pattern@.len()) =~= pattern@);
        true
    }

    /// Consume the next character of the window and update the position marker; an error
    /// when the window is empty.
    pub fn consume_char(&mut self) -> (r: Result<char, ScanError>)
        requires
            old(self).wf(),
        ensures
            final(self).wf(),
            final(self).spec_source() == old(self).spec_source(),
            final(self).spec_fetched() == old(self).spec_fetched(),
            final(self).spec_done() == old(self).spec_done(),
            final(self).same_context(old(self)),
            r is Ok <==> old(self).spec_pos() < old(self).spec_fetched(),
            r matches Ok(c) ==> c == old(self).spec_source()[old(self).spec_pos()]
                && final(self).spec_pos() == old(self).spec_pos() + 1
                && final(self).spec_mark() == mark_after(old(self).spec_mark(), c),
            r matches Err(e) ==> e.mark == old(self).spec_mark() && e.info@ == "unexpected end of input"@
                && final(self).spec_pos() == old(self).spec_pos()
                && final(self).spec_mark() == old(self).spec_mark(),
    {
        if self.pos < self.fetched {
            let ch = self.source[self.pos];
            self.pos = self.pos + 1;
            self.mark.index = self.mark.index + 1;
            if ch == '\n' {
                self.mark.line = self.mark.line + 1;
                self.mark.col = 0;
            } else {
                self.mark.col = self.mark.col + 1;
            }
            Ok(ch)
        } else {
            Err(ScanError::new(self.mark, "unexpected end of input"))
        }
    }

    /// Consume `n` characters: an error as soon as the window runs empty
    pub fn consume_chars(&mut self, n: usize) -> (r: Result<(), ScanError>)
        requires
            old(self).wf(),
        ensures
            final(self).read_on_from(old(self)),
            final(self).spec_fetched() == old(self).spec_fetched(),
            r is Ok <==> old(self).spec_pos() + n <= old(self).spec_fetched(),
            r is Ok ==> final(self).spec_pos() == old(self).spec_pos() + n,
    {
        for i in 0..n
            invariant
                self.read_on_from(old(self)),
                self.spec_fetched() == old(self).spec_fetched(),
                self.spec_pos() == old(self).spec_pos() + i,
        {
            self.consume_char()?;
        }
        Ok(())
    }

    /// Check for document start marker (---) followed by a boundary
    pub fn check_document_start(&mut self) -> (r: Result<bool, ScanError>)
        requires
            old(self).wf(),
        ensures
            final(self).only_window_grew(old(self)),
            r matches Ok(b) && b == marker_ahead(old(self).spec_source(), old(self).spec_pos(), '-'),
            r matches Ok(true) ==> final(self).spec_fetched() >= final(self).spec_pos() + 3,
    {
        let p = ['-', '-', '-'];
        let ghost s0 = self.spec_source();
        let ghost p0 = self.spec_pos();
        let a = self.check_chars(&p);
        proof {
            assert(p@ =~= seq!['-', '-', '-']);
            if p0 + 3 <= s0.len() && s0[p0] == '-' && s0[p0 + 1] == '-' && s0[p0 + 2] == '-' {
                assert(s0.subrange(p0, p0 + 3) =~= p@);
            }
            if a {
                assert(s0.subrange(p0, p0 + 3)[0] == s0[p0]);
                assert(s0.subrange(p0, p0 + 3)[1] == s0[p0 + 1]);
                assert(s0.subrange(p0, p0 + 3)[2] == s0[p0 + 2]);
            }
        }
        Ok(a && self.check_boundary_after(3))
    }

    /// Check for document end marker (...) followed by a boundary
    pub fn check_document_end(&mut self) -> (r: Result<bool, ScanError>)
        requires
            old(self).wf(),
        ensures
            final(self).only_window_grew(old(self)),
            r matches Ok(b) && b == marker_ahead(old(self).spec_source(), old(self).spec_pos(), '.'),
            r matches Ok(true) ==> final(self).spec_fetched() >= final(self).spec_pos() + 3,
    {
        let p = ['.', '.', '.'];
        let ghost s0 = self.spec_source();
        let ghost p0 = self.spec_pos();
        let a = self.check_chars(&p);
        proof {
            assert(p@ =~= seq!['.', '.', '.']);
            if p0 + 3 <= s0.len() && s0[p0] == '.' && s0[p0 + 1] == '.' && s0[p0 + 2] == '.' {
                assert(s0.subrange(p0, p0 + 3) =~= p@);
            }
            if a {
                assert(s0.subrange(p0, p0 + 3)[0] == s0[p0]);
                assert(s0.subrange(p0, p0 + 3)[1] == s0[p0 + 1]);
                assert(s0.subrange(p0, p0 + 3)[2] == s0[p0 + 2]);
            }
        }
        Ok(a && self.check_boundary_after(3))
    }

    /// Check for block entry (- followed by a blank or the end)
    pub fn check_block_entry(&mut self) -> (r: Result<bool, ScanError>)
        requires
            old(self).wf(),
        ensures
            final(self).only_window_grew(old(self)),
            r matches Ok(b) && b == {
                let s = old(self).spec_source();
                let p = old(self).spec_pos();
                p < s.len() && s[p] == '-' && (p + 1 >= s.len()
                    || s[p + 1] == ' ' || s[p + 1] == '\t' || s[p + 1] == '\n' || s[p + 1] == '\r')
            },
            r matches Ok(true) ==> final(self).spec_fetched() > final(self).spec_pos(),
    {
        self.ensure_buffer(2);
        if self.pos < self.fetched && self.source[self.pos] == '-' {
            if self.fetched - self.pos >= 2 {
                let c = self.source[self.pos + 1];
                Ok(c == ' ' || c == '\t' || c == '\n' || c == '\r')
            } else {
                Ok(true)
            }
        } else {
            Ok(false)
        }
    }

    /// Check if character at offset is a boundary (blank, flow end, comma, or the end)
    fn check_boundary_after(&mut self, offset: usize) -> (b: bool)
        requires
            old(self).wf(),
            offset < usize::MAX,
        ensures
            final(self).only_window_grew(old(self)),
            b == is_boundary_at(old(self).spec_source(), old(self).spec_pos() + offset),
    {
        match self.peek_char_at(offset) {
            Some(ch) => ch == ' ' || ch == '\t' || ch == '\n' || ch == '\r' || ch == ',' || ch == ']' || ch == '}',
            None => true,
        }
    }

    /// Peek ahead multiple characters
    pub fn peek_slice(&mut self, n: usize) -> (v: Vec<char>)
        requires
            old(self).wf(),
        ensures
            final(self).only_window_grew(old(self)),
            v@ == old(self).spec_source().subrange(old(self).spec_pos(),
                if old(self).spec_pos() + n <= old(self).spec_source().len() { old(self).spec_pos() + n } else { old(self).spec_source().len() as int }),
    {
        self.ensure_buffer(n);
        let avail = self.fetched - self.pos;
        let k = if avail < n { avail } else { n };
        let mut v: Vec<char> = Vec::new();
        for i in 0..k
            invariant
                self.only_window_grew(old(self)),
                k <= self.spec_fetched() - self.spec_pos(),
                v@ == self.source@.subrange(self.pos as int, self.pos + i),
        {
            v.push(self.source[self.pos + i]);
            assert(v@ =~= self.source@.subrange(self.pos as int, self.pos + i + 1));
        }
        v
    }

    /// Check if at beginning of line
    pub fn at_line_start(&self) -> (b: bool)
        ensures
            b == (self.spec_mark().col == 0),
    {
        self.mark.col == 0
    }

    /// Get current column position
    pub fn column(&self) -> (c: usize)
        ensures
            c == self.spec_mark().col,
    {
        self.mark.col
    }
}

/// The lookahead window after peeking at `i`: it reaches at least one character past `i`
/// where the input allows.
pub open spec fn window_after_peek(s: Seq<char>, i: int, f: int) -> int {
    if f > i { f } else if i < s.len() { i + 1 } else { s.len() as int }
}

/// The character at `i` is a boundary after a marker: a blank, `,`, `]`, `}`, or the end.
pub open spec fn is_boundary_at(s: Seq<char>, i: int) -> bool {
    i >= s.len() || s[i] == ' ' || s[i] == '\t' || s[i] == '\n' || s[i] == '\r' || s[i] == ','
        || s[i] == ']' || s[i] == '}'
}

/// Three `c` characters at `p`, followed by a boundary.
pub open spec fn marker_ahead(s: Seq<char>, p: int, c: char) -> bool {
    p + 3 <= s.len() && s[p] == c && s[p + 1] == c && s[p + 2] == c && is_boundary_at(s, p + 3)
}

impl Marker {
    /// Create default marker at start of stream
    pub fn new() -> (m: Self)
        ensures
            m == (Marker { index: 0, line: 1, col: 0 }),
    {
        Self { index: 0, line: 1, col: 0 }
    }

    /// Create marker at specific position
    pub fn at(index: usize, line: usize, col: usize) -> (m: Self)
        ensures
            m == (Marker { index, line, col }),
    {
        Self { index, line, col }
    }
}

} // verus!
