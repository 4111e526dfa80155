//! Lexical analysis for YAML: positions, tokens, character classes and the tokenizer.
use vstd::prelude::*;
use crate::text::{push_str, push_char, push_decimal, decimal};

pub mod position;
pub mod scanner;
pub mod tokens;
pub mod unicode;

pub use position::{Position, Span, PositionTracker};
pub use scanner::Scanner;
pub use tokens::{Token, TokenKind, ScalarStyle};

verus! {

/// Lexical error type with precise source location
#[derive(Debug, Clone, PartialEq, Eq)]
pub struct LexError {
    pub kind: LexErrorKind,
    pub position: Position,
}

impl LexError {
    pub fn new(kind: LexErrorKind, position: Position) -> (e: Self)
        ensures
            e == (LexError { kind, position }),
    {
        Self { kind, position }
    }
}

/// Types of lexical errors
#[derive(Debug, Clone, PartialEq, Eq)]
pub enum LexErrorKind {
    UnexpectedCharacter(String),
    InvalidEscape(String),
    UnterminatedString,
    InvalidUnicode,
    InvalidUnicodeEscape,
    InvalidNumber,
    InvalidTag(String),
    InvalidAnchor(String),
    InvalidAlias(String),
    InvalidDirective(String),
    InvalidIndentation(String),
    UnexpectedEndOfInput,
    EmptyScalar,
}


impl LexError {
    /// The error as it is displayed: `"{kind} at {line}:{column}"`.
    pub fn to_string(&self) -> (s: String)
        ensures
            s@ == self.kind.message_spec() + " at "@ + decimal(self.position.line as nat) + seq![':']
                + decimal(self.position.column as nat),
    {
        let mut s = self.kind.to_string();
        push_str(&mut s, " at ");
        push_decimal(&mut s, self.position.line);
        push_char(&mut s, ':');
        push_decimal(&mut s, self.position.column);
        s
    }
}

impl LexErrorKind {
    pub open spec fn message_spec(&self) -> Seq<char> {
        match self {
            LexErrorKind::UnexpectedCharacter(msg) => "unexpected character: "@ + msg@,
            LexErrorKind::InvalidEscape(msg) => "invalid escape sequence: "@ + msg@,
            LexErrorKind::UnterminatedString => "unterminated string"@,
            LexErrorKind::InvalidUnicode => "invalid unicode sequence"@,
            LexErrorKind::InvalidUnicodeEscape => "invalid unicode escape"@,
            LexErrorKind::InvalidNumber => "invalid number format"@,
            LexErrorKind::InvalidTag(msg) => "invalid tag: "@ + msg@,
            LexErrorKind::InvalidAnchor(msg) => "invalid anchor: "@ + msg@,
            LexErrorKind::InvalidAlias(msg) => "invalid alias: "@ + msg@,
            LexErrorKind::InvalidDirective(msg) => "invalid directive: "@ + msg@,
            LexErrorKind::InvalidIndentation(msg) => "invalid indentation: "@ + msg@,
            LexErrorKind::UnexpectedEndOfInput => "unexpected end of input"@,
            LexErrorKind::EmptyScalar => "empty scalar"@,
        }
    }

    /// The kind as it is displayed.
    pub fn to_string(&self) -> (s: String)
        ensures
            s@ == self.message_spec(),
    {
        let mut s = String::new();
        match self {
            LexErrorKind::UnexpectedCharacter(msg) => { push_str(&mut s, "unexpected character: "); push_str(&mut s, msg.as_str()); },
            LexErrorKind::InvalidEscape(msg) => { push_str(&mut s, "invalid escape sequence: "); push_str(&mut s, msg.as_str()); },
            LexErrorKind::UnterminatedString => { push_str(&mut s, "unterminated string"); },
            LexErrorKind::InvalidUnicode => { push_str(&mut s, "invalid unicode sequence"); },
            LexErrorKind::InvalidUnicodeEscape => { push_str(&mut s, "invalid unicode escape"); },
            LexErrorKind::InvalidNumber => { push_str(&mut s, "invalid number format"); },
            LexErrorKind::InvalidTag(msg) => { push_str(&mut s, "invalid tag: "); push_str(&mut s, msg.as_str()); },
            LexErrorKind::InvalidAnchor(msg) => { push_str(&mut s, "invalid anchor: "); push_str(&mut s, msg.as_str()); },
            LexErrorKind::InvalidAlias(msg) => { push_str(&mut s, "invalid alias: "); push_str(&mut s, msg.as_str()); },
            LexErrorKind::InvalidDirective(msg) => { push_str(&mut s, "invalid directive: "); push_str(&mut s, msg.as_str()); },
            LexErrorKind::InvalidIndentation(msg) => { push_str(&mut s, "invalid indentation: "); push_str(&mut s, msg.as_str()); },
            LexErrorKind::UnexpectedEndOfInput => { push_str(&mut s, "unexpected end of input"); },
            LexErrorKind::EmptyScalar => { push_str(&mut s, "empty scalar"); },
        }
        s
    }
}

/// High-performance lexer interface for YAML tokenization
#[derive(Debug, Clone)]
pub struct YamlLexer {
    scanner: Scanner,
    position: PositionTracker,
}

impl YamlLexer {
    /// The lexer's scanner can keep scanning: it and its tracker are consistent.
    pub closed spec fn wf(&self) -> bool {
        self.scanner.ready(self.position)
    }

    /// The characters being tokenized.
    pub closed spec fn input_seq(&self) -> Seq<char> {
        self.scanner.input_seq()
    }

    /// How many characters have been consumed.
    pub closed spec fn consumed(&self) -> int {
        self.scanner.spec_pos()
    }

    pub closed spec fn spec_position(&self) -> Position {
        self.position.spec_current()
    }

    /// Create a new lexer for the given input
    pub fn new(input: &str) -> (l: Self)
        requires
            8 * input@.len() <= usize::MAX,
        ensures
            l.wf(),
            l.consumed() == 0,
            l.spec_position() == Position::start_spec(),
    {
        Self { scanner: Scanner::new(input), position: PositionTracker::new() }
    }

    /// Get the next token from the input
    pub fn next_token(&mut self) -> (r: Result<Token, LexError>)
        requires
            old(self).wf(),
        ensures
            final(self).wf(),
            final(self).input_seq() == old(self).input_seq(),
            final(self).consumed() >= old(self).consumed(),
    {
        self.scanner.scan_token(&mut self.position)
    }

    /// Peek at the next token without consuming it
    pub fn peek_token(&mut self) -> (r: Result<Token, LexError>)
        requires
            old(self).wf(),
        ensures
            final(self).wf(),
            final(self).input_seq() == old(self).input_seq(),
            final(self).consumed() >= old(self).consumed(),
    {
        self.scanner.peek_token(&mut self.position)
    }

    /// Get the current position in the input
    pub fn position(&self) -> (p: Position)
        ensures
            p == self.spec_position(),
    {
        self.position.current()
    }

    /// Check if we've reached the end of input
    pub fn is_at_end(&mut self) -> (b: bool)
        requires
            old(self).wf(),
        ensures
            final(self).wf(),
            final(self).consumed() == old(self).consumed(),
            final(self).input_seq() == old(self).input_seq(),
            b == (old(self).consumed() == old(self).input_seq().len()),
    {
        self.scanner.is_at_end()
    }

    /// Create an iterator over all tokens
    pub fn tokens(self) -> (it: TokenIterator)
        ensures
            it.spec_lexer() == self,
            !it.is_finished(),
    {
        TokenIterator::new(self)
    }
}

/// Iterator over tokens produced by the lexer: it stops after the stream end or the first error.
pub struct TokenIterator {
    pub(crate) lexer: YamlLexer,
    pub(crate) finished: bool,
}

impl TokenIterator {
    fn new(lexer: YamlLexer) -> (it: Self)
        ensures
            it.lexer == lexer,
            !it.finished,
    {
        Self { lexer, finished: false }
    }

    /// The lexer the iterator draws from.
    pub closed spec fn spec_lexer(&self) -> YamlLexer {
        self.lexer
    }

    /// Whether the iterator has stopped.
    pub closed spec fn is_finished(&self) -> bool {
        self.finished
    }

    pub closed spec fn wf(&self) -> bool {
        self.lexer.wf()
    }

    /// The next token: `None` once finished; the stream end and any error finish it.
    pub fn next(&mut self) -> (r: Option<Result<Token, LexError>>)
        requires
            old(self).wf(),
        ensures
            final(self).wf(),
            old(self).is_finished() ==> r is None && final(self).is_finished(),
            !old(self).is_finished() ==> r is Some,
            r matches Some(Err(_)) ==> final(self).is_finished(),
            r matches Some(Ok(t)) ==> (final(self).is_finished() <==> t.kind is StreamEnd),
    {
        if self.finished {
            return None;
        }
        match self.lexer.next_token() {
            Ok(token) => {
                if matches!(token.kind, TokenKind::StreamEnd) {
                    self.finished = true;
                }
                Some(Ok(token))
            },
            Err(e) => {
                self.finished = true;
                Some(Err(e))
            },
        }
    }
}

} // verus!
