//! The YAML scanner: turns characters into tokens over a `ScannerState`.
use vstd::prelude::*;

pub mod anchors;
pub mod directives;
pub mod document;
pub mod indentation;
pub mod scalars;
pub mod state;
pub mod tags;
pub mod token;
pub mod utils;

pub use state::{ScannerConfig, ScannerState};
pub use token::{Token, TokenProducer, TokenStream};

use crate::error::{Marker, ScanError};
use crate::events::{TEncoding, TScalarStyle, TokenType};
use crate::parser::grammar::ParametricContext;
use crate::parser::structural_productions::StructuralProductions;
use crate::scanner::directives::Directive;
use crate::scanner::state::{marker_ahead, mark_after, mark_of, window_after_peek};
use crate::scanner::utils::ws_skip;
use crate::scanner::scalars::{plain_scan, sq_scan, dq_scan, block_scalar_result};
use crate::scanner::anchors::{name_scan_stops_at, name_scan_result};
use crate::text::{push_decimal, push_str};

verus! {

/// A scanner over a character source: the state, the token constructors and the
/// configuration.
pub struct Scanner {
    state: ScannerState,
    token_producer: TokenProducer,
    config: ScannerConfig,
    /// The errors that looking at the next token has reported, oldest first
    reported: Ghost<Seq<ScanError>>,
}

/// `s[i]` exists and is `c`.
pub open spec fn char_at(s: Seq<char>, i: int, c: char) -> bool {
    0 <= i < s.len() && s[i] == c
}

/// A `-` at `i` followed by a blank or the end: a block entry.
pub open spec fn dash_entry(s: Seq<char>, i: int) -> bool {
    0 <= i < s.len() && s[i] == '-' && (i + 1 >= s.len() || s[i + 1] == ' ' || s[i + 1] == '\t'
        || s[i + 1] == '\n' || s[i + 1] == '\r')
}

/// The number of spaces and tabs from `i` on.
pub open spec fn blank_run(s: Seq<char>, i: int) -> nat
    decreases s.len() - i,
{
    if 0 <= i < s.len() && (s[i] == ' ' || s[i] == '\t') { 1 + blank_run(s, i + 1) } else { 0 }
}

/// A token agrees with the input at its marker: each indicator token starts at its
/// indicator character, and the stream end lies at the end of the input.
pub open spec fn token_fits_source(s: Seq<char>, t: Token) -> bool {
    let i = t.0.index as int;
    match t.1 {
        TokenType::StreamEnd => i == s.len(),
        TokenType::DocumentStart => marker_ahead(s, i, '-'),
        TokenType::DocumentEnd => marker_ahead(s, i, '.'),
        TokenType::BlockEntry => char_at(s, i, '-'),
        TokenType::FlowSequenceStart => char_at(s, i, '['),
        TokenType::FlowSequenceEnd => char_at(s, i, ']'),
        TokenType::FlowMappingStart => char_at(s, i, '{'),
        TokenType::FlowMappingEnd => char_at(s, i, '}'),
        TokenType::FlowEntry => char_at(s, i, ','),
        TokenType::Value => char_at(s, i, ':'),
        TokenType::Key => char_at(s, i, '?'),
        TokenType::Anchor(_) => char_at(s, i, '&'),
        TokenType::Alias(_) => char_at(s, i, '*'),
        TokenType::Tag(..) => char_at(s, i, '!'),
        TokenType::Scalar(TScalarStyle::SingleQuoted, _) => char_at(s, i, '\''),
        TokenType::Scalar(TScalarStyle::DoubleQuoted, _) => char_at(s, i, '"'),
        TokenType::Scalar(TScalarStyle::Literal, _) => char_at(s, i, '|'),
        TokenType::Scalar(TScalarStyle::Folded, _) => char_at(s, i, '>'),
        TokenType::Scalar(_, v) => v@.len() > 0,
        TokenType::VersionDirective(..) | TokenType::TagDirective(..) | TokenType::Reserved(_) => char_at(s, i, '%'),
        _ => true,
    }
}

/// Tokens that consume at least their indicator character.
pub open spec fn indicator_token(t: TokenType) -> bool {
    !(t is StreamStart || t is StreamEnd || t is NoToken || t is Scalar || t is BlockSequenceStart
        || t is BlockMappingStart || t is BlockEnd)
}

/// Three `c` at `p` followed by a blank or the end: a document marker where a BOM may
/// stand before it.
pub open spec fn bom_marker_ahead(s: Seq<char>, p: int, c: char) -> bool {
    &&& p + 3 <= s.len()
    &&& s[p] == c && s[p + 1] == c && s[p + 2] == c
    &&& (p + 3 == s.len() || s[p + 3] == ' ' || s[p + 3] == '\t' || s[p + 3] == '\n' || s[p + 3] == '\r')
}

/// Where a byte order mark is allowed: at the stream start, or at the start of a line
/// before a document marker, or at the start of the first line.
pub open spec fn valid_bom_position(s: Seq<char>, p: int, m: Marker) -> bool {
    ||| m.index == 0
    ||| m.col == 0 && (bom_marker_ahead(s, p, '-') || bom_marker_ahead(s, p, '.') || m.line == 1)
}

/// The text of the error for a tab where white space is skipped.
pub open spec fn tab_message() -> Seq<char> {
    "tabs are not allowed in YAML, use spaces for indentation"@
}

/// The plain scalar token from `q` in `s`, at flow level `fl`, ending the scan at `p2`
/// (`plain_scan` from the column of `q`).
pub open spec fn plain_token(s: Seq<char>, q: int, fl: usize, r: Result<Token, ScanError>, p2: int) -> bool {
    match plain_scan(s, q, mark_of(s, q).col, fl > 0, Seq::empty(), Seq::empty()) {
        Ok((v, e)) => r matches Ok(t) && t.0 == mark_of(s, q) && p2 == e
            && (t.1 matches TokenType::Scalar(st, x) && st == TScalarStyle::Plain && x@ == v),
        Err((e, tab)) => r matches Err(x) && p2 == e
            && x.info@ == (if tab { tab_message() } else { "empty plain scalar"@ }),
    }
}

/// The anchor (`&`) or alias (`*`) token at `q`, ending the scan at `p2`: the run of
/// name characters after the indicator (`name_scan_stops_at`), and the name or the error
/// that `name_scan_result` gives for it.
pub open spec fn named_token(s: Seq<char>, q: int, m: Marker, anchor: bool, r: Result<Token, ScanError>, p2: int) -> bool {
    &&& name_scan_stops_at(s, q + 1, p2)
    &&& match name_scan_result(s, q + 1, p2, mark_of(s, q + 1), mark_of(s, p2), if anchor { "anchor"@ } else { "alias"@ }) {
        Ok(n) => r matches Ok(t) && t.0 == m && (if anchor { t.1 matches TokenType::Anchor(x) && x@ == n }
            else { t.1 matches TokenType::Alias(x) && x@ == n }),
        Err((mk, msg)) => r matches Err(e) && e.mark == mk && e.info@ == msg,
    }
}

/// The token whose first character stands at `q` (after white space), at flow level
/// `fl`, ending the scan at `p2`: document markers, a block entry, flow indicators (a
/// closing one an error outside flow context), `,` `:` `?`, anchors and aliases, quoted
/// and block scalars, or a plain scalar; tags and directives are left open here.
pub open spec fn token_at(s: Seq<char>, q: int, fl: usize, r: Result<Token, ScanError>, p2: int) -> bool {
    let m = mark_of(s, q);
    let c = s[q];
    if c == '-' && marker_ahead(s, q, '-') {
        r == Ok::<Token, ScanError>(Token(m, TokenType::DocumentStart)) && p2 == q + 3
    } else if c == '-' && dash_entry(s, q) {
        r == Ok::<Token, ScanError>(Token(m, TokenType::BlockEntry)) && p2 == q + 1
    } else if c == '.' && marker_ahead(s, q, '.') {
        r == Ok::<Token, ScanError>(Token(m, TokenType::DocumentEnd)) && p2 == q + 3
    } else if c == '[' {
        r == Ok::<Token, ScanError>(Token(m, TokenType::FlowSequenceStart)) && p2 == q + 1
    } else if c == '{' {
        r == Ok::<Token, ScanError>(Token(m, TokenType::FlowMappingStart)) && p2 == q + 1
    } else if c == ']' || c == '}' {
        if fl > 0 {
            r == Ok::<Token, ScanError>(Token(m, if c == ']' { TokenType::FlowSequenceEnd } else { TokenType::FlowMappingEnd }))
                && p2 == q + 1
        } else {
            r is Err
        }
    } else if c == ',' || c == ':' || c == '?' {
        r == Ok::<Token, ScanError>(Token(m,
            if c == ',' { TokenType::FlowEntry } else if c == ':' { TokenType::Value } else { TokenType::Key }))
            && p2 == q + 1
    } else if c == '\'' || c == '"' {
        let res = if c == '\'' { sq_scan(s, q + 1, Seq::empty()) } else { dq_scan(s, q + 1, Seq::empty()) };
        match r {
            Ok(t) => t.0 == m && (t.1 matches TokenType::Scalar(st, x)
                && st == (if c == '\'' { TScalarStyle::SingleQuoted } else { TScalarStyle::DoubleQuoted })
                && res == Some((x@, p2))),
            Err(_) => res is None,
        }
    } else if c == '|' || c == '>' {
        let res = block_scalar_result(s, q + 1, c == '|');
        r matches Ok(t) && t.0 == m && p2 == res.1 && (t.1 matches TokenType::Scalar(st, x)
            && st == (if c == '|' { TScalarStyle::Literal } else { TScalarStyle::Folded }) && x@ == res.0)
    } else if c == '&' || c == '*' {
        named_token(s, q, m, c == '&', r, p2)
    } else if c == '!' || c == '%' || c == '#' {
        true
    } else {
        plain_token(s, q, fl, r, p2)
    }
}

/// The next token of a started scanner over `s` at `p` and flow level `fl`, ending the
/// scan at `p2`: after spaces, line breaks and comments (a tab there is an error), the
/// stream's end (or nothing once the end was given), or the token at the first other
/// character (`token_at`); a byte order mark there is left open.
pub open spec fn scanned_token(s: Seq<char>, p: int, fl: usize, ended: bool, r: Result<Token, ScanError>, p2: int) -> bool {
    match ws_skip(s, p) {
        Err(q) => r matches Err(e) && e.mark == mark_of(s, q) && e.info@ == tab_message() && p2 == q,
        Ok(q) => if char_at(s, q, '\u{feff}') {
            true
        } else if q >= s.len() {
            r == Ok::<Token, ScanError>(Token(mark_of(s, q), if ended { TokenType::NoToken } else { TokenType::StreamEnd }))
                && p2 == q
        } else {
            token_at(s, q, fl, r, p2)
        },
    }
}

/// The text of the error for a byte order mark inside a document.
pub open spec fn bom_message(m: Marker) -> Seq<char> {
    "BOM (\\u{feff}) must not appear inside a document at line "@ + crate::text::decimal(m.line as nat)
        + ", column "@ + crate::text::decimal((m.col + 1) as nat)
        + " (YAML 1.2 violation). BOM is only valid at stream start or document boundaries."@
}

impl Scanner {
    pub closed spec fn spec_state(&self) -> ScannerState {
        self.state
    }

    pub closed spec fn spec_config(&self) -> ScannerConfig {
        self.config
    }

    /// The errors that `peek_token` has reported, oldest first.
    pub closed spec fn spec_reported(&self) -> Seq<ScanError> {
        self.reported@
    }

    /// The state is well formed and no more flow collections are open than characters
    /// were consumed.
    pub open spec fn wf(&self) -> bool {
        &&& self.spec_state().wf()
        &&& self.spec_state().spec_flow_level() <= self.spec_state().spec_pos()
    }

    /// `self` is `old` after scanning on: same input, nothing unconsumed, the cache and
    /// the stream-start flag kept.
    pub open spec fn scanned_on(&self, old: &Scanner) -> bool {
        &&& self.wf()
        &&& self.spec_state().spec_source() == old.spec_state().spec_source()
        &&& self.spec_state().spec_pos() >= old.spec_state().spec_pos()
        &&& self.spec_state().spec_cached() == old.spec_state().spec_cached()
        &&& self.spec_state().spec_started() == old.spec_state().spec_started()
        &&& (old.spec_state().spec_ended() ==> self.spec_state().spec_ended())
        &&& self.spec_config() == old.spec_config()
    }

    /// A token produced at the current position that fits the input.
    pub open spec fn token_here(&self, old: &Scanner, t: Token) -> bool {
        &&& token_fits_source(self.spec_state().spec_source(), t)
        &&& old.spec_state().spec_pos() <= t.0.index <= self.spec_state().spec_pos()
        &&& indicator_token(t.1) ==> t.0.index < self.spec_state().spec_pos()
    }

    /// Create new scanner with default configuration
    pub fn new(source: &str) -> (s: Self)
        requires
            source@.len() < usize::MAX,
        ensures
            s.wf(),
            s.spec_state().spec_source() == source@,
            s.spec_state().spec_pos() == 0,
            s.spec_state().spec_cached() is None,
            !s.spec_state().spec_started(),
            !s.spec_state().spec_ended(),
            s.spec_state().spec_mark() == (Marker { index: 0, line: 1, col: 0 }),
            s.spec_reported() == Seq::<ScanError>::empty(),
    {
        Self::with_config(source, ScannerConfig::default())
    }

    /// Create scanner with custom configuration
    pub fn with_config(source: &str, config: ScannerConfig) -> (s: Self)
        requires
            source@.len() < usize::MAX,
        ensures
            s.wf(),
            s.spec_state().spec_source() == source@,
            s.spec_state().spec_pos() == 0,
            s.spec_state().spec_cached() is None,
            !s.spec_state().spec_started(),
            !s.spec_state().spec_ended(),
            s.spec_state().spec_mark() == (Marker { index: 0, line: 1, col: 0 }),
            s.spec_config() == config,
            s.spec_reported() == Seq::<ScanError>::empty(),
    {
        Self {
            state: ScannerState::new(source),
            token_producer: TokenProducer::new(),
            config,
            reported: Ghost(Seq::empty()),
        }
    }

    /// Get current position marker
    pub fn mark(&self) -> (m: Marker)
        ensures
            m == self.spec_state().spec_mark(),
    {
        self.state.mark()
    }

    /// The next token, left in place: the cached one, or else a freshly scanned one that
    /// is then cached.
    pub fn peek_token(&mut self) -> (r: Result<Token, ScanError>)
        requires
            old(self).wf(),
        ensures
            final(self).wf(),
            final(self).spec_state().spec_source() == old(self).spec_state().spec_source(),
            final(self).spec_state().spec_pos() >= old(self).spec_state().spec_pos(),
            final(self).spec_config() == old(self).spec_config(),
            old(self).spec_state().spec_cached() matches Some(t) ==> r == Ok::<Token, ScanError>(t)
                && *final(self) == *old(self),
            r matches Ok(t) ==> final(self).spec_state().spec_cached() == Some(t),
            r is Err ==> final(self).spec_state().spec_cached() is None,
            old(self).spec_state().spec_cached() is None ==> (r matches Ok(t) ==> final(self).token_here(old(self), t)),
            old(self).spec_state().spec_cached() is None && !old(self).spec_state().spec_started()
                ==> r == Ok::<Token, ScanError>(Token(old(self).spec_state().spec_mark(), TokenType::StreamStart(TEncoding::Utf8))),
            r is Ok ==> final(self).spec_reported() == old(self).spec_reported(),
            r matches Err(e) ==> final(self).spec_reported() == old(self).spec_reported().push(e),
            old(self).spec_state().spec_cached() is None && old(self).spec_state().spec_started()
                ==> scanned_token(old(self).spec_state().spec_source(), old(self).spec_state().spec_pos(),
                    old(self).spec_state().spec_flow_level(), old(self).spec_state().spec_ended(), r,
                    final(self).spec_state().spec_pos()),
    {
        let ghost rep = self.reported@;
        if !self.state.has_cached_token() {
            let fetched = self.fetch_next_token();
            self.reported = Ghost(rep);
            match fetched {
                Ok(token) => self.state.cache_token(token),
                Err(e) => {
                    proof { self.reported@ = rep.push(e); }
                    return Err(e);
                },
            }
        }
        match self.state.peek_cached_token() {
            Some(t) => Ok(t.duplicate()),
            None => {
                let e = ScanError::new(self.mark(), "internal error: no cached token");
                proof { self.reported@ = rep.push(e); }
                Err(e)
            },
        }
    }

    /// The next token, consumed: the cached one, or else a freshly scanned one (a
    /// `NoToken` where scanning fails).
    pub fn fetch_token(&mut self) -> (t: Token)
        requires
            old(self).wf(),
        ensures
            final(self).wf(),
            final(self).spec_state().spec_source() == old(self).spec_state().spec_source(),
            final(self).spec_state().spec_pos() >= old(self).spec_state().spec_pos(),
            final(self).spec_state().spec_cached() is None,
            final(self).spec_config() == old(self).spec_config(),
            old(self).spec_state().spec_cached() matches Some(c) ==> t == c
                && final(self).spec_state().spec_pos() == old(self).spec_state().spec_pos()
                && final(self).spec_state().spec_mark() == old(self).spec_state().spec_mark()
                && final(self).spec_state().spec_flow_level() == old(self).spec_state().spec_flow_level()
                && final(self).spec_state().spec_started() == old(self).spec_state().spec_started()
                && final(self).spec_state().spec_ended() == old(self).spec_state().spec_ended(),
            final(self).spec_reported() == old(self).spec_reported(),
            old(self).spec_state().spec_cached() is None && old(self).spec_state().spec_started()
                ==> exists|r0: Result<Token, ScanError>| #[trigger] scanned_token(old(self).spec_state().spec_source(),
                    old(self).spec_state().spec_pos(), old(self).spec_state().spec_flow_level(),
                    old(self).spec_state().spec_ended(), r0, final(self).spec_state().spec_pos())
                    && t == match r0 { Ok(x) => x, Err(_) => Token(final(self).spec_state().spec_mark(), TokenType::NoToken) },
    {
        let ghost rep = self.reported@;
        match self.state.take_cached_token() {
            Some(token) => token,
            None => {
                let fetched = self.fetch_next_token();
                self.reported = Ghost(rep);
                proof {
                    if old(self).spec_state().spec_started() {
                        assert(scanned_token(old(self).spec_state().spec_source(), old(self).spec_state().spec_pos(),
                            old(self).spec_state().spec_flow_level(), old(self).spec_state().spec_ended(), fetched,
                            self.spec_state().spec_pos()));
                    }
                }
                match fetched {
                    Ok(token) => token,
                    Err(_) => self.token_producer.no_token(self.mark()),
                }
            },
        }
    }

    /// Whether a peeked token is waiting to be fetched.
    pub fn token_waiting(&self) -> (b: bool)
        ensures
            b == (self.spec_state().spec_cached() is Some),
    {
        self.state.has_cached_token()
    }

    /// Skip current token without returning it
    pub fn skip(&mut self)
        requires
            old(self).wf(),
        ensures
            final(self).wf(),
            final(self).spec_state().spec_cached() is None,
            final(self).spec_state().spec_source() == old(self).spec_state().spec_source(),
            final(self).spec_state().spec_pos() == old(self).spec_state().spec_pos(),
            final(self).spec_state().spec_mark() == old(self).spec_state().spec_mark(),
            final(self).spec_config() == old(self).spec_config(),
            final(self).spec_reported() == old(self).spec_reported(),
    {
        self.state.clear_cached_token();
    }

    /// Check if stream has started
    pub fn stream_started(&self) -> (b: bool)
        ensures
            b == self.spec_state().spec_started(),
    {
        self.state.stream_started()
    }

    /// Check if stream has ended
    pub fn stream_ended(&self) -> (b: bool)
        ensures
            b == self.spec_state().spec_ended(),
    {
        self.state.stream_ended()
    }

    /// Get scanner configuration
    pub fn config(&self) -> (c: &ScannerConfig)
        ensures
            *c == self.spec_config(),
    {
        &self.config
    }

    /// Reset scanner state for reuse on a new source
    pub fn reset(&mut self, source: &str)
        requires
            source@.len() < usize::MAX,
        ensures
            final(self).wf(),
            final(self).spec_state().spec_source() == source@,
            final(self).spec_state().spec_pos() == 0,
            final(self).spec_state().spec_cached() is None,
            !final(self).spec_state().spec_started(),
            !final(self).spec_state().spec_ended(),
            final(self).spec_state().spec_mark() == (Marker { index: 0, line: 1, col: 0 }),
            final(self).spec_config() == old(self).spec_config(),
    {
        self.state = ScannerState::new(source);
        self.token_producer.reset();
    }

    /// Peek at next character without consuming (for separation parsing)
    pub fn peek_char(&mut self) -> (r: Result<char, ScanError>)
        requires
            old(self).wf(),
        ensures
            final(self).wf(),
            final(self).spec_state().only_window_grew(&old(self).spec_state()),
            final(self).spec_config() == old(self).spec_config(),
            r matches Ok(c) ==> char_at(old(self).spec_state().spec_source(), old(self).spec_state().spec_pos(), c),
            r is Err <==> old(self).spec_state().spec_pos() == old(self).spec_state().spec_source().len(),
    {
        self.state.peek_char()
    }

    /// Consume next character and update position (for separation parsing)
    pub fn consume_char(&mut self) -> (r: Result<char, ScanError>)
        requires
            old(self).wf(),
        ensures
            final(self).wf(),
            final(self).spec_state().spec_source() == old(self).spec_state().spec_source(),
            final(self).spec_state().same_context(&old(self).spec_state()),
            final(self).spec_config() == old(self).spec_config(),
            r is Ok <==> old(self).spec_state().spec_pos() < old(self).spec_state().spec_fetched(),
            r matches Ok(c) ==> char_at(old(self).spec_state().spec_source(), old(self).spec_state().spec_pos(), c)
                && final(self).spec_state().spec_pos() == old(self).spec_state().spec_pos() + 1,
            r is Err ==> final(self).spec_state().spec_pos() == old(self).spec_state().spec_pos(),
    {
        self.state.consume_char()
    }

    /// Skip inline separation (spaces and tabs only) per YAML 1.2 rule [80]; a comment
    /// ends it after being skipped.
    pub fn skip_inline_separation(&mut self) -> (r: Result<(), ScanError>)
        requires
            old(self).wf(),
        ensures
            final(self).wf(),
            final(self).spec_state().read_on_from(&old(self).spec_state()),
            final(self).spec_config() == old(self).spec_config(),
            r is Ok,
            ({
                let s = old(self).spec_state().spec_source();
                let j = old(self).spec_state().spec_pos() + blank_run(s, old(self).spec_state().spec_pos());
                final(self).spec_state().spec_pos() == if j < s.len() && s[j] == '#' { scalars::after_line(s, j) } else { j }
            }),
    {
        let ghost s = old(self).spec_state().spec_source();
        let ghost p = old(self).spec_state().spec_pos();
        loop
            invariant_except_break
                self.spec_state().spec_pos() + blank_run(s, self.spec_state().spec_pos()) == p + blank_run(s, p),
            invariant
                old(self).wf(),
                self.wf(),
                self.spec_state().read_on_from(&old(self).spec_state()),
                self.spec_config() == old(self).spec_config(),
                s == old(self).spec_state().spec_source(),
                p == old(self).spec_state().spec_pos(),
            ensures
                self.wf(),
                self.spec_state().read_on_from(&old(self).spec_state()),
                self.spec_config() == old(self).spec_config(),
                ({
                    let j = p + blank_run(s, p);
                    self.spec_state().spec_pos() == if j < s.len() && s[j] == '#' { scalars::after_line(s, j) } else { j }
                }),
            decreases self.spec_state().spec_source().len() - self.spec_state().spec_pos(),
        {
            match self.state.peek_char() {
                Ok(' ') | Ok('\t') => {
                    if self.state.consume_char().is_err() {
                        break;
                    }
                },
                Ok('#') => {
                    proof { assert(blank_run(s, self.spec_state().spec_pos()) == 0); }
                    let _ = utils::skip_comment_line(&mut self.state);
                    break;
                },
                _ => {
                    proof { assert(blank_run(s, self.spec_state().spec_pos()) == 0); }
                    break;
                },
            }
        }
        Ok(())
    }

    /// Skip multi-line separation (all whitespace and comments) per YAML 1.2 rule [80]
    pub fn skip_multiline_separation(&mut self) -> (r: Result<(), ScanError>)
        requires
            old(self).wf(),
        ensures
            final(self).wf(),
            final(self).spec_state().read_on_from(&old(self).spec_state()),
            final(self).spec_config() == old(self).spec_config(),
            r is Ok ==> utils::stops_skipping(&final(self).spec_state()),
    {
        utils::skip_whitespace_and_comments(&mut self.state)
    }

    /// Scan the next token: the stream start first, then, after white space, comments and
    /// a byte order mark, the stream end or the token its first character announces.
    fn fetch_next_token(&mut self) -> (r: Result<Token, ScanError>)
        requires
            old(self).wf(),
        ensures
            final(self).scanned_on(old(self)) || (!old(self).spec_state().spec_started()
                && final(self).wf() && final(self).spec_state().spec_started()
                && final(self).spec_state().spec_source() == old(self).spec_state().spec_source()
                && final(self).spec_state().spec_pos() == old(self).spec_state().spec_pos()
                && final(self).spec_state().spec_cached() == old(self).spec_state().spec_cached()
                && final(self).spec_config() == old(self).spec_config()),
            !old(self).spec_state().spec_started() ==> r == Ok::<Token, ScanError>(
                Token(old(self).spec_state().spec_mark(), TokenType::StreamStart(TEncoding::Utf8))),
            old(self).spec_state().spec_started() ==> (r matches Ok(t) ==> final(self).token_here(old(self), t)),
            old(self).spec_state().spec_started() ==> scanned_token(old(self).spec_state().spec_source(),
                old(self).spec_state().spec_pos(), old(self).spec_state().spec_flow_level(), old(self).spec_state().spec_ended(),
                r, final(self).spec_state().spec_pos()),
        decreases old(self).spec_state().spec_source().len() - old(self).spec_state().spec_pos(), 1nat,
    {
        if !self.state.stream_started() {
            self.state.mark_stream_started();
            return Ok(self.token_producer.stream_start_token(self.mark()));
        }
        utils::skip_whitespace_and_comments(&mut self.state)?;
        self.handle_bom_at_boundary()?;
        if self.state.is_done() {
            if !self.state.stream_ended() {
                self.state.mark_stream_ended();
                return Ok(self.token_producer.stream_end_token(self.mark()));
            }
            return Ok(self.token_producer.no_token(self.mark()));
        }
        let start_mark = self.mark();
        match self.state.peek_char()? {
            '-' => self.scan_dash_token(start_mark),
            '.' => self.scan_dot_token(start_mark),
            '[' => self.scan_flow_sequence_start(start_mark),
            ']' => self.scan_flow_sequence_end(start_mark),
            '{' => self.scan_flow_mapping_start(start_mark),
            '}' => self.scan_flow_mapping_end(start_mark),
            ',' => self.scan_single_indicator(start_mark, ','),
            ':' => self.scan_single_indicator(start_mark, ':'),
            '?' => self.scan_single_indicator(start_mark, '?'),
            '&' => self.scan_anchor_token(start_mark),
            '*' => self.scan_alias_token(start_mark),
            '!' => self.scan_tag_token(start_mark),
            '|' => self.scan_block_scalar_token(start_mark, true),
            '>' => self.scan_block_scalar_token(start_mark, false),
            '\'' => self.scan_quoted_scalar_token(start_mark, true),
            '"' => self.scan_quoted_scalar_token(start_mark, false),
            '%' => self.scan_directive_token(start_mark),
            '#' => self.scan_comment_and_retry(start_mark),
            _ => self.scan_plain_scalar(start_mark),
        }
    }

    /// `---` at a line start is a document start, `- ` a block entry, anything else a
    /// plain scalar.
    fn scan_dash_token(&mut self, start_mark: Marker) -> (r: Result<Token, ScanError>)
        requires
            old(self).wf(),
            start_mark == old(self).spec_state().spec_mark(),
        ensures
            final(self).scanned_on(old(self)),
            r matches Ok(t) ==> final(self).token_here(old(self), t),
            marker_ahead(old(self).spec_state().spec_source(), old(self).spec_state().spec_pos(), '-')
                ==> r == Ok::<Token, ScanError>(Token(start_mark, TokenType::DocumentStart))
                && final(self).spec_state().spec_pos() == old(self).spec_state().spec_pos() + 3,
            !marker_ahead(old(self).spec_state().spec_source(), old(self).spec_state().spec_pos(), '-')
                && dash_entry(old(self).spec_state().spec_source(), old(self).spec_state().spec_pos())
                ==> r == Ok::<Token, ScanError>(Token(start_mark, TokenType::BlockEntry))
                && final(self).spec_state().spec_pos() == old(self).spec_state().spec_pos() + 1,
            !marker_ahead(old(self).spec_state().spec_source(), old(self).spec_state().spec_pos(), '-')
                && !dash_entry(old(self).spec_state().spec_source(), old(self).spec_state().spec_pos())
                ==> plain_token(old(self).spec_state().spec_source(), old(self).spec_state().spec_pos(), old(self).spec_state().spec_flow_level(), r, final(self).spec_state().spec_pos()),
    {
        if self.state.check_document_start()? {
            self.state.consume_chars(3)?;
            Ok(self.token_producer.document_start_token(start_mark))
        } else if self.state.check_block_entry()? {
            self.state.consume_char()?;
            Ok(self.token_producer.block_entry_token(start_mark))
        } else {
            self.scan_plain_scalar(start_mark)
        }
    }

    /// `...` is a document end, anything else a plain scalar.
    fn scan_dot_token(&mut self, start_mark: Marker) -> (r: Result<Token, ScanError>)
        requires
            old(self).wf(),
            start_mark == old(self).spec_state().spec_mark(),
        ensures
            final(self).scanned_on(old(self)),
            r matches Ok(t) ==> final(self).token_here(old(self), t),
            marker_ahead(old(self).spec_state().spec_source(), old(self).spec_state().spec_pos(), '.')
                ==> r == Ok::<Token, ScanError>(Token(start_mark, TokenType::DocumentEnd))
                && final(self).spec_state().spec_pos() == old(self).spec_state().spec_pos() + 3,
            !marker_ahead(old(self).spec_state().spec_source(), old(self).spec_state().spec_pos(), '.')
                ==> plain_token(old(self).spec_state().spec_source(), old(self).spec_state().spec_pos(), old(self).spec_state().spec_flow_level(), r, final(self).spec_state().spec_pos()),
    {
        if self.state.check_document_end()? {
            self.state.consume_chars(3)?;
            Ok(self.token_producer.document_end_token(start_mark))
        } else {
            self.scan_plain_scalar(start_mark)
        }
    }

    /// `[` opens a flow sequence one flow level deeper.
    fn scan_flow_sequence_start(&mut self, start_mark: Marker) -> (r: Result<Token, ScanError>)
        requires
            old(self).wf(),
            start_mark == old(self).spec_state().spec_mark(),
            char_at(old(self).spec_state().spec_source(), old(self).spec_state().spec_pos(), '['),
            old(self).spec_state().spec_fetched() > old(self).spec_state().spec_pos(),
        ensures
            final(self).scanned_on(old(self)),
            r matches Ok(t) ==> final(self).token_here(old(self), t) && t.1 == TokenType::FlowSequenceStart,
            r == Ok::<Token, ScanError>(Token(start_mark, TokenType::FlowSequenceStart)),
            final(self).spec_state().spec_pos() == old(self).spec_state().spec_pos() + 1,
    {
        self.state.consume_char()?;
        self.state.enter_flow_context();
        Ok(self.token_producer.flow_sequence_start_token(start_mark))
    }

    /// `]` closes a flow sequence; an error outside any flow collection.
    fn scan_flow_sequence_end(&mut self, start_mark: Marker) -> (r: Result<Token, ScanError>)
        requires
            old(self).wf(),
            start_mark == old(self).spec_state().spec_mark(),
            char_at(old(self).spec_state().spec_source(), old(self).spec_state().spec_pos(), ']'),
            old(self).spec_state().spec_fetched() > old(self).spec_state().spec_pos(),
        ensures
            final(self).scanned_on(old(self)),
            r matches Ok(t) ==> final(self).token_here(old(self), t) && t.1 == TokenType::FlowSequenceEnd,
            old(self).spec_state().spec_flow_level() > 0 ==> r == Ok::<Token, ScanError>(Token(start_mark, TokenType::FlowSequenceEnd))
                && final(self).spec_state().spec_pos() == old(self).spec_state().spec_pos() + 1,
            old(self).spec_state().spec_flow_level() == 0 ==> r is Err,
    {
        self.state.consume_char()?;
        self.state.exit_flow_context()?;
        Ok(self.token_producer.flow_sequence_end_token(start_mark))
    }

    /// `{` opens a flow mapping one flow level deeper.
    fn scan_flow_mapping_start(&mut self, start_mark: Marker) -> (r: Result<Token, ScanError>)
        requires
            old(self).wf(),
            start_mark == old(self).spec_state().spec_mark(),
            char_at(old(self).spec_state().spec_source(), old(self).spec_state().spec_pos(), '{'),
            old(self).spec_state().spec_fetched() > old(self).spec_state().spec_pos(),
        ensures
            final(self).scanned_on(old(self)),
            r matches Ok(t) ==> final(self).token_here(old(self), t) && t.1 == TokenType::FlowMappingStart,
            r == Ok::<Token, ScanError>(Token(start_mark, TokenType::FlowMappingStart)),
            final(self).spec_state().spec_pos() == old(self).spec_state().spec_pos() + 1,
    {
        self.state.consume_char()?;
        self.state.enter_flow_context();
        Ok(self.token_producer.flow_mapping_start_token(start_mark))
    }

    /// `}` closes a flow mapping; an error outside any flow collection.
    fn scan_flow_mapping_end(&mut self, start_mark: Marker) -> (r: Result<Token, ScanError>)
        requires
            old(self).wf(),
            start_mark == old(self).spec_state().spec_mark(),
            char_at(old(self).spec_state().spec_source(), old(self).spec_state().spec_pos(), '}'),
            old(self).spec_state().spec_fetched() > old(self).spec_state().spec_pos(),
        ensures
            final(self).scanned_on(old(self)),
            r matches Ok(t) ==> final(self).token_here(old(self), t) && t.1 == TokenType::FlowMappingEnd,
            old(self).spec_state().spec_flow_level() > 0 ==> r == Ok::<Token, ScanError>(Token(start_mark, TokenType::FlowMappingEnd))
                && final(self).spec_state().spec_pos() == old(self).spec_state().spec_pos() + 1,
            old(self).spec_state().spec_flow_level() == 0 ==> r is Err,
    {
        self.state.consume_char()?;
        self.state.exit_flow_context()?;
        Ok(self.token_producer.flow_mapping_end_token(start_mark))
    }

    /// The one-character indicators `,` (flow entry), `:` (value) and `?` (key).
    fn scan_single_indicator(&mut self, start_mark: Marker, c: char) -> (r: Result<Token, ScanError>)
        requires
            old(self).wf(),
            start_mark == old(self).spec_state().spec_mark(),
            c == ',' || c == ':' || c == '?',
            char_at(old(self).spec_state().spec_source(), old(self).spec_state().spec_pos(), c),
        ensures
            final(self).scanned_on(old(self)),
            r matches Ok(t) ==> final(self).token_here(old(self), t)
                && t.1 == (if c == ',' { TokenType::FlowEntry } else if c == ':' { TokenType::Value } else { TokenType::Key }),
            r matches Ok(t) && t.0 == start_mark,
            final(self).spec_state().spec_pos() == old(self).spec_state().spec_pos() + 1,
    {
        self.state.peek_char()?;
        self.state.consume_char()?;
        if c == ',' {
            Ok(self.token_producer.flow_entry_token(start_mark))
        } else if c == ':' {
            Ok(self.token_producer.value_token(start_mark))
        } else {
            Ok(self.token_producer.key_token(start_mark))
        }
    }

    /// `&name`: an anchor.
    fn scan_anchor_token(&mut self, start_mark: Marker) -> (r: Result<Token, ScanError>)
        requires
            old(self).wf(),
            start_mark == old(self).spec_state().spec_mark(),
            char_at(old(self).spec_state().spec_source(), old(self).spec_state().spec_pos(), '&'),
            old(self).spec_state().spec_fetched() > old(self).spec_state().spec_pos(),
        ensures
            final(self).scanned_on(old(self)),
            r matches Ok(t) ==> final(self).token_here(old(self), t) && t.1 is Anchor,
            named_token(old(self).spec_state().spec_source(), old(self).spec_state().spec_pos(), start_mark, true, r,
                final(self).spec_state().spec_pos()),
    {
        self.state.consume_char()?;
        let name = anchors::scan_anchor_name(&mut self.state)?;
        Ok(self.token_producer.anchor_token(start_mark, name))
    }

    /// `*name`: an alias.
    fn scan_alias_token(&mut self, start_mark: Marker) -> (r: Result<Token, ScanError>)
        requires
            old(self).wf(),
            start_mark == old(self).spec_state().spec_mark(),
            char_at(old(self).spec_state().spec_source(), old(self).spec_state().spec_pos(), '*'),
            old(self).spec_state().spec_fetched() > old(self).spec_state().spec_pos(),
        ensures
            final(self).scanned_on(old(self)),
            r matches Ok(t) ==> final(self).token_here(old(self), t) && t.1 is Alias,
            named_token(old(self).spec_state().spec_source(), old(self).spec_state().spec_pos(), start_mark, false, r,
                final(self).spec_state().spec_pos()),
    {
        self.state.consume_char()?;
        let name = anchors::scan_alias_name(&mut self.state)?;
        Ok(self.token_producer.alias_token(start_mark, name))
    }

    /// `!...`: a tag with its handle and suffix.
    fn scan_tag_token(&mut self, start_mark: Marker) -> (r: Result<Token, ScanError>)
        requires
            old(self).wf(),
            start_mark == old(self).spec_state().spec_mark(),
            char_at(old(self).spec_state().spec_source(), old(self).spec_state().spec_pos(), '!'),
        ensures
            final(self).scanned_on(old(self)),
            r matches Ok(t) ==> final(self).token_here(old(self), t) && t.1 is Tag,
            ({
                let st = old(self).spec_state();
                let (q, out) = tags::tag_result(st.spec_source(), st.spec_pos() + 1,
                    window_after_peek(st.spec_source(), st.spec_pos(), st.spec_fetched()),
                    mark_after(st.spec_mark(), '!'), final(self).spec_state().spec_mark());
                &&& final(self).spec_state().spec_pos() == q
                &&& match out {
                    Ok((h, u)) => r matches Ok(t) && t.0 == start_mark
                        && (t.1 matches TokenType::Tag(a, b) && a@ == h && b@ == u),
                    Err((m, msg)) => r matches Err(e) && e.mark == m && e.info@ == msg,
                }
            }),
    {
        self.state.peek_char()?;
        self.state.consume_char()?;
        let (handle, suffix) = tags::scan_tag(&mut self.state, &self.config)?;
        Ok(self.token_producer.tag_token(start_mark, handle, suffix))
    }

    /// `|` (literal) or `>` (folded): a block scalar.
    fn scan_block_scalar_token(&mut self, start_mark: Marker, literal: bool) -> (r: Result<Token, ScanError>)
        requires
            old(self).wf(),
            start_mark == old(self).spec_state().spec_mark(),
            char_at(old(self).spec_state().spec_source(), old(self).spec_state().spec_pos(), if literal { '|' } else { '>' }),
        ensures
            final(self).scanned_on(old(self)),
            r matches Ok(t) ==> final(self).token_here(old(self), t)
                && (t.1 matches TokenType::Scalar(st, _) && st == (if literal { TScalarStyle::Literal } else { TScalarStyle::Folded })),
            ({
                let res = scalars::block_scalar_result(old(self).spec_state().spec_source(),
                    old(self).spec_state().spec_pos() + 1, literal);
                r matches Ok(t) && t.0 == start_mark && (t.1 matches TokenType::Scalar(_, x) && x@ == res.0)
                    && final(self).spec_state().spec_pos() == res.1
            }),
    {
        self.state.peek_char()?;
        self.state.consume_char()?;
        let content = scalars::scan_block_scalar(&mut self.state, literal)?;
        if literal {
            Ok(self.token_producer.literal_scalar_token(start_mark, content))
        } else {
            Ok(self.token_producer.folded_scalar_token(start_mark, content))
        }
    }

    /// `'...'` or `"..."`: a quoted scalar.
    fn scan_quoted_scalar_token(&mut self, start_mark: Marker, single: bool) -> (r: Result<Token, ScanError>)
        requires
            old(self).wf(),
            start_mark == old(self).spec_state().spec_mark(),
            char_at(old(self).spec_state().spec_source(), old(self).spec_state().spec_pos(), if single { '\'' } else { '"' }),
        ensures
            final(self).scanned_on(old(self)),
            r matches Ok(t) ==> final(self).token_here(old(self), t)
                && (t.1 matches TokenType::Scalar(st, _) && st == (if single { TScalarStyle::SingleQuoted } else { TScalarStyle::DoubleQuoted })),
            ({
                let s = old(self).spec_state().spec_source();
                let p = old(self).spec_state().spec_pos();
                let res = if single { scalars::sq_scan(s, p + 1, Seq::empty()) } else { scalars::dq_scan(s, p + 1, Seq::empty()) };
                match r {
                    Ok(t) => t.0 == start_mark && (t.1 matches TokenType::Scalar(_, x)
                        && res == Some((x@, final(self).spec_state().spec_pos()))),
                    Err(_) => res is None,
                }
            }),
    {
        self.state.peek_char()?;
        self.state.consume_char()?;
        if single {
            let content = scalars::scan_single_quoted(&mut self.state)?;
            Ok(self.token_producer.single_quoted_scalar_token(start_mark, content))
        } else {
            let content = scalars::scan_double_quoted(&mut self.state)?;
            Ok(self.token_producer.double_quoted_scalar_token(start_mark, content))
        }
    }

    /// `%`: a directive, as a version, tag or reserved directive token.
    fn scan_directive_token(&mut self, start_mark: Marker) -> (r: Result<Token, ScanError>)
        requires
            old(self).wf(),
            start_mark == old(self).spec_state().spec_mark(),
            char_at(old(self).spec_state().spec_source(), old(self).spec_state().spec_pos(), '%'),
        ensures
            final(self).scanned_on(old(self)),
            r matches Ok(t) ==> final(self).token_here(old(self), t),
    {
        self.state.consume_char()?;
        let directive = directives::scan_directive(&mut self.state)?;
        Ok(self.directive_token(start_mark, directive))
    }

    /// The token for a scanned directive.
    fn directive_token(&self, start_mark: Marker, directive: Directive) -> (t: Token)
        ensures
            t.0 == start_mark,
            t.1 == match directive {
                Directive::Version { major, minor } => TokenType::VersionDirective(major, minor),
                Directive::Tag { handle, prefix } => TokenType::TagDirective(handle, prefix),
                Directive::Reserved { name, args } => TokenType::Reserved(name),
            },
    {
        match directive {
            Directive::Version { major, minor } => self.token_producer.version_directive_token(start_mark, major, minor),
            Directive::Tag { handle, prefix } => self.token_producer.tag_directive_token(start_mark, handle, prefix),
            Directive::Reserved { name, args } => self.token_producer.reserved_directive_token(start_mark, name),
        }
    }

    /// A plain scalar.
    fn scan_plain_scalar(&mut self, start_mark: Marker) -> (r: Result<Token, ScanError>)
        requires
            old(self).wf(),
            start_mark == old(self).spec_state().spec_mark(),
        ensures
            final(self).scanned_on(old(self)),
            r matches Ok(t) ==> final(self).token_here(old(self), t)
                && (t.1 matches TokenType::Scalar(st, v) && st == TScalarStyle::Plain && v@.len() > 0),
            plain_token(old(self).spec_state().spec_source(), old(self).spec_state().spec_pos(), old(self).spec_state().spec_flow_level(), r, final(self).spec_state().spec_pos()),
    {
        let content = scalars::scan_plain_scalar(&mut self.state, &self.config)?;
        Ok(self.token_producer.plain_scalar_token(start_mark, content))
    }

    /// A comment: skip its line and scan on.
    fn scan_comment_and_retry(&mut self, start_mark: Marker) -> (r: Result<Token, ScanError>)
        requires
            old(self).wf(),
            old(self).spec_state().spec_started(),
            char_at(old(self).spec_state().spec_source(), old(self).spec_state().spec_pos(), '#'),
        ensures
            final(self).scanned_on(old(self)),
            r matches Ok(t) ==> final(self).token_here(old(self), t),
        decreases old(self).spec_state().spec_source().len() - old(self).spec_state().spec_pos(), 0nat,
    {
        let _ = utils::skip_comment_line(&mut self.state);
        self.fetch_next_token()
    }

    /// Handle a byte order mark: skipped where it may stand, an error inside a document.
    fn handle_bom_at_boundary(&mut self) -> (r: Result<(), ScanError>)
        requires
            old(self).wf(),
        ensures
            final(self).scanned_on(old(self)),
            final(self).spec_state().spec_flow_level() == old(self).spec_state().spec_flow_level(),
            ({
                let s = old(self).spec_state().spec_source();
                let p = old(self).spec_state().spec_pos();
                let m = old(self).spec_state().spec_mark();
                &&& !char_at(s, p, '\u{feff}') ==> r is Ok && final(self).spec_state().spec_pos() == p
                    && final(self).spec_state().only_window_grew(&old(self).spec_state())
                &&& char_at(s, p, '\u{feff}') && valid_bom_position(s, p, m) ==> r is Ok && final(self).spec_state().spec_pos() == p + 1
                &&& char_at(s, p, '\u{feff}') && !valid_bom_position(s, p, m) ==> (r matches Err(e)
                    && e.info@ == bom_message(m) && e.mark == m)
            }),
    {
        match self.state.peek_char() {
            Ok('\u{feff}') => {
                if self.is_at_valid_bom_position()? {
                    self.state.consume_char()?;
                    Ok(())
                } else {
                    let mark = self.mark();
                    let mut msg = String::new();
                    push_str(&mut msg, "BOM (\\u{feff}) must not appear inside a document at line ");
                    push_decimal(&mut msg, mark.line);
                    push_str(&mut msg, ", column ");
                    push_decimal(&mut msg, mark.col + 1);
                    push_str(&mut msg, " (YAML 1.2 violation). BOM is only valid at stream start or document boundaries.");
                    Err(ScanError::new(mark, msg.as_str()))
                }
            },
            _ => Ok(()),
        }
    }

    /// Whether a byte order mark may stand at the current position.
    fn is_at_valid_bom_position(&mut self) -> (r: Result<bool, ScanError>)
        requires
            old(self).wf(),
        ensures
            final(self).wf(),
            final(self).spec_state().only_window_grew(&old(self).spec_state()),
            final(self).spec_config() == old(self).spec_config(),
            r == Ok::<bool, ScanError>(valid_bom_position(old(self).spec_state().spec_source(),
                old(self).spec_state().spec_pos(), old(self).spec_state().spec_mark())),
    {
        let mark = self.state.mark();
        if mark.index == 0 {
            return Ok(true);
        }
        if !self.state.at_line_start() {
            return Ok(false);
        }
        if self.marker_run_at_boundary('-') {
            return Ok(true);
        }
        if self.marker_run_at_boundary('.') {
            return Ok(true);
        }
        if mark.line == 1 && mark.col == 0 {
            return Ok(true);
        }
        Ok(false)
    }

    /// Three `c` ahead, followed by a blank or the end.
    fn marker_run_at_boundary(&mut self, c: char) -> (b: bool)
        requires
            old(self).wf(),
        ensures
            final(self).wf(),
            final(self).spec_state().only_window_grew(&old(self).spec_state()),
            final(self).spec_config() == old(self).spec_config(),
            b == bom_marker_ahead(old(self).spec_state().spec_source(), old(self).spec_state().spec_pos(), c),
    {
        if self.state.peek_char_at(0) == Some(c) && self.state.peek_char_at(1) == Some(c)
            && self.state.peek_char_at(2) == Some(c)
        {
            match self.state.peek_char_at(3) {
                Some(' ') | Some('\t') | Some('\n') | Some('\r') | None => true,
                _ => false,
            }
        } else {
            false
        }
    }

    /// Process structural separation [80] on the scanner's state
    pub fn process_structural_separation(&mut self, context: &mut ParametricContext, n: i32) -> (r: Result<(), ScanError>)
        requires
            old(self).wf(),
            old(context).indentation.wf(),
        ensures
            final(self).wf(),
            final(self).spec_state().read_on_from(&old(self).spec_state()),
            *final(context) == *old(context),
    {
        StructuralProductions::process_separation(&mut self.state, context, n)
    }

    /// Validate structural indentation [63] on the scanner's state
    pub fn validate_structural_indent(&mut self, context: &ParametricContext, n: i32) -> (r: Result<bool, ScanError>)
        requires
            old(self).wf(),
            context.indentation.wf(),
        ensures
            final(self).wf(),
            final(self).spec_state().only_window_grew(&old(self).spec_state()),
            r == Ok::<bool, ScanError>(true) <==> context.indentation.items().last() as i32 == n
                && crate::parser::structural_productions::all_spaces(old(self).spec_state().spec_source(),
                    old(self).spec_state().spec_pos(), n as int),
    {
        StructuralProductions::validate_exact_indent(&mut self.state, context, n)
    }

    /// Skip comment lines [76-79] on the scanner's state
    pub fn skip_structural_comments(&mut self) -> (r: Result<Vec<String>, ScanError>)
        requires
            old(self).wf(),
        ensures
            final(self).wf(),
            final(self).spec_state().read_on_from(&old(self).spec_state()),
            r is Ok,
    {
        StructuralProductions::skip_comment_lines(&mut self.state)
    }
}

} // verus!
