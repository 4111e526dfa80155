//! Precise source location tracking for YAML tokens: positions, spans and a tracker with
//! backtracking marks.
use vstd::prelude::*;
use crate::text::{push_decimal, decimal, push_char, str_to_chars};

pub mod utils;

verus! {

/// Precise position in source text
#[derive(Debug, Clone, Copy, PartialEq, Eq, PartialOrd, Ord, Hash, Structural)]
pub struct Position {
    /// Line number (1-based)
    pub line: usize,
    /// Column number (1-based)
    pub column: usize,
    /// Byte offset from start of input (0-based)
    pub byte_offset: usize,
}

/// The number of bytes of `c` in UTF-8.
pub open spec fn utf8_len(c: char) -> nat {
    if (c as u32) < 0x80 {
        1
    } else if (c as u32) < 0x800 {
        2
    } else if (c as u32) < 0x10000 {
        3
    } else {
        4
    }
}

/// The number of bytes of `s` in UTF-8.
pub open spec fn utf8_len_seq(s: Seq<char>) -> nat
    decreases s.len(),
{
    if s.len() == 0 {
        0
    } else {
        utf8_len_seq(s.drop_last()) + utf8_len(s.last())
    }
}


/// Counting UTF-8 bytes from the front.
pub proof fn lemma_utf8_len_front(s: Seq<char>)
    requires
        s.len() > 0,
    ensures
        utf8_len_seq(s) == utf8_len(s[0]) + utf8_len_seq(s.drop_first()),
    decreases s.len(),
{
    if s.len() > 1 {
        let d = s.drop_last();
        let f = s.drop_first();
        lemma_utf8_len_front(d);
        assert(d.drop_first() =~= f.drop_last());
        assert(d[0] == s[0]);
        assert(f.last() == s.last());
        assert(utf8_len_seq(f) == utf8_len_seq(f.drop_last()) + utf8_len(f.last()));
        assert(utf8_len_seq(s) == utf8_len_seq(d) + utf8_len(s.last()));
    } else {
        assert(utf8_len_seq(s.drop_first()) == 0);
        assert(utf8_len_seq(s.drop_last()) == 0);
        assert(s.last() == s[0]);
    }
}

/// One character takes its own byte count.
pub proof fn lemma_utf8_len_single(c: char)
    ensures
        utf8_len_seq(seq![c]) == utf8_len(c),
{
    assert(seq![c].drop_last() =~= Seq::<char>::empty());
    assert(utf8_len_seq(Seq::<char>::empty()) == 0);
    assert(seq![c].last() == c);
}

/// `utf8_len_seq` is the length of the UTF-8 encoding.
pub proof fn lemma_utf8_len_is_encoding_len(s: Seq<char>)
    ensures
        vstd::utf8::encode_utf8(s).len() == utf8_len_seq(s),
    decreases s.len(),
{
    if s.len() > 0 {
        lemma_utf8_len_front(s);
        lemma_utf8_len_is_encoding_len(s.drop_first());
        vstd::utf8::char_is_scalar(s[0]);
    }
}

/// `char::len_utf8`.
pub fn char_len_utf8(c: char) -> (n: usize)
    ensures
        n == utf8_len(c),
        1 <= n <= 4,
{
    let code = c as u32;
    if code < 0x80 {
        1
    } else if code < 0x800 {
        2
    } else if code < 0x10000 {
        3
    } else {
        4
    }
}

/// Whether a position can advance over `n` more characters without overflow.
pub open spec fn can_advance(p: Position, n: int) -> bool {
    p.line + n <= usize::MAX && p.column + n <= usize::MAX && p.byte_offset + 4 * n <= usize::MAX
}

/// The position after the character `c`: a line feed starts a new line at column 1.
pub open spec fn advance_spec(p: Position, c: char) -> Position {
    if c == '\n' {
        Position { line: (p.line + 1) as usize, column: 1, byte_offset: (p.byte_offset + utf8_len(c)) as usize }
    } else {
        Position { line: p.line, column: (p.column + 1) as usize, byte_offset: (p.byte_offset + utf8_len(c)) as usize }
    }
}

/// The position after the characters `s`, in order.
pub open spec fn advance_seq_spec(p: Position, s: Seq<char>) -> Position
    decreases s.len(),
{
    if s.len() == 0 {
        p
    } else {
        advance_spec(advance_seq_spec(p, s.drop_last()), s.last())
    }
}

pub proof fn lemma_advance_seq_bounds(p: Position, s: Seq<char>)
    requires
        can_advance(p, s.len() as int),
    ensures
        advance_seq_spec(p, s).line <= p.line + s.len(),
        advance_seq_spec(p, s).column <= p.column + s.len(),
        advance_seq_spec(p, s).byte_offset <= p.byte_offset + 4 * s.len(),
        advance_seq_spec(p, s).byte_offset == p.byte_offset + utf8_len_seq(s),
        advance_seq_spec(p, s).line >= p.line,
        advance_seq_spec(p, s).column >= 1 || advance_seq_spec(p, s).column == p.column,
    decreases s.len(),
{
    if s.len() > 0 {
        lemma_advance_seq_bounds(p, s.drop_last());
    }
}

/// How many line feeds `s` holds.
pub open spec fn newline_count(s: Seq<char>) -> nat
    decreases s.len(),
{
    if s.len() == 0 {
        0
    } else {
        newline_count(s.drop_last()) + if s.last() == '\n' { 1nat } else { 0nat }
    }
}

/// Advancing over a text moves the line on by its line feeds and the byte offset by its
/// UTF-8 length.
pub proof fn lemma_advance_counts(p: Position, s: Seq<char>)
    requires
        can_advance(p, s.len() as int),
    ensures
        advance_seq_spec(p, s).line == p.line + newline_count(s),
        advance_seq_spec(p, s).byte_offset == p.byte_offset + utf8_len_seq(s),
    decreases s.len(),
{
    lemma_advance_seq_bounds(p, s);
    if s.len() > 0 {
        lemma_advance_seq_bounds(p, s.drop_last());
        lemma_advance_counts(p, s.drop_last());
    }
}

/// Advancing over `s[a..b+1]` is advancing over `s[a..b]` and then over `s[b]`.
pub proof fn lemma_advance_step(p: Position, s: Seq<char>, a: int, b: int)
    requires
        0 <= a <= b < s.len(),
    ensures
        advance_seq_spec(p, s.subrange(a, b + 1)) == advance_spec(advance_seq_spec(p, s.subrange(a, b)), s[b]),
{
    assert(s.subrange(a, b + 1).drop_last() =~= s.subrange(a, b));
}

/// Advancing over one text and then over another ends where advancing over the two
/// joined ends.
pub proof fn lemma_advance_seq_concat(p: Position, a: Seq<char>, b: Seq<char>)
    ensures
        advance_seq_spec(advance_seq_spec(p, a), b) == advance_seq_spec(p, a + b),
    decreases b.len(),
{
    if b.len() == 0 {
        assert(a + b =~= a);
    } else {
        lemma_advance_seq_concat(p, a, b.drop_last());
        assert((a + b).drop_last() =~= a + b.drop_last());
        assert((a + b).last() == b.last());
    }
}

/// Lexicographic order on (line, column, byte offset), as the derived `Ord` compares.
pub open spec fn pos_le(a: Position, b: Position) -> bool {
    a.line < b.line || (a.line == b.line && (a.column < b.column || (a.column == b.column
        && a.byte_offset <= b.byte_offset)))
}

/// `a <= b` for positions, in the derived order.
pub fn position_le(a: Position, b: Position) -> (r: bool)
    ensures
        r == pos_le(a, b),
{
    a.line < b.line || (a.line == b.line && (a.column < b.column || (a.column == b.column
        && a.byte_offset <= b.byte_offset)))
}

impl Position {
    /// Create a new position
    pub fn new(line: usize, column: usize, byte_offset: usize) -> (p: Self)
        ensures
            p == (Position { line, column, byte_offset }),
    {
        Self { line, column, byte_offset }
    }

    /// Create position at start of input
    pub fn start() -> (p: Self)
        ensures
            p == (Position { line: 1, column: 1, byte_offset: 0 }),
    {
        Self::new(1, 1, 0)
    }

    /// Check if this is the start position
    pub fn is_start(&self) -> (b: bool)
        ensures
            b == (self.line == 1 && self.column == 1 && self.byte_offset == 0),
    {
        self.line == 1 && self.column == 1 && self.byte_offset == 0
    }

    /// Advance position by one character
    pub fn advance_char(&mut self, ch: char)
        requires
            can_advance(*old(self), 1),
        ensures
            *final(self) == advance_spec(*old(self), ch),
    {
        if ch == '\n' {
            self.line = self.line + 1;
            self.column = 1;
        } else {
            self.column = self.column + 1;
        }
        self.byte_offset = self.byte_offset + char_len_utf8(ch);
    }

    /// Advance position by multiple characters
    pub fn advance_str(&mut self, s: &str)
        requires
            can_advance(*old(self), s@.len() as int),
        ensures
            *final(self) == advance_seq_spec(*old(self), s@),
    {
        let v = str_to_chars(s);
        self.advance_chars(v.as_slice());
    }

    /// Advance position over a run of characters
    pub fn advance_chars(&mut self, v: &[char])
        requires
            can_advance(*old(self), v@.len() as int),
        ensures
            *final(self) == advance_seq_spec(*old(self), v@),
    {
        let ghost p0 = *self;
        for i in 0..v.len()
            invariant
                can_advance(p0, v@.len() as int),
                *self == advance_seq_spec(p0, v@.take(i as int)),
        {
            proof {
                lemma_advance_seq_bounds(p0, v@.take(i as int));
                assert(v@.take(i + 1).drop_last() =~= v@.take(i as int));
            }
            self.advance_char(v[i]);
        }
        assert(v@.take(v@.len() as int) =~= v@);
    }

    /// Create a span from this position to another
    pub fn span_to(self, end: Position) -> (s: Span)
        ensures
            s == (Span { start: self, end }),
    {
        Span::new(self, end)
    }

    /// The position as it is displayed: `"{line}:{column}"`.
    pub fn to_string(&self) -> (s: String)
        ensures
            s@ == decimal(self.line as nat) + seq![':'] + decimal(self.column as nat),
    {
        let mut s = String::new();
        push_decimal(&mut s, self.line);
        push_char(&mut s, ':');
        push_decimal(&mut s, self.column);
        assert(s@ =~= decimal(self.line as nat) + seq![':'] + decimal(self.column as nat));
        s
    }
}

impl Default for Position {
    fn default() -> (p: Self)
        ensures
            p == (Position { line: 1, column: 1, byte_offset: 0 }),
    {
        Self::start()
    }
}

/// A span of text in the source
#[derive(Debug, Clone, Copy, PartialEq, Eq, Structural)]
pub struct Span {
    pub start: Position,
    pub end: Position,
}

impl Span {
    /// Create a new span
    pub fn new(start: Position, end: Position) -> (s: Self)
        ensures
            s == (Span { start, end }),
    {
        Self { start, end }
    }

    /// Create a span covering a single position
    pub fn point(pos: Position) -> (s: Self)
        ensures
            s == (Span { start: pos, end: pos }),
    {
        Self::new(pos, pos)
    }

    /// Get the length of this span in bytes
    pub fn byte_len(&self) -> (n: usize)
        ensures
            n == if self.end.byte_offset >= self.start.byte_offset {
                (self.end.byte_offset - self.start.byte_offset) as usize
            } else {
                0
            },
    {
        if self.end.byte_offset >= self.start.byte_offset {
            self.end.byte_offset - self.start.byte_offset
        } else {
            0
        }
    }

    /// Check if this span contains a position
    pub fn contains(&self, pos: Position) -> (b: bool)
        ensures
            b == (pos_le(self.start, pos) && pos_le(pos, self.end)),
    {
        position_le(self.start, pos) && position_le(pos, self.end)
    }

    /// Check if this span overlaps with another
    pub fn overlaps(&self, other: Span) -> (b: bool)
        ensures
            b == (pos_le(self.start, other.end) && pos_le(other.start, self.end)),
    {
        position_le(self.start, other.end) && position_le(other.start, self.end)
    }

    /// Merge this span with another
    pub fn merge(self, other: Span) -> (s: Span)
        ensures
            s.start == if pos_le(self.start, other.start) { self.start } else { other.start },
            s.end == if pos_le(self.end, other.end) { other.end } else { self.end },
    {
        let start = if position_le(self.start, other.start) { self.start } else { other.start };
        let end = if position_le(self.end, other.end) { other.end } else { self.end };
        Span::new(start, end)
    }

    /// The span as it is displayed: one position, or `"{start}-{end}"`.
    pub fn to_string(&self) -> (s: String)
        ensures
            s@ == if self.start == self.end {
                decimal(self.start.line as nat) + seq![':'] + decimal(self.start.column as nat)
            } else {
                decimal(self.start.line as nat) + seq![':'] + decimal(self.start.column as nat)
                    + seq!['-'] + decimal(self.end.line as nat) + seq![':'] + decimal(self.end.column as nat)
            },
    {
        let mut s = self.start.to_string();
        if self.start != self.end {
            push_char(&mut s, '-');
            let e = self.end.to_string();
            crate::text::push_str(&mut s, e.as_str());
        }
        s
    }
}

/// High-performance position tracker for lexical analysis
#[derive(Debug, Clone)]
pub struct PositionTracker {
    current: Position,
    mark_stack: Vec<Position>,
}

impl PositionTracker {
    /// The current position.
    pub closed spec fn spec_current(&self) -> Position {
        self.current
    }

    /// The marked positions, oldest first.
    pub closed spec fn spec_marks(&self) -> Seq<Position> {
        self.mark_stack@
    }

    /// Create a new position tracker
    pub fn new() -> (t: Self)
        ensures
            t.spec_current() == Position::start_spec(),
            t.spec_marks() == Seq::<Position>::empty(),
    {
        Self { current: Position::start(), mark_stack: Vec::new() }
    }

    /// Get the current position
    pub fn current(&self) -> (p: Position)
        ensures
            p == self.spec_current(),
    {
        self.current
    }

    /// Advance by one character
    pub fn advance_char(&mut self, ch: char)
        requires
            can_advance(old(self).spec_current(), 1),
        ensures
            final(self).spec_current() == advance_spec(old(self).spec_current(), ch),
            final(self).spec_marks() == old(self).spec_marks(),
    {
        self.current.advance_char(ch);
    }

    /// Advance by a string
    pub fn advance_str(&mut self, s: &str)
        requires
            can_advance(old(self).spec_current(), s@.len() as int),
        ensures
            final(self).spec_current() == advance_seq_spec(old(self).spec_current(), s@),
            final(self).spec_marks() == old(self).spec_marks(),
    {
        self.current.advance_str(s);
    }

    /// Advance by a specific number of bytes (each taken as one single-byte character)
    pub fn advance_bytes(&mut self, bytes: usize)
        requires
            old(self).spec_current().byte_offset + bytes <= usize::MAX,
            old(self).spec_current().column + bytes <= usize::MAX,
        ensures
            final(self).spec_current() == (Position {
                line: old(self).spec_current().line,
                column: (old(self).spec_current().column + bytes) as usize,
                byte_offset: (old(self).spec_current().byte_offset + bytes) as usize,
            }),
            final(self).spec_marks() == old(self).spec_marks(),
    {
        self.current.byte_offset = self.current.byte_offset + bytes;
        self.current.column = self.current.column + bytes;
    }

    /// Mark the current position for potential backtracking
    pub fn mark(&mut self)
        ensures
            final(self).spec_current() == old(self).spec_current(),
            final(self).spec_marks() == old(self).spec_marks().push(old(self).spec_current()),
    {
        self.mark_stack.push(self.current);
    }

    /// Return to the last marked position
    pub fn reset(&mut self) -> (b: bool)
        ensures
            b == (old(self).spec_marks().len() > 0),
            b ==> final(self).spec_current() == old(self).spec_marks().last(),
            b ==> final(self).spec_marks() == old(self).spec_marks().drop_last(),
            !b ==> final(self).spec_current() == old(self).spec_current(),
            !b ==> final(self).spec_marks() == old(self).spec_marks(),
    {
        if let Some(pos) = self.mark_stack.pop() {
            self.current = pos;
            true
        } else {
            false
        }
    }

    /// Marking and later resetting, with only moves in between, comes back to the marked
    /// position with the marks as they were before the mark.
    pub proof fn lemma_mark_then_reset(before: PositionTracker, marked: PositionTracker, moved: PositionTracker,
        back: PositionTracker)
        requires
            marked.spec_current() == before.spec_current(),
            marked.spec_marks() == before.spec_marks().push(before.spec_current()),
            moved.spec_marks() == marked.spec_marks(),
            moved.spec_marks().len() > 0 ==> back.spec_current() == moved.spec_marks().last()
                && back.spec_marks() == moved.spec_marks().drop_last(),
        ensures
            back.spec_current() == before.spec_current(),
            back.spec_marks() == before.spec_marks(),
    {
        assert(before.spec_marks().push(before.spec_current()).drop_last() =~= before.spec_marks());
    }

    /// Drop the last mark without resetting
    pub fn drop_mark(&mut self) -> (b: bool)
        ensures
            b == (old(self).spec_marks().len() > 0),
            final(self).spec_current() == old(self).spec_current(),
            b ==> final(self).spec_marks() == old(self).spec_marks().drop_last(),
            !b ==> final(self).spec_marks() == old(self).spec_marks(),
    {
        self.mark_stack.pop().is_some()
    }

    /// Clear all marks
    pub fn clear_marks(&mut self)
        ensures
            final(self).spec_current() == old(self).spec_current(),
            final(self).spec_marks() == Seq::<Position>::empty(),
    {
        self.mark_stack.clear();
    }

    /// Get the number of active marks
    pub fn mark_count(&self) -> (n: usize)
        ensures
            n == self.spec_marks().len(),
    {
        self.mark_stack.len()
    }

    /// Create a span from the last mark to current position
    pub fn span_from_mark(&self) -> (s: Option<Span>)
        ensures
            s == if self.spec_marks().len() > 0 {
                Some(Span { start: self.spec_marks().last(), end: self.spec_current() })
            } else {
                None::<Span>
            },
    {
        let n = self.mark_stack.len();
        if n > 0 {
            Some(Span::new(self.mark_stack[n - 1], self.current))
        } else {
            None
        }
    }

    /// Handle line ending normalization at the character `input[offset]`: a LF or a lone CR
    /// advances one character, a CR LF pair two; each is one new line. Returns the number of
    /// characters consumed.
    pub fn handle_line_ending(&mut self, input: &str, offset: usize) -> (n: usize)
        requires
            can_advance(old(self).spec_current(), 1),
        ensures
            n == if offset < input@.len() && input@[offset as int] == '\n' {
                1usize
            } else if offset < input@.len() && input@[offset as int] == '\r' {
                if offset + 1 < input@.len() && input@[offset + 1] == '\n' { 2usize } else { 1usize }
            } else {
                0usize
            },
            n > 0 ==> final(self).spec_current() == advance_spec(old(self).spec_current(), '\n'),
            n == 0 ==> final(self).spec_current() == old(self).spec_current(),
            final(self).spec_marks() == old(self).spec_marks(),
    {
        let v = str_to_chars(input);
        if offset < v.len() {
            let ch = v[offset];
            if ch == '\n' {
                self.advance_char('\n');
                1
            } else if ch == '\r' {
                if offset + 1 < v.len() && v[offset + 1] == '\n' {
                    self.advance_char('\n');
                    2
                } else {
                    self.advance_char('\n');
                    1
                }
            } else {
                0
            }
        } else {
            0
        }
    }
}

impl Position {
    pub open spec fn start_spec() -> Position {
        Position { line: 1, column: 1, byte_offset: 0 }
    }
}

impl Default for PositionTracker {
    fn default() -> (t: Self)
        ensures
            t.spec_current() == Position::start_spec(),
            t.spec_marks() == Seq::<Position>::empty(),
    {
        Self::new()
    }
}

} // verus!
