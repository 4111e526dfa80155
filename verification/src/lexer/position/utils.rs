//! Utilities for working with line and column information
use vstd::prelude::*;
use super::{Position, Span, advance_spec, can_advance, utf8_len, char_len_utf8, lemma_advance_seq_bounds};
use crate::text::{str_to_chars, push_str, push_char, push_decimal, decimal, line_ranges, lines_spec};

verus! {

/// The position reached by walking `s` from `p` (at byte offset `off`) over every character
/// that starts before byte `target`.
pub open spec fn position_at_offset_spec(s: Seq<char>, target: int, p: Position, off: int) -> Position
    decreases s.len(),
{
    if s.len() == 0 || off >= target {
        p
    } else {
        position_at_offset_spec(s.drop_first(), target, advance_spec(p, s[0]), off + utf8_len(s[0]))
    }
}

/// Calculate position for a byte offset in text
pub fn position_at_offset(text: &str, target_offset: usize) -> (pos: Position)
    requires
        can_advance(Position::start_spec(), text@.len() as int),
    ensures
        pos == position_at_offset_spec(text@, target_offset as int, Position::start_spec(), 0),
{
    let v = str_to_chars(text);
    let mut pos = Position::start();
    let mut offset: usize = 0;
    let mut i: usize = 0;
    assert(v@.skip(0) =~= v@);
    while i < v.len() && offset < target_offset
        invariant
            v@ == text@,
            i <= v@.len(),
            can_advance(Position::start_spec(), text@.len() as int),
            pos.line <= 1 + i && pos.column <= 1 + i && pos.byte_offset == offset && offset <= 4 * i,
            position_at_offset_spec(text@, target_offset as int, Position::start_spec(), 0)
                == position_at_offset_spec(v@.skip(i as int), target_offset as int, pos, offset as int),
        decreases v@.len() - i,
    {
        let ch = v[i];
        proof {
            assert(v@.skip(i as int)[0] == ch);
            assert(v@.skip(i as int).drop_first() =~= v@.skip(i + 1));
        }
        pos.advance_char(ch);
        offset = offset + char_len_utf8(ch);
        i = i + 1;
    }
    proof {
        if i == v@.len() {
            assert(v@.skip(i as int).len() == 0);
        }
    }
    pos
}

/// Get the line containing a position
pub fn line_at_position(text: &str, position: Position) -> (r: Option<&str>)
    ensures
        r matches Some(l) ==> 0 < position.line <= lines_spec(text@).len()
            && l@ == lines_spec(text@)[position.line - 1],
        r is None ==> !(0 < position.line <= lines_spec(text@).len()),
{
    let v = str_to_chars(text);
    let lines = line_ranges(v.as_slice());
    if position.line > 0 && position.line <= lines.len() {
        let (a, b) = lines[position.line - 1];
        Some(text.substring_char(a, b))
    } else {
        None
    }
}

/// The characters of `s` whose first byte (counting from `off`) lies in `[a, b)`.
pub open spec fn chars_in_byte_range(s: Seq<char>, a: int, b: int, off: int) -> Seq<char>
    decreases s.len(),
{
    if s.len() == 0 {
        Seq::empty()
    } else {
        (if a <= off < b { seq![s[0]] } else { Seq::empty() })
            + chars_in_byte_range(s.drop_first(), a, b, off + utf8_len(s[0]))
    }
}

/// Extract text for a span: the characters that start within the span's byte range, when
/// the range lies within the input.
pub fn text_for_span(input: &str, span: Span) -> (r: Option<String>)
    requires
        4 * input@.len() <= usize::MAX,
    ensures
        r is None <==> !(span.start.byte_offset <= input.len()
            && span.end.byte_offset <= input.len()
            && span.start.byte_offset <= span.end.byte_offset),
        r matches Some(t) ==> t@ == chars_in_byte_range(input@, span.start.byte_offset as int,
            span.end.byte_offset as int, 0),
{
    let start_offset = span.start.byte_offset;
    let end_offset = span.end.byte_offset;
    let len = input.len();
    if start_offset <= len && end_offset <= len && start_offset <= end_offset {
        let v = str_to_chars(input);
        let mut out = String::new();
        let mut off: usize = 0;
        let mut i: usize = 0;
        assert(v@.skip(0) =~= v@);
        while i < v.len()
            invariant
                v@ == input@,
                4 * v@.len() <= usize::MAX,
                i <= v@.len(),
                off <= 4 * i,
                chars_in_byte_range(input@, start_offset as int, end_offset as int, 0)
                    == out@ + chars_in_byte_range(v@.skip(i as int), start_offset as int, end_offset as int, off as int),
            decreases v@.len() - i,
        {
            let c = v[i];
            let ghost before = out@;
            proof {
                assert(v@.skip(i as int)[0] == c);
                assert(v@.skip(i as int).drop_first() =~= v@.skip(i + 1));
            }
            if start_offset <= off && off < end_offset {
                push_char(&mut out, c);
            }
            off = off + char_len_utf8(c);
            i = i + 1;
            proof {
                let rest = chars_in_byte_range(v@.skip(i as int), start_offset as int, end_offset as int, off as int);
                if start_offset <= off - utf8_len(c) && off - utf8_len(c) < end_offset {
                    assert(before + (seq![c] + rest) =~= out@ + rest);
                } else {
                    assert(before + (Seq::<char>::empty() + rest) =~= out@ + rest);
                }
            }
        }
        assert(v@.skip(i as int) =~= Seq::<char>::empty());
        assert(out@ + Seq::<char>::empty() =~= out@);
        Some(out)
    } else {
        None
    }
}

/// Create a visual indicator for a position in text
pub fn position_indicator(text: &str, position: Position, width: usize) -> (s: String)
    ensures
        s@ == match line_at_position_spec(text@, position) {
            Some(line) => line + seq!['\n'] + Seq::new(
                indicator_spaces(position, width),
                |_i: int| ' ') + seq!['^'],
            None => "Position "@ + decimal(position.line as nat) + seq![':']
                + decimal(position.column as nat) + " (invalid)"@,
        },
{
    if let Some(line) = line_at_position(text, position) {
        let mut result = String::new();
        push_str(&mut result, line);
        push_char(&mut result, '\n');
        let c = if position.column >= 1 { position.column - 1 } else { 0 };
        let spaces = if c < width { c } else { width };
        let ghost base = result@;
        for i in 0..spaces
            invariant
                result@ == base + Seq::new(i as nat, |_i: int| ' '),
        {
            push_char(&mut result, ' ');
            assert(result@ =~= base + Seq::new((i + 1) as nat, |_i: int| ' '));
        }
        push_char(&mut result, '^');
        proof {
            reveal_strlit("Position ");
            assert(result@ =~= line@ + seq!['\n'] + Seq::new(
                indicator_spaces(position, width),
                |_i: int| ' ') + seq!['^']);
        }
        result
    } else {
        let mut s = String::new();
        push_str(&mut s, "Position ");
        push_decimal(&mut s, position.line);
        push_char(&mut s, ':');
        push_decimal(&mut s, position.column);
        push_str(&mut s, " (invalid)");
        assert(s@ =~= "Position "@ + decimal(position.line as nat) + seq![':']
                + decimal(position.column as nat) + " (invalid)"@);
        s
    }
}

/// How far the indicator is indented: the column minus one, at most `width`.
pub open spec fn indicator_spaces(position: Position, width: usize) -> nat {
    let c: nat = if position.column >= 1 { (position.column - 1) as nat } else { 0 };
    if c < width { c } else { width as nat }
}

/// The line that `line_at_position` finds, if any.
pub open spec fn line_at_position_spec(text: Seq<char>, position: Position) -> Option<Seq<char>> {
    if 0 < position.line <= lines_spec(text).len() {
        Some(lines_spec(text)[position.line - 1])
    } else {
        None
    }
}

} // verus!
