//! Indentation checks for block sequences and mappings, and an indentation state machine
//! over a stack of levels held in a `SmallVec`.
use vstd::prelude::*;
use smallvec::SmallVec;
use crate::error::{Marker, ScanError};
use crate::events::Event;
use crate::scanner::token::Token;

verus! {

/// Zero-allocation indentation validation result
#[derive(Debug, Clone, Copy, PartialEq, Eq, Structural)]
pub enum IndentationResult {
    /// Continue processing - indentation is correct
    Continue,
    /// End current block structure
    EndSequence(Marker),
    EndMapping(Marker),
    /// Indentation error with specific details
    InvalidIndentation { found: usize, expected: usize, marker: Marker },
}

impl IndentationResult {
    pub fn is_continue(&self) -> (b: bool)
        ensures
            b == (*self is Continue),
    {
        match self {
            IndentationResult::Continue => true,
            _ => false,
        }
    }

    pub fn is_end_block(&self) -> (b: bool)
        ensures
            b == (*self is EndSequence || *self is EndMapping),
    {
        match self {
            IndentationResult::EndSequence(_) | IndentationResult::EndMapping(_) => true,
            _ => false,
        }
    }

    pub fn is_error(&self) -> (b: bool)
        ensures
            b == (*self is InvalidIndentation),
    {
        match self {
            IndentationResult::InvalidIndentation { .. } => true,
            _ => false,
        }
    }
}

/// Indentation context for YAML block structures
#[derive(Debug, Clone, Copy, PartialEq, Eq, Structural)]
pub struct IndentationContext {
    pub current_indent: usize,
    pub parent_indent: usize,
    pub is_sequence: bool,
    pub is_first_entry: bool,
}

/// The result of checking column `col` on `line` against a context: a dedent ends the
/// block, a deeper column is an error except on a first entry.
pub open spec fn column_result(ctx: IndentationContext, col: usize, line: usize) -> IndentationResult {
    let m = Marker { index: 0, line, col };
    if col < ctx.current_indent {
        if ctx.is_sequence { IndentationResult::EndSequence(m) } else { IndentationResult::EndMapping(m) }
    } else if col > ctx.current_indent && !ctx.is_first_entry {
        IndentationResult::InvalidIndentation { found: col, expected: ctx.current_indent, marker: m }
    } else {
        IndentationResult::Continue
    }
}

impl IndentationContext {
    pub fn new(current: usize, parent: usize, is_seq: bool, is_first: bool) -> (c: Self)
        ensures
            c == (IndentationContext { current_indent: current, parent_indent: parent, is_sequence: is_seq, is_first_entry: is_first }),
    {
        Self { current_indent: current, parent_indent: parent, is_sequence: is_seq, is_first_entry: is_first }
    }

    /// Check a column against this context
    pub fn validate_column(&self, col: usize, line: usize) -> (r: Option<IndentationResult>)
        ensures
            r == Some(column_result(*self, col, line)),
    {
        let m = Marker { index: 0, line, col };
        if col < self.current_indent {
            if self.is_sequence {
                Some(IndentationResult::EndSequence(m))
            } else {
                Some(IndentationResult::EndMapping(m))
            }
        } else if col > self.current_indent && !self.is_first_entry {
            Some(IndentationResult::InvalidIndentation { found: col, expected: self.current_indent, marker: m })
        } else {
            Some(IndentationResult::Continue)
        }
    }
}

/// Block sequence indentation check: an entry at the expected column continues, a dedent
/// ends the sequence, and a deeper one is an error unless allowed.
pub fn validate_block_sequence_indentation(token: &Token, expected_indent: usize, allow_greater: bool) -> (r: IndentationResult)
    ensures
        r == (if token.0.col == expected_indent {
            IndentationResult::Continue
        } else if token.0.col < expected_indent {
            IndentationResult::EndSequence(token.0)
        } else if !allow_greater {
            IndentationResult::InvalidIndentation { found: token.0.col, expected: expected_indent, marker: token.0 }
        } else {
            IndentationResult::Continue
        }),
{
    let col = token.0.col;
    if col == expected_indent {
        return IndentationResult::Continue;
    }
    if col < expected_indent {
        return IndentationResult::EndSequence(token.0);
    }
    if !allow_greater {
        return IndentationResult::InvalidIndentation { found: col, expected: expected_indent, marker: token.0 };
    }
    IndentationResult::Continue
}

/// Block mapping indentation check: a deeper column is an error only for a key.
pub fn validate_block_mapping_indentation(token: &Token, expected_indent: usize, is_key: bool) -> (r: IndentationResult)
    ensures
        r == (if token.0.col == expected_indent {
            IndentationResult::Continue
        } else if token.0.col < expected_indent {
            IndentationResult::EndMapping(token.0)
        } else if is_key {
            IndentationResult::InvalidIndentation { found: token.0.col, expected: expected_indent, marker: token.0 }
        } else {
            IndentationResult::Continue
        }),
{
    let col = token.0.col;
    if col == expected_indent {
        return IndentationResult::Continue;
    }
    if col < expected_indent {
        return IndentationResult::EndMapping(token.0);
    }
    if col > expected_indent && is_key {
        return IndentationResult::InvalidIndentation { found: col, expected: expected_indent, marker: token.0 };
    }
    IndentationResult::Continue
}

/// The indentation of a block entry's content on a later line: its column, when deeper
/// than both the current indentation and the dash.
pub fn calculate_block_entry_indent(current_line: usize, next_line: usize, next_col: usize, current_indent: usize, dash_col: usize)
    -> (r: Option<usize>)
    ensures
        r == (if next_line == current_line {
            None
        } else if next_col > current_indent && next_col > dash_col {
            Some(next_col)
        } else {
            None::<usize>
        }),
{
    if next_line == current_line {
        return None;
    }
    if next_col > current_indent && next_col > dash_col {
        Some(next_col)
    } else {
        None
    }
}

/// The common indentations accepted outright at or beyond the current one.
pub open spec fn common_indent(col: usize) -> bool {
    col == 0 || col == 2 || col == 4 || col == 6 || col == 8 || col == 10 || col == 12 || col == 16
}

/// Nested block indentation check: a common indentation at or beyond the current one
/// continues; otherwise the context decides.
pub fn validate_nested_block_indentation(token: &Token, context: &IndentationContext) -> (r: IndentationResult)
    ensures
        r == (if common_indent(token.0.col) && token.0.col >= context.current_indent {
            IndentationResult::Continue
        } else {
            column_result(*context, token.0.col, token.0.line)
        }),
{
    let col = token.0.col;
    let common = col == 0 || col == 2 || col == 4 || col == 6 || col == 8 || col == 10 || col == 12 || col == 16;
    if common && col >= context.current_indent {
        return IndentationResult::Continue;
    }
    match context.validate_column(col, token.0.line) {
        Some(r) => r,
        None => IndentationResult::Continue,
    }
}

/// The message for a wrong indentation: exact for a few common cases.
pub open spec fn indentation_message(found: usize, expected: usize) -> Seq<char> {
    if found == 0 && expected == 2 { "invalid indentation: found 0, expected 2"@ }
    else if found == 0 && expected == 4 { "invalid indentation: found 0, expected 4"@ }
    else if found == 2 && expected == 0 { "invalid indentation: found 2, expected 0"@ }
    else if found == 4 && expected == 0 { "invalid indentation: found 4, expected 0"@ }
    else if found == 4 && expected == 2 { "invalid indentation: found 4, expected 2"@ }
    else if found == 2 && expected == 4 { "invalid indentation: found 2, expected 4"@ }
    else { "invalid indentation"@ }
}

fn indentation_error_text(found: usize, expected: usize) -> (s: &'static str)
    ensures
        s@ == indentation_message(found, expected),
{
    if found == 0 && expected == 2 { "invalid indentation: found 0, expected 2" }
    else if found == 0 && expected == 4 { "invalid indentation: found 0, expected 4" }
    else if found == 2 && expected == 0 { "invalid indentation: found 2, expected 0" }
    else if found == 4 && expected == 0 { "invalid indentation: found 4, expected 0" }
    else if found == 4 && expected == 2 { "invalid indentation: found 4, expected 2" }
    else if found == 2 && expected == 4 { "invalid indentation: found 2, expected 4" }
    else { "invalid indentation" }
}

/// Convert an indentation result to the event it calls for, or to an error.
pub fn indentation_result_to_event(result: IndentationResult) -> (r: Result<Option<Event>, ScanError>)
    ensures
        match result {
            IndentationResult::Continue => r matches Ok(None),
            IndentationResult::EndSequence(_) => r matches Ok(Some(Event::SequenceEnd)),
            IndentationResult::EndMapping(_) => r matches Ok(Some(Event::MappingEnd)),
            IndentationResult::InvalidIndentation { found, expected, marker } =>
                r matches Err(e) && e.mark == marker && e.info@ == indentation_message(found, expected),
        },
{
    match result {
        IndentationResult::Continue => Ok(None),
        IndentationResult::EndSequence(_) => Ok(Some(Event::SequenceEnd)),
        IndentationResult::EndMapping(_) => Ok(Some(Event::MappingEnd)),
        IndentationResult::InvalidIndentation { found, expected, marker } =>
            Err(ScanError::new(marker, indentation_error_text(found, expected))),
    }
}

/// The indentation levels, held in a `SmallVec` that keeps the first eight inline.
#[verifier::external_body]
#[derive(Debug)]
pub struct LevelStack {
    items: SmallVec<[usize; 8]>,
}

impl Clone for LevelStack {
    /// `SmallVec::clone`: a copy holding the same items.
    #[verifier::external_body]
    fn clone(&self) -> (c: Self)
        ensures
            level_items(c) == level_items(*self),
    {
        LevelStack { items: self.items.clone() }
    }
}

/// What a level stack holds, in order.
pub uninterp spec fn level_items(v: LevelStack) -> Seq<usize>;

/// `SmallVec::new`: an empty vector.
#[verifier::external_body]
fn levels_new() -> (v: LevelStack)
    ensures
        level_items(v) == Seq::<usize>::empty(),
{
    LevelStack { items: SmallVec::new() }
}

/// `SmallVec::push`: appends at the end. It panics when the doubled capacity's byte size
/// overflows, which the length bound excludes.
#[verifier::external_body]
fn levels_push(v: &mut LevelStack, x: usize)
    requires
        level_items(*old(v)).len() + 1 <= isize::MAX / 16,
    ensures
        level_items(*final(v)) == level_items(*old(v)).push(x),
{
    v.items.push(x);
}

/// `SmallVec::pop`: removes and returns the last item, `None` when empty.
#[verifier::external_body]
fn levels_pop(v: &mut LevelStack) -> (r: Option<usize>)
    ensures
        level_items(*old(v)).len() == 0 ==> r is None && level_items(*final(v)) == level_items(*old(v)),
        level_items(*old(v)).len() > 0 ==> r == Some(level_items(*old(v)).last())
            && level_items(*final(v)) == level_items(*old(v)).drop_last(),
{
    v.items.pop()
}

/// `SmallVec::len`: the number of items.
#[verifier::external_body]
fn levels_len(v: &LevelStack) -> (n: usize)
    ensures
        n == level_items(*v).len(),
{
    v.items.len()
}

/// `SmallVec` indexing through the slice's `get`: the item at `i`, if there is one.
#[verifier::external_body]
fn levels_get(v: &LevelStack, i: usize) -> (r: Option<usize>)
    ensures
        r == (if i < level_items(*v).len() { Some(level_items(*v)[i as int]) } else { None::<usize> }),
{
    v.items.get(i).copied()
}

/// Indentation state machine for nested block structures
#[derive(Debug, Clone)]
pub struct IndentationStateMachine {
    indent_stack: LevelStack,
    current_context: IndentationContext,
}

/// The parent of the top level: the level below it, or the root's own when alone.
pub open spec fn parent_of(items: Seq<usize>) -> usize {
    if items.len() >= 2 { items[items.len() - 2] } else if items.len() == 1 { items[0] } else { 0 }
}

impl IndentationStateMachine {
    /// The indentation levels, outermost (the root at 0) first.
    pub closed spec fn items(&self) -> Seq<usize> {
        level_items(self.indent_stack)
    }

    /// The context of the innermost level.
    pub closed spec fn context(&self) -> IndentationContext {
        self.current_context
    }

    /// The root level is always present, and the stack stays within what can be grown.
    pub open spec fn wf(&self) -> bool {
        self.items().len() >= 1 && self.items().len() < isize::MAX / 16
    }

    pub fn new() -> (m: Self)
        ensures
            m.wf(),
            m.items() == seq![0usize],
            m.context() == (IndentationContext { current_indent: 0, parent_indent: 0, is_sequence: false, is_first_entry: true }),
    {
        let mut stack = levels_new();
        levels_push(&mut stack, 0);
        assert(level_items(stack) =~= seq![0usize]);
        Self { indent_stack: stack, current_context: IndentationContext::new(0, 0, false, true) }
    }

    /// Push a level: it becomes current, with the previous top as its parent.
    pub fn push_indent(&mut self, indent: usize, is_sequence: bool)
        requires
            old(self).wf(),
            old(self).items().len() + 2 < isize::MAX / 16,
        ensures
            final(self).wf(),
            final(self).items() == old(self).items().push(indent),
            final(self).context() == (IndentationContext { current_indent: indent,
                parent_indent: old(self).items().last(), is_sequence, is_first_entry: true }),
    {
        levels_push(&mut self.indent_stack, indent);
        let n = levels_len(&self.indent_stack);
        let parent = match levels_get(&self.indent_stack, if n >= 2 { n - 2 } else { 0 }) {
            Some(p) => p,
            None => 0,
        };
        self.current_context = IndentationContext::new(indent, parent, is_sequence, true);
    }

    /// Pop the innermost level, never the root; the popped level is returned.
    pub fn pop_indent(&mut self) -> (r: Option<usize>)
        requires
            old(self).wf(),
        ensures
            final(self).wf(),
            old(self).items().len() > 1 ==> r == Some(old(self).items().last())
                && final(self).items() == old(self).items().drop_last()
                && final(self).context() == (IndentationContext {
                    current_indent: old(self).items().drop_last().last(),
                    parent_indent: parent_of(old(self).items().drop_last()),
                    is_sequence: false, is_first_entry: false }),
            old(self).items().len() <= 1 ==> r is None && *final(self) == *old(self),
    {
        if levels_len(&self.indent_stack) > 1 {
            let popped = levels_pop(&mut self.indent_stack);
            let n = levels_len(&self.indent_stack);
            let current = match levels_get(&self.indent_stack, n - 1) {
                Some(c) => c,
                None => 0,
            };
            let parent = match levels_get(&self.indent_stack, if n >= 2 { n - 2 } else { 0 }) {
                Some(p) => p,
                None => 0,
            };
            self.current_context = IndentationContext::new(current, parent, false, false);
            popped
        } else {
            None
        }
    }

    /// The number of indentation levels, the root included.
    pub fn level_count(&self) -> (n: usize)
        ensures
            n == self.items().len(),
    {
        levels_len(&self.indent_stack)
    }

    /// The innermost indentation.
    pub fn current_indent(&self) -> (n: usize)
        requires
            self.wf(),
        ensures
            n == self.items().last(),
    {
        let len = levels_len(&self.indent_stack);
        match levels_get(&self.indent_stack, len - 1) {
            Some(c) => c,
            None => 0,
        }
    }

    /// Check a token's column against the innermost level.
    pub fn validate_token(&self, token: &Token) -> (r: IndentationResult)
        ensures
            r == (if common_indent(token.0.col) && token.0.col >= self.context().current_indent {
                IndentationResult::Continue
            } else {
                column_result(self.context(), token.0.col, token.0.line)
            }),
    {
        validate_nested_block_indentation(token, &self.current_context)
    }
}

/// A pushed level is popped again by the next pop, which returns it and leaves the levels
/// as they were before the push.
pub proof fn lemma_push_pop_indent(before: IndentationStateMachine, pushed: IndentationStateMachine,
    popped: IndentationStateMachine, indent: usize, r: Option<usize>)
    requires
        before.wf(),
        pushed.items() == before.items().push(indent),
        pushed.items().len() > 1 ==> r == Some(pushed.items().last()) && popped.items() == pushed.items().drop_last(),
    ensures
        r == Some(indent),
        popped.items() == before.items(),
{
    assert(pushed.items().drop_last() =~= before.items());
}

} // verus!
