//! The parametric context of YAML 1.2 productions: the context stack, chomping mode,
//! indentation levels and recursion depth.
use vstd::prelude::*;
use crate::error::{Marker, ScanError};
use crate::parsing::indentation::IndentationStateMachine;
use super::context_types::{ChompingMode, ParseContext, YamlContext};

verus! {

/// Tracks parametric context during parsing
#[derive(Debug, Clone)]
pub struct ParametricContext {
    /// Context stack for YAML 1.2 parametric productions
    pub context_stack: Vec<YamlContext>,
    pub current_context: YamlContext,
    pub chomping_mode: Option<ChompingMode>,
    /// The indentation levels
    pub indentation: IndentationStateMachine,
    /// The current recursion depth
    pub recursion_depth: usize,
    pub max_depth: usize,
}

/// The parse context a parametric context corresponds to.
pub open spec fn to_parse_context_spec(current: YamlContext, indent: usize, depth: nat) -> ParseContext {
    match current {
        YamlContext::BlockIn => ParseContext::BlockIn(((indent as i32) as usize)),
        YamlContext::BlockOut => ParseContext::Document,
        YamlContext::BlockKey => ParseContext::BlockKey,
        YamlContext::FlowIn => ParseContext::FlowIn(depth as usize),
        YamlContext::FlowOut => ParseContext::FlowValue,
        YamlContext::FlowKey => ParseContext::FlowKey,
    }
}

impl ParametricContext {
    pub fn new() -> (c: Self)
        ensures
            c.context_stack@ == seq![YamlContext::BlockOut],
            c.current_context == YamlContext::BlockOut,
            c.chomping_mode is None,
            c.indentation.wf(),
            c.indentation.items() == seq![0usize],
            c.recursion_depth == 0,
            c.max_depth == 100,
    {
        Self {
            context_stack: vec![YamlContext::BlockOut],
            current_context: YamlContext::BlockOut,
            chomping_mode: None,
            indentation: IndentationStateMachine::new(),
            recursion_depth: 0,
            max_depth: 100,
        }
    }

    /// Enter `context` at indentation `indent`: the current context is saved and a level
    /// pushed (a sequence level for BLOCK-IN).
    pub fn push_context(&mut self, context: YamlContext, indent: i32)
        requires
            old(self).indentation.wf(),
            old(self).indentation.items().len() + 2 < isize::MAX / 16,
        ensures
            final(self).context_stack@ == old(self).context_stack@.push(old(self).current_context),
            final(self).current_context == context,
            final(self).indentation.wf(),
            final(self).indentation.items() == old(self).indentation.items().push(indent as usize),
            final(self).indentation.context().is_sequence == (context == YamlContext::BlockIn),
            final(self).chomping_mode == old(self).chomping_mode,
            final(self).recursion_depth == old(self).recursion_depth,
            final(self).max_depth == old(self).max_depth,
    {
        self.context_stack.push(self.current_context);
        self.current_context = context;
        let is_sequence = context == YamlContext::BlockIn;
        self.indentation.push_indent(indent as usize, is_sequence);
    }

    /// Leave the current context: the saved one comes back and a level is popped.
    pub fn pop_context(&mut self)
        requires
            old(self).indentation.wf(),
        ensures
            final(self).indentation.wf(),
            old(self).context_stack@.len() > 0 ==> final(self).current_context == old(self).context_stack@.last()
                && final(self).context_stack@ == old(self).context_stack@.drop_last()
                && (old(self).indentation.items().len() > 1 ==> final(self).indentation.items() == old(self).indentation.items().drop_last())
                && (old(self).indentation.items().len() <= 1 ==> final(self).indentation.items() == old(self).indentation.items()),
            old(self).context_stack@.len() == 0 ==> final(self).context_stack@ == old(self).context_stack@
                && final(self).current_context == old(self).current_context
                && final(self).indentation == old(self).indentation,
            final(self).chomping_mode == old(self).chomping_mode,
            final(self).recursion_depth == old(self).recursion_depth,
    {
        if let Some(context) = self.context_stack.pop() {
            self.current_context = context;
            self.indentation.pop_indent();
        }
    }

    /// Get current indentation from the indentation levels
    pub fn current_indent(&self) -> (n: i32)
        requires
            self.indentation.wf(),
        ensures
            n == self.indentation.items().last() as i32,
    {
        self.indentation.current_indent() as i32
    }

    /// Calculate n+m indentation for block collections
    pub fn calculate_block_indent(&self, base: i32, offset: i32) -> (n: i32)
        requires
            i32::MIN <= base + offset <= i32::MAX,
        ensures
            n == base + offset,
    {
        base + offset
    }

    /// Set chomping mode for block scalars
    pub fn set_chomping_mode(&mut self, mode: ChompingMode)
        ensures
            *final(self) == (ParametricContext { chomping_mode: Some(mode), ..*old(self) }),
    {
        self.chomping_mode = Some(mode);
    }

    /// Clear chomping mode after processing block scalar
    pub fn clear_chomping_mode(&mut self)
        ensures
            *final(self) == (ParametricContext { chomping_mode: None, ..*old(self) }),
    {
        self.chomping_mode = None;
    }

    /// Convert the YAML 1.2 context to the parse context
    pub fn to_parse_context(&self) -> (c: ParseContext)
        requires
            self.indentation.wf(),
        ensures
            c == to_parse_context_spec(self.current_context, self.indentation.items().last(), self.context_stack@.len()),
    {
        match self.current_context {
            YamlContext::BlockIn => ParseContext::BlockIn(self.current_indent() as usize),
            YamlContext::BlockOut => ParseContext::Document,
            YamlContext::BlockKey => ParseContext::BlockKey,
            YamlContext::FlowIn => ParseContext::FlowIn(self.context_stack.len()),
            YamlContext::FlowOut => ParseContext::FlowValue,
            YamlContext::FlowKey => ParseContext::FlowKey,
        }
    }

    /// One level deeper; an error once past the maximum depth (the depth still counts it).
    pub fn increment_depth(&mut self) -> (r: Result<(), ScanError>)
        requires
            old(self).recursion_depth < usize::MAX,
        ensures
            *final(self) == (ParametricContext { recursion_depth: (old(self).recursion_depth + 1) as usize, ..*old(self) }),
            r is Err <==> old(self).recursion_depth + 1 > old(self).max_depth,
            r matches Err(e) ==> e.mark == (Marker { index: 0, line: 1, col: 0 })
                && e.info@ == "maximum recursion depth exceeded"@,
    {
        self.recursion_depth = self.recursion_depth + 1;
        if self.recursion_depth > self.max_depth {
            Err(ScanError::new(Marker::new(), "maximum recursion depth exceeded"))
        } else {
            Ok(())
        }
    }

    /// One level shallower, never below zero.
    pub fn decrement_depth(&mut self)
        ensures
            *final(self) == (ParametricContext { recursion_depth: if old(self).recursion_depth > 0 {
                (old(self).recursion_depth - 1) as usize } else { 0 }, ..*old(self) }),
    {
        if self.recursion_depth > 0 {
            self.recursion_depth = self.recursion_depth - 1;
        }
    }
}

impl Default for ParametricContext {
    fn default() -> (c: Self)
        ensures
            c.context_stack@ == seq![YamlContext::BlockOut],
            c.current_context == YamlContext::BlockOut,
            c.chomping_mode is None,
            c.indentation.wf(),
            c.indentation.items() == seq![0usize],
            c.recursion_depth == 0,
            c.max_depth == 100,
    {
        Self::new()
    }
}

} // verus!
