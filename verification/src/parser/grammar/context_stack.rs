//! A stack of parse contexts that always keeps the document context at its bottom.
use vstd::prelude::*;
use super::context_types::{ParseContext, is_flow_context, is_block_context};

verus! {

#[derive(Debug, Clone)]
pub struct ContextStack {
    stack: Vec<ParseContext>,
}

impl ContextStack {
    /// The contexts, outermost first.
    pub closed spec fn contexts(&self) -> Seq<ParseContext> {
        self.stack@
    }

    /// The stack is never empty, and the document context is at its bottom.
    pub open spec fn wf(&self) -> bool {
        &&& self.contexts().len() >= 1
        &&& self.contexts()[0] == ParseContext::Document
    }

    /// The innermost context.
    pub open spec fn top(&self) -> ParseContext {
        self.contexts().last()
    }

    /// Create new context stack starting with document context
    pub fn new() -> (s: Self)
        ensures
            s.wf(),
            s.contexts() == seq![ParseContext::Document],
    {
        let s = Self { stack: vec![ParseContext::Document] };
        assert(s.contexts() =~= seq![ParseContext::Document]);
        s
    }

    /// Get current context
    pub fn current(&self) -> (c: &ParseContext)
        requires
            self.wf(),
        ensures
            *c == self.top(),
    {
        &self.stack[self.stack.len() - 1]
    }

    /// A stack holding the same contexts.
    pub fn copy_stack(&self) -> (s: Self)
        ensures
            s.contexts() == self.contexts(),
    {
        let mut v: Vec<ParseContext> = Vec::new();
        let mut i: usize = 0;
        while i < self.stack.len()
            invariant
                i <= self.stack@.len(),
                v@ == self.stack@.take(i as int),
            decreases self.stack@.len() - i,
        {
            v.push(self.stack[i]);
            proof { assert(self.stack@.take(i + 1) =~= self.stack@.take(i as int).push(self.stack@[i as int])); }
            i = i + 1;
        }
        proof { assert(self.stack@.take(self.stack@.len() as int) =~= self.stack@); }
        Self { stack: v }
    }

    /// Push new context
    pub fn push(&mut self, context: ParseContext)
        requires
            old(self).wf(),
        ensures
            final(self).wf(),
            final(self).contexts() == old(self).contexts().push(context),
    {
        self.stack.push(context);
    }

    /// Pop context; the bottom document context stays
    pub fn pop(&mut self) -> (r: Option<ParseContext>)
        requires
            old(self).wf(),
        ensures
            final(self).wf(),
            old(self).contexts().len() > 1 ==> r == Some(old(self).top())
                && final(self).contexts() == old(self).contexts().drop_last(),
            old(self).contexts().len() <= 1 ==> r is None && final(self).contexts() == old(self).contexts(),
    {
        if self.stack.len() > 1 {
            self.stack.pop()
        } else {
            None
        }
    }

    /// Get nesting depth
    pub fn depth(&self) -> (n: usize)
        ensures
            n == self.contexts().len(),
    {
        self.stack.len()
    }

    /// Check if we're in a flow context
    pub fn in_flow_context(&self) -> (b: bool)
        requires
            self.wf(),
        ensures
            b == is_flow_context(self.top()),
    {
        match self.current() {
            ParseContext::FlowIn(_) | ParseContext::FlowKey | ParseContext::FlowValue => true,
            _ => false,
        }
    }

    /// Check if we're in a block context
    pub fn in_block_context(&self) -> (b: bool)
        requires
            self.wf(),
        ensures
            b == is_block_context(self.top()),
    {
        match self.current() {
            ParseContext::BlockIn(_) | ParseContext::BlockKey | ParseContext::BlockValue => true,
            _ => false,
        }
    }

    /// Get current indentation level (for block contexts)
    pub fn current_indent(&self) -> (r: Option<usize>)
        requires
            self.wf(),
        ensures
            r == match self.top() { ParseContext::BlockIn(n) => Some(n), _ => None::<usize> },
    {
        match self.current() {
            ParseContext::BlockIn(indent) => Some(*indent),
            _ => None,
        }
    }

    /// Get current flow level (for flow contexts)
    pub fn current_flow_level(&self) -> (r: Option<usize>)
        requires
            self.wf(),
        ensures
            r == match self.top() { ParseContext::FlowIn(n) => Some(n), _ => None::<usize> },
    {
        match self.current() {
            ParseContext::FlowIn(level) => Some(*level),
            _ => None,
        }
    }
}

impl Default for ContextStack {
    fn default() -> (s: Self)
        ensures
            s.wf(),
            s.contexts() == seq![ParseContext::Document],
    {
        Self::new()
    }
}

/// What is pushed is what the next pop returns, and the pop leaves the stack as it was.
pub proof fn lemma_push_pop_context(before: ContextStack, pushed: ContextStack, popped: ContextStack,
    context: ParseContext, r: Option<ParseContext>)
    requires
        before.wf(),
        pushed.contexts() == before.contexts().push(context),
        pushed.contexts().len() > 1 ==> r == Some(pushed.top()) && popped.contexts() == pushed.contexts().drop_last(),
    ensures
        r == Some(context),
        popped.contexts() == before.contexts(),
{
    assert(pushed.contexts().drop_last() =~= before.contexts());
}

/// The document context at the bottom is never popped: popping as often as one likes
/// never empties the stack.
pub proof fn lemma_bottom_stays(s: ContextStack, after: ContextStack, r: Option<ParseContext>)
    requires
        s.wf(),
        s.contexts().len() > 1 ==> after.contexts() == s.contexts().drop_last(),
        s.contexts().len() <= 1 ==> r is None && after.contexts() == s.contexts(),
    ensures
        after.wf(),
        after.contexts()[0] == s.contexts()[0],
{
}

} // verus!
