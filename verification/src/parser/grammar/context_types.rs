//! YAML 1.2 parsing contexts and related types.
use vstd::prelude::*;

verus! {

/// YAML 1.2 parsing contexts for parametric productions
#[derive(Debug, Clone, Copy, PartialEq, Eq, Structural)]
pub enum YamlContext {
    BlockIn,
    BlockOut,
    BlockKey,
    FlowIn,
    FlowOut,
    FlowKey,
}

/// The parametric contexts under their grammar name.
pub type Context = YamlContext;

/// Block scalar chomping modes
#[derive(Debug, Clone, Copy, PartialEq, Eq, Structural)]
pub enum ChompingMode {
    /// Remove all trailing newlines
    Strip,
    /// Keep first trailing newline only
    Clip,
    /// Keep all trailing newlines
    Keep,
}

/// Context information for grammar-driven parsing
#[derive(Debug, Clone, Copy, PartialEq, Eq, Structural)]
pub enum ParseContext {
    /// Root document context
    Document,
    /// Block collection context with indentation level
    BlockIn(usize),
    /// Flow collection context with nesting level
    FlowIn(usize),
    /// Block key context
    BlockKey,
    /// Flow key context
    FlowKey,
    /// Block value context
    BlockValue,
    /// Flow value context
    FlowValue,
}

/// A flow context: inside a flow collection, a flow key or a flow value.
pub open spec fn is_flow_context(c: ParseContext) -> bool {
    c is FlowIn || c is FlowKey || c is FlowValue
}

/// A block context: inside a block collection, a block key or a block value.
pub open spec fn is_block_context(c: ParseContext) -> bool {
    c is BlockIn || c is BlockKey || c is BlockValue
}

} // verus!
