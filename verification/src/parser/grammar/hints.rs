//! Production-specific parsing hints.
use vstd::prelude::*;
use super::productions::Production;

verus! {

/// Production-specific parsing hints and optimizations
pub struct ProductionHints;

/// Performance optimization information for productions
#[derive(Debug, Clone, Copy, PartialEq, Eq, Structural)]
pub struct ProductionOptimization {
    pub can_inline: bool,
    pub zero_allocation: bool,
    pub needs_lookahead: bool,
    pub complexity: Complexity,
}

/// Complexity classification for productions
#[derive(Debug, Clone, Copy, PartialEq, Eq, Structural)]
pub enum Complexity {
    Low,
    Medium,
    High,
}

/// The hints for each production: plain scalars are cheap with lookahead, flow
/// collections medium, block collections high, and everything else cheap.
pub open spec fn hints_spec(p: Production) -> ProductionOptimization {
    match p {
        Production::PlainScalar => ProductionOptimization {
            can_inline: true, zero_allocation: true, needs_lookahead: true, complexity: Complexity::Low },
        Production::FlowSequence | Production::FlowMapping => ProductionOptimization {
            can_inline: false, zero_allocation: false, needs_lookahead: true, complexity: Complexity::Medium },
        Production::BlockSequence | Production::BlockMapping => ProductionOptimization {
            can_inline: false, zero_allocation: false, needs_lookahead: true, complexity: Complexity::High },
        _ => ProductionOptimization {
            can_inline: true, zero_allocation: true, needs_lookahead: false, complexity: Complexity::Low },
    }
}

impl ProductionHints {
    /// Get performance hints for production
    pub fn get_hints(production: Production) -> (h: ProductionOptimization)
        ensures
            h == hints_spec(production),
    {
        match production {
            Production::PlainScalar => ProductionOptimization {
                can_inline: true, zero_allocation: true, needs_lookahead: true, complexity: Complexity::Low },
            Production::FlowSequence | Production::FlowMapping => ProductionOptimization {
                can_inline: false, zero_allocation: false, needs_lookahead: true, complexity: Complexity::Medium },
            Production::BlockSequence | Production::BlockMapping => ProductionOptimization {
                can_inline: false, zero_allocation: false, needs_lookahead: true, complexity: Complexity::High },
            _ => ProductionOptimization {
                can_inline: true, zero_allocation: true, needs_lookahead: false, complexity: Complexity::Low },
        }
    }
}

} // verus!
