//! The YAML 1.2 grammar: contexts, productions, indicators, hints, the context stack,
//! the parametric context, and the decisions made from tokens and contexts.
pub mod context_stack;
pub mod context_types;
pub mod grammar_impl;
pub mod hints;
pub mod indicators;
pub mod parametric_context;
pub mod productions;

pub use self::context_stack::ContextStack;
pub use self::context_types::{ChompingMode, Context, ParseContext, YamlContext};
pub use self::grammar_impl::Grammar;
pub use self::hints::{Complexity, ProductionHints, ProductionOptimization};
pub use self::indicators::Indicators;
pub use self::parametric_context::ParametricContext;
pub use self::productions::{ParseError, ParseErrorKind, Production};
