//! YAML parsing: grammar productions, contexts, AST, and document construction.
use vstd::prelude::*;

pub mod ast;
pub mod block;
pub mod blocks;
pub mod character_productions;
pub mod documents;
pub mod fast_path;
pub mod flow;
pub mod flows;
pub mod grammar;
pub mod loader;
pub mod node_parser;
pub mod scalars;
pub mod state_machine;
pub mod structural_productions;
pub mod yaml_parser;

pub use character_productions::CharacterProductions;

verus! {

} // verus!
