//! Indentation handling for the block-structure parser.
pub mod indentation;

pub use indentation::{
    IndentationResult, calculate_block_entry_indent, validate_block_mapping_indentation,
    validate_block_sequence_indentation,
};
