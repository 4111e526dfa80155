//! A YAML 1.2 scanner, parser and emitter with verified character handling,
//! tokenization and document construction.
use vstd::prelude::*;

pub mod debug_render;
pub mod deserialize;
pub mod emitter;
pub mod error;
pub mod events;
pub mod lexer;
pub mod linked_hash_map;
pub mod parser;
pub mod parsing;
pub mod round_trip;
pub mod scanner;
pub mod text;
pub mod yaml;

pub use error::{Marker, ScanError};
pub use events::{Event, EventReceiver, MarkedEventReceiver, TEncoding, TScalarStyle, TokenType};

verus! {

} // verus!
