//! YAML 1.2 indicator classification.
use vstd::prelude::*;

verus! {

/// YAML 1.2 indicator classification
pub struct Indicators;

/// The YAML indicators: structure, quotes, block scalar, directive, node property and
/// reserved characters.
pub open spec fn spec_is_indicator(ch: char) -> bool {
    ch == '-' || ch == '?' || ch == ':' || ch == ',' || ch == '[' || ch == ']' || ch == '{' || ch == '}'
        || ch == '\'' || ch == '"' || ch == '|' || ch == '>' || ch == '%' || ch == '!' || ch == '&'
        || ch == '*' || ch == '@' || ch == '`'
}

impl Indicators {
    /// Check if character is a YAML indicator
    pub fn is_indicator(ch: char) -> (b: bool)
        ensures
            b == spec_is_indicator(ch),
    {
        match ch {
            '-' | '?' | ':' | ',' | '[' | ']' | '{' | '}' => true,
            '\'' | '"' => true,
            '|' | '>' => true,
            '%' | '!' => true,
            '&' | '*' => true,
            '@' | '`' => true,
            _ => false,
        }
    }

    /// Check if character is a flow indicator
    pub fn is_flow_indicator(ch: char) -> (b: bool)
        ensures
            b == (ch == ',' || ch == '[' || ch == ']' || ch == '{' || ch == '}'),
    {
        ch == ',' || ch == '[' || ch == ']' || ch == '{' || ch == '}'
    }

    /// Check if character is a block indicator
    pub fn is_block_indicator(ch: char) -> (b: bool)
        ensures
            b == (ch == '-' || ch == '?' || ch == ':'),
    {
        ch == '-' || ch == '?' || ch == ':'
    }
}

} // verus!
