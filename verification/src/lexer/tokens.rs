//! Token definitions for all YAML 1.2 constructs.
use vstd::prelude::*;
use super::position::Position;

verus! {

/// A token with its kind, value, and source position
#[derive(Debug, Clone, PartialEq)]
pub struct Token {
    pub kind: TokenKind,
    pub position: Position,
    pub length: usize,
}

impl Token {
    pub fn new(kind: TokenKind, position: Position, length: usize) -> (t: Self)
        ensures
            t == (Token { kind, position, length }),
    {
        Self { kind, position, length }
    }

    /// Get the end position of this token: the same line, `length` columns and bytes on.
    pub fn end_position(&self) -> (p: Position)
        requires
            self.position.column + self.length <= usize::MAX,
            self.position.byte_offset + self.length <= usize::MAX,
        ensures
            p == (Position {
                line: self.position.line,
                column: (self.position.column + self.length) as usize,
                byte_offset: (self.position.byte_offset + self.length) as usize,
            }),
    {
        Position::new(
            self.position.line,
            self.position.column + self.length,
            self.position.byte_offset + self.length,
        )
    }
}

/// All possible YAML token types with their associated data
#[derive(Debug, Clone, PartialEq)]
pub enum TokenKind {
    // Stream structure tokens
    StreamStart,
    StreamEnd,
    // Document structure tokens
    DocumentStart,
    DocumentEnd,
    // Block structure tokens
    BlockEntry,
    BlockEnd,
    // Flow structure tokens
    FlowEntry,
    FlowSequenceStart,
    FlowSequenceEnd,
    FlowMappingStart,
    FlowMappingEnd,
    // Key-value tokens
    Key,
    Value,
    // Scalar tokens
    Scalar { value: String, style: ScalarStyle, tag: Option<String> },
    // Anchor and alias tokens
    Anchor(String),
    Alias(String),
    // Tag tokens
    Tag { handle: Option<String>, suffix: String },
    // Directive tokens
    YamlDirective { major: u32, minor: u32 },
    TagDirective { handle: String, prefix: String },
    ReservedDirective { name: String, value: String },
    // Whitespace and formatting
    Whitespace(String),
    LineBreak,
    Comment(String),
    // Indentation tracking
    Indent(usize),
    Dedent(usize),
    // Error recovery
    Error(String),
}

/// Scalar representation styles in YAML
#[derive(Debug, Clone, Copy, PartialEq, Eq, Structural)]
pub enum ScalarStyle {
    /// Plain scalar (no quotes)
    Plain,
    /// Single-quoted scalar
    SingleQuoted,
    /// Double-quoted scalar
    DoubleQuoted,
    /// Literal block scalar (|)
    Literal,
    /// Folded block scalar (>)
    Folded,
}

impl ScalarStyle {
    pub open spec fn name_spec(self) -> Seq<char> {
        match self {
            ScalarStyle::Plain => "plain"@,
            ScalarStyle::SingleQuoted => "single-quoted"@,
            ScalarStyle::DoubleQuoted => "double-quoted"@,
            ScalarStyle::Literal => "literal"@,
            ScalarStyle::Folded => "folded"@,
        }
    }

    /// The style as it is displayed.
    pub fn to_string(&self) -> (s: String)
        ensures
            s@ == self.name_spec(),
    {
        let s = match self {
            ScalarStyle::Plain => "plain",
            ScalarStyle::SingleQuoted => "single-quoted",
            ScalarStyle::DoubleQuoted => "double-quoted",
            ScalarStyle::Literal => "literal",
            ScalarStyle::Folded => "folded",
        };
        s.to_owned()
    }
}

impl TokenKind {
    pub open spec fn spec_can_start_value(&self) -> bool {
        match self {
            TokenKind::Scalar { .. } | TokenKind::FlowSequenceStart | TokenKind::FlowMappingStart
            | TokenKind::Anchor(_) | TokenKind::Tag { .. } | TokenKind::BlockEntry => true,
            _ => false,
        }
    }

    pub open spec fn spec_is_structural(&self) -> bool {
        match self {
            TokenKind::StreamStart | TokenKind::StreamEnd | TokenKind::DocumentStart
            | TokenKind::DocumentEnd | TokenKind::BlockEntry | TokenKind::BlockEnd
            | TokenKind::FlowEntry | TokenKind::FlowSequenceStart | TokenKind::FlowSequenceEnd
            | TokenKind::FlowMappingStart | TokenKind::FlowMappingEnd | TokenKind::Key
            | TokenKind::Value | TokenKind::Indent(_) | TokenKind::Dedent(_) => true,
            _ => false,
        }
    }

    pub open spec fn spec_is_content(&self) -> bool {
        match self {
            TokenKind::Scalar { .. } | TokenKind::Anchor(_) | TokenKind::Alias(_) | TokenKind::Tag { .. } => true,
            _ => false,
        }
    }

    pub open spec fn spec_is_formatting(&self) -> bool {
        match self {
            TokenKind::Whitespace(_) | TokenKind::LineBreak | TokenKind::Comment(_) => true,
            _ => false,
        }
    }

    /// Check if this token can start a value
    pub fn can_start_value(&self) -> (b: bool)
        ensures
            b == self.spec_can_start_value(),
    {
        match self {
            TokenKind::Scalar { .. } | TokenKind::FlowSequenceStart | TokenKind::FlowMappingStart
            | TokenKind::Anchor(_) | TokenKind::Tag { .. } | TokenKind::BlockEntry => true,
            _ => false,
        }
    }

    /// Check if this token ends a flow context
    pub fn ends_flow(&self) -> (b: bool)
        ensures
            b == (self is FlowSequenceEnd || self is FlowMappingEnd),
    {
        match self {
            TokenKind::FlowSequenceEnd | TokenKind::FlowMappingEnd => true,
            _ => false,
        }
    }

    /// Check if this token is structural (affects parsing state)
    pub fn is_structural(&self) -> (b: bool)
        ensures
            b == self.spec_is_structural(),
    {
        match self {
            TokenKind::StreamStart | TokenKind::StreamEnd | TokenKind::DocumentStart
            | TokenKind::DocumentEnd | TokenKind::BlockEntry | TokenKind::BlockEnd
            | TokenKind::FlowEntry | TokenKind::FlowSequenceStart | TokenKind::FlowSequenceEnd
            | TokenKind::FlowMappingStart | TokenKind::FlowMappingEnd | TokenKind::Key
            | TokenKind::Value | TokenKind::Indent(_) | TokenKind::Dedent(_) => true,
            _ => false,
        }
    }

    /// Check if this token is content (carries actual data)
    pub fn is_content(&self) -> (b: bool)
        ensures
            b == self.spec_is_content(),
    {
        match self {
            TokenKind::Scalar { .. } | TokenKind::Anchor(_) | TokenKind::Alias(_) | TokenKind::Tag { .. } => true,
            _ => false,
        }
    }

    /// Check if this token is formatting/whitespace
    pub fn is_formatting(&self) -> (b: bool)
        ensures
            b == self.spec_is_formatting(),
    {
        match self {
            TokenKind::Whitespace(_) | TokenKind::LineBreak | TokenKind::Comment(_) => true,
            _ => false,
        }
    }

    pub open spec fn kind_name_spec(&self) -> Seq<char> {
        match self {
            TokenKind::StreamStart => "stream-start"@,
            TokenKind::StreamEnd => "stream-end"@,
            TokenKind::DocumentStart => "document-start"@,
            TokenKind::DocumentEnd => "document-end"@,
            TokenKind::BlockEntry => "block-entry"@,
            TokenKind::BlockEnd => "block-end"@,
            TokenKind::FlowEntry => "flow-entry"@,
            TokenKind::FlowSequenceStart => "flow-sequence-start"@,
            TokenKind::FlowSequenceEnd => "flow-sequence-end"@,
            TokenKind::FlowMappingStart => "flow-mapping-start"@,
            TokenKind::FlowMappingEnd => "flow-mapping-end"@,
            TokenKind::Key => "key"@,
            TokenKind::Value => "value"@,
            TokenKind::Scalar { .. } => "scalar"@,
            TokenKind::Anchor(_) => "anchor"@,
            TokenKind::Alias(_) => "alias"@,
            TokenKind::Tag { .. } => "tag"@,
            TokenKind::YamlDirective { .. } => "yaml-directive"@,
            TokenKind::TagDirective { .. } => "tag-directive"@,
            TokenKind::ReservedDirective { .. } => "reserved-directive"@,
            TokenKind::Whitespace(_) => "whitespace"@,
            TokenKind::LineBreak => "line-break"@,
            TokenKind::Comment(_) => "comment"@,
            TokenKind::Indent(_) => "indent"@,
            TokenKind::Dedent(_) => "dedent"@,
            TokenKind::Error(_) => "error"@,
        }
    }

    /// Get the display name for this token type
    pub fn kind_name(&self) -> (s: &'static str)
        ensures
            s@ == self.kind_name_spec(),
    {
        match self {
            TokenKind::StreamStart => "stream-start",
            TokenKind::StreamEnd => "stream-end",
            TokenKind::DocumentStart => "document-start",
            TokenKind::DocumentEnd => "document-end",
            TokenKind::BlockEntry => "block-entry",
            TokenKind::BlockEnd => "block-end",
            TokenKind::FlowEntry => "flow-entry",
            TokenKind::FlowSequenceStart => "flow-sequence-start",
            TokenKind::FlowSequenceEnd => "flow-sequence-end",
            TokenKind::FlowMappingStart => "flow-mapping-start",
            TokenKind::FlowMappingEnd => "flow-mapping-end",
            TokenKind::Key => "key",
            TokenKind::Value => "value",
            TokenKind::Scalar { .. } => "scalar",
            TokenKind::Anchor(_) => "anchor",
            TokenKind::Alias(_) => "alias",
            TokenKind::Tag { .. } => "tag",
            TokenKind::YamlDirective { .. } => "yaml-directive",
            TokenKind::TagDirective { .. } => "tag-directive",
            TokenKind::ReservedDirective { .. } => "reserved-directive",
            TokenKind::Whitespace(_) => "whitespace",
            TokenKind::LineBreak => "line-break",
            TokenKind::Comment(_) => "comment",
            TokenKind::Indent(_) => "indent",
            TokenKind::Dedent(_) => "dedent",
            TokenKind::Error(_) => "error",
        }
    }

    pub open spec fn precedence_spec(&self) -> u8 {
        match self {
            TokenKind::StreamStart | TokenKind::StreamEnd => 0,
            TokenKind::DocumentStart | TokenKind::DocumentEnd => 1,
            TokenKind::YamlDirective { .. } | TokenKind::TagDirective { .. }
            | TokenKind::ReservedDirective { .. } => 2,
            TokenKind::BlockEntry | TokenKind::BlockEnd => 3,
            TokenKind::FlowSequenceStart | TokenKind::FlowSequenceEnd => 4,
            TokenKind::FlowMappingStart | TokenKind::FlowMappingEnd => 4,
            TokenKind::Key => 5,
            TokenKind::Value => 6,
            TokenKind::FlowEntry => 7,
            TokenKind::Tag { .. } => 8,
            TokenKind::Anchor(_) => 9,
            TokenKind::Alias(_) => 10,
            TokenKind::Scalar { .. } => 11,
            TokenKind::Whitespace(_) | TokenKind::LineBreak | TokenKind::Comment(_) => 20,
            TokenKind::Indent(_) | TokenKind::Dedent(_) => 21,
            TokenKind::Error(_) => 255,
        }
    }

    /// Get the precedence of this token for parsing decisions
    pub fn precedence(&self) -> (p: u8)
        ensures
            p == self.precedence_spec(),
    {
        match self {
            TokenKind::StreamStart | TokenKind::StreamEnd => 0,
            TokenKind::DocumentStart | TokenKind::DocumentEnd => 1,
            TokenKind::YamlDirective { .. } | TokenKind::TagDirective { .. }
            | TokenKind::ReservedDirective { .. } => 2,
            TokenKind::BlockEntry | TokenKind::BlockEnd => 3,
            TokenKind::FlowSequenceStart | TokenKind::FlowSequenceEnd => 4,
            TokenKind::FlowMappingStart | TokenKind::FlowMappingEnd => 4,
            TokenKind::Key => 5,
            TokenKind::Value => 6,
            TokenKind::FlowEntry => 7,
            TokenKind::Tag { .. } => 8,
            TokenKind::Anchor(_) => 9,
            TokenKind::Alias(_) => 10,
            TokenKind::Scalar { .. } => 11,
            TokenKind::Whitespace(_) | TokenKind::LineBreak | TokenKind::Comment(_) => 20,
            TokenKind::Indent(_) | TokenKind::Dedent(_) => 21,
            TokenKind::Error(_) => 255,
        }
    }
}

} // verus!
