//! YAML 1.2 productions, their parameters, and parse errors.
use vstd::prelude::*;
use crate::lexer::position::Position;
use super::context_types::{ChompingMode, YamlContext};

verus! {

/// Parse error types
#[derive(Debug, Clone)]
pub struct ParseError {
    pub kind: ParseErrorKind,
    pub position: Position,
    pub message: String,
}

impl ParseError {
    pub fn new(kind: ParseErrorKind, position: Position, message: &str) -> (e: Self)
        ensures
            e.kind == kind,
            e.position == position,
            e.message@ == message@,
    {
        Self { kind, position, message: message.to_owned() }
    }
}

#[derive(Debug, Clone, Copy, PartialEq, Eq, Structural)]
pub enum ParseErrorKind {
    LexicalError,
    UnexpectedToken,
    ExpectedToken,
    UnexpectedEndOfInput,
    RecursionLimitExceeded,
    UnexpectedState,
    InternalError,
}

/// YAML 1.2 grammar rules and production definitions
#[derive(Debug, Clone, Copy, PartialEq, Eq, Structural)]
pub enum Production {
    Stream,
    Document,
    ExplicitDocument,
    ImplicitDocument,
    DirectiveDocument,
    BareDocument,
    Node,
    FlowNode,
    BlockNode,
    FlowSequence,
    FlowMapping,
    BlockSequence,
    BlockMapping,
    PlainScalar,
    QuotedScalar,
    SingleQuotedScalar,
    DoubleQuotedScalar,
    LiteralScalar,
    FoldedScalar,
    Properties,
    Tag,
    Anchor,
    FlowPair,
    FlowEntry,
    BlockEntry,
    BlockPair,
    BlockKey,
    BlockValue,
    Comment,
    Directive,
    Reserved,
    /// s-indent(n)
    SIndent(i32),
    /// s-indent(<n)
    SIndentLt(i32),
    /// s-indent(≤n)
    SIndentLe(i32),
    /// s-line-prefix(n,c)
    SLinePrefix(i32, YamlContext),
    /// s-block-line-prefix(n)
    SBlockLinePrefix(i32),
    /// s-flow-line-prefix(n)
    SFlowLinePrefix(i32),
    /// s-separate(n,c)
    SSeparate(i32, YamlContext),
    /// s-separate-lines(n)
    SSeparateLines(i32),
    /// l-empty(n,c)
    LEmpty(i32, YamlContext),
    /// b-l-trimmed(n,c)
    BLTrimmed(i32, YamlContext),
    /// b-l-folded(n,c)
    BLFolded(i32, YamlContext),
    /// c-l-block-scalar(n,t)
    CLBlockScalar(i32, ChompingMode),
    /// c-l+literal(n)
    CLLiteral(i32),
    /// c-l+folded(n)
    CLFolded(i32),
    /// ns-plain-first(c)
    NSPlainFirst(YamlContext),
    /// ns-plain-safe(c)
    NSPlainSafe(YamlContext),
    /// ns-plain-char(c)
    NSPlainChar(YamlContext),
    /// ns-plain-one-line(c)
    NSPlainOneLine(YamlContext),
    /// ns-plain-multi-line(n,c)
    NSPlainMultiLine(i32, YamlContext),
    /// c-flow-sequence(n,c)
    CFlowSequence(i32, YamlContext),
    /// c-flow-mapping(n,c)
    CFlowMapping(i32, YamlContext),
    /// ns-flow-seq-entry(n,c)
    NSFlowSeqEntry(i32, YamlContext),
    /// ns-s-flow-seq-entries(n,c)
    NSSFlowSeqEntries(i32, YamlContext),
    /// ns-flow-node(n,c)
    NSFlowNode(i32, YamlContext),
    /// ns-flow-pair(n,c)
    NSFlowPair(i32, YamlContext),
    /// l+block-sequence(n)
    LBlockSequence(i32),
    /// l+block-mapping(n)
    LBlockMapping(i32),
    /// ns-l-block-map-entry(n)
    NSLBlockMapEntry(i32),
    /// ns-l-compact-mapping(n)
    NSLCompactMapping(i32),
    /// c-l-block-map-explicit-entry(n)
    CLBlockMapExplicitEntry(i32),
    /// c-l-block-map-implicit-entry(n)
    CLBlockMapImplicitEntry(i32),
    /// ns-l-block-map-explicit-value(n)
    NSLBlockMapExplicitValue(i32),
    /// l-document-prefix
    LDocumentPrefix,
    /// c-directives-end
    CDirectivesEnd,
    /// c-document-end
    CDocumentEnd,
    /// l-document-suffix
    LDocumentSuffix,
    /// ns-reserved-directive
    NSReservedDirective,
    /// c-b-block-header(m,t)
    CBBlockHeader(i32, ChompingMode),
}

/// Whether a production applies at indentation `indent` in `context`: parameters must
/// agree, and the productions without parameters always apply.
pub open spec fn matches_spec(p: Production, indent: i32, context: YamlContext) -> bool {
    match p {
        Production::SIndent(n) => indent == n,
        Production::SIndentLt(n) => indent < n,
        Production::SIndentLe(n) => indent <= n,
        Production::SLinePrefix(n, c) => indent == n && context == c,
        Production::SSeparate(n, c) => indent == n && context == c,
        Production::LBlockSequence(n) => indent >= n,
        Production::LBlockMapping(n) => indent >= n,
        Production::NSPlainFirst(c) | Production::NSPlainSafe(c) | Production::NSPlainChar(c)
        | Production::NSPlainOneLine(c) => context == c,
        Production::NSPlainMultiLine(n, c) => indent >= n && context == c,
        Production::CLBlockMapExplicitEntry(n) => indent >= n,
        Production::CLBlockMapImplicitEntry(n) => indent >= n,
        Production::NSLBlockMapExplicitValue(n) => indent >= n,
        Production::CBBlockHeader(m, _) => indent == m,
        Production::CFlowSequence(n, c) | Production::CFlowMapping(n, c) => indent >= n && context == c,
        Production::NSFlowSeqEntry(n, c) | Production::NSSFlowSeqEntries(n, c) | Production::NSFlowNode(n, c)
        | Production::NSFlowPair(n, c) => indent >= n && context == c,
        _ => true,
    }
}

/// The least indentation a production needs, where it sets one.
pub open spec fn min_indent_spec(p: Production) -> Option<int> {
    match p {
        Production::SIndent(n) => Some(n as int),
        Production::SIndentLt(_) => Some(0),
        Production::SIndentLe(_) => Some(0),
        Production::SBlockLinePrefix(n) => Some(n as int),
        Production::LBlockSequence(n) => Some(n + 1),
        Production::LBlockMapping(n) => Some(n + 1),
        Production::CLBlockMapExplicitEntry(n) => Some(n as int),
        Production::CLBlockMapImplicitEntry(n) => Some(n as int),
        Production::NSLBlockMapExplicitValue(n) => Some(n as int),
        Production::CBBlockHeader(m, _) => Some(m as int),
        _ => None,
    }
}

/// The context a production is bound to, where it names one.
pub open spec fn required_context_spec(p: Production) -> Option<YamlContext> {
    match p {
        Production::SLinePrefix(_, c) | Production::SSeparate(_, c) | Production::LEmpty(_, c)
        | Production::BLTrimmed(_, c) | Production::BLFolded(_, c) => Some(c),
        Production::NSPlainFirst(c) | Production::NSPlainSafe(c) | Production::NSPlainChar(c)
        | Production::NSPlainOneLine(c) => Some(c),
        Production::NSPlainMultiLine(_, c) => Some(c),
        Production::CFlowSequence(_, c) | Production::CFlowMapping(_, c) | Production::NSFlowSeqEntry(_, c)
        | Production::NSSFlowSeqEntries(_, c) | Production::NSFlowNode(_, c) | Production::NSFlowPair(_, c) => Some(c),
        _ => None,
    }
}

impl Production {
    /// Check if this production matches with given parameters
    pub fn matches(&self, indent: i32, context: YamlContext) -> (b: bool)
        ensures
            b == matches_spec(*self, indent, context),
    {
        match *self {
            Production::SIndent(n) => indent == n,
            Production::SIndentLt(n) => indent < n,
            Production::SIndentLe(n) => indent <= n,
            Production::SLinePrefix(n, c) => indent == n && context == c,
            Production::SSeparate(n, c) => indent == n && context == c,
            Production::LBlockSequence(n) => indent >= n,
            Production::LBlockMapping(n) => indent >= n,
            Production::NSPlainFirst(c) | Production::NSPlainSafe(c) | Production::NSPlainChar(c)
            | Production::NSPlainOneLine(c) => context == c,
            Production::NSPlainMultiLine(n, c) => indent >= n && context == c,
            Production::CLBlockMapExplicitEntry(n) => indent >= n,
            Production::CLBlockMapImplicitEntry(n) => indent >= n,
            Production::NSLBlockMapExplicitValue(n) => indent >= n,
            Production::CBBlockHeader(m, _) => indent == m,
            Production::CFlowSequence(n, c) | Production::CFlowMapping(n, c) => indent >= n && context == c,
            Production::NSFlowSeqEntry(n, c) | Production::NSSFlowSeqEntries(n, c) | Production::NSFlowNode(n, c)
            | Production::NSFlowPair(n, c) => indent >= n && context == c,
            _ => true,
        }
    }

    /// Get the minimum indentation required by this production
    pub fn min_indent(&self) -> (r: Option<i32>)
        requires
            self matches Production::LBlockSequence(n) ==> n < i32::MAX,
            self matches Production::LBlockMapping(n) ==> n < i32::MAX,
        ensures
            r matches Some(v) ==> min_indent_spec(*self) == Some(v as int),
            r is None <==> min_indent_spec(*self) is None,
    {
        match *self {
            Production::SIndent(n) => Some(n),
            Production::SIndentLt(_) => Some(0),
            Production::SIndentLe(_) => Some(0),
            Production::SBlockLinePrefix(n) => Some(n),
            Production::LBlockSequence(n) => Some(n + 1),
            Production::LBlockMapping(n) => Some(n + 1),
            Production::CLBlockMapExplicitEntry(n) => Some(n),
            Production::CLBlockMapImplicitEntry(n) => Some(n),
            Production::NSLBlockMapExplicitValue(n) => Some(n),
            Production::CBBlockHeader(m, _) => Some(m),
            _ => None,
        }
    }

    /// Check if production requires specific context
    pub fn required_context(&self) -> (r: Option<YamlContext>)
        ensures
            r == required_context_spec(*self),
    {
        match *self {
            Production::SLinePrefix(_, c) | Production::SSeparate(_, c) | Production::LEmpty(_, c)
            | Production::BLTrimmed(_, c) | Production::BLFolded(_, c) => Some(c),
            Production::NSPlainFirst(c) | Production::NSPlainSafe(c) | Production::NSPlainChar(c)
            | Production::NSPlainOneLine(c) => Some(c),
            Production::NSPlainMultiLine(_, c) => Some(c),
            Production::CFlowSequence(_, c) | Production::CFlowMapping(_, c) | Production::NSFlowSeqEntry(_, c)
            | Production::NSSFlowSeqEntries(_, c) | Production::NSFlowNode(_, c) | Production::NSFlowPair(_, c) => Some(c),
            _ => None,
        }
    }
}

} // verus!
