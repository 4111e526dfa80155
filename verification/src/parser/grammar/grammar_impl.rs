//! Grammar decisions: what a token can start, which production applies in a context,
//! which context follows, and checks of scalar styles and indentation.
use vstd::prelude::*;
use crate::lexer::position::Position;
use crate::lexer::tokens::{ScalarStyle, TokenKind};
use super::context_types::{ParseContext, YamlContext, is_flow_context};
use super::parametric_context::ParametricContext;
use super::productions::{ParseError, ParseErrorKind, Production, matches_spec};
use crate::text::push_str;

verus! {

/// Grammar validation and decision utilities
pub struct Grammar;

/// Tokens that can start a node: scalars, flow collection starts, block entries and node
/// properties.
pub open spec fn starts_node(t: TokenKind) -> bool {
    t is Scalar || t is FlowSequenceStart || t is FlowMappingStart || t is BlockEntry || t is Anchor
        || t is Alias || t is Tag
}

/// Tokens that can start a document: a node, a document start or a directive.
pub open spec fn starts_document(t: TokenKind) -> bool {
    t is DocumentStart || t is YamlDirective || t is TagDirective || t is ReservedDirective || starts_node(t)
}

/// Whether `t` continues a plain scalar in `c`.
pub open spec fn continues_plain(t: TokenKind, c: ParseContext) -> bool {
    match c {
        ParseContext::FlowIn(_) | ParseContext::FlowKey | ParseContext::FlowValue => t is Scalar,
        ParseContext::BlockIn(_) | ParseContext::BlockKey | ParseContext::BlockValue => t is Scalar,
        ParseContext::Document => !(t is DocumentStart || t is DocumentEnd || t is StreamEnd),
    }
}

/// The production chosen for `t` in `c` with the next token `la`; `None` where the
/// context admits no such token.
pub open spec fn production_spec(t: TokenKind, c: ParseContext, la: Option<TokenKind>) -> Option<Production> {
    match c {
        ParseContext::Document => {
            if t is DocumentStart { Some(Production::ExplicitDocument) }
            else if t is YamlDirective || t is TagDirective || t is ReservedDirective { Some(Production::DirectiveDocument) }
            else if starts_node(t) { Some(Production::BareDocument) }
            else { None }
        },
        ParseContext::FlowIn(_) => {
            if t is FlowSequenceStart { Some(Production::FlowSequence) }
            else if t is FlowMappingStart { Some(Production::FlowMapping) }
            else if t is Scalar { if la matches Some(TokenKind::Value) { Some(Production::FlowPair) } else { Some(Production::PlainScalar) } }
            else if t is Anchor || t is Tag { Some(Production::Properties) }
            else if t is Alias { Some(Production::Node) }
            else { Some(Production::FlowNode) }
        },
        ParseContext::BlockIn(_) => {
            if t is BlockEntry { Some(Production::BlockSequence) }
            else if t is Key { Some(Production::BlockMapping) }
            else if t is Scalar { if la matches Some(TokenKind::Value) { Some(Production::BlockPair) } else { Some(Production::PlainScalar) } }
            else if t is Anchor || t is Tag { Some(Production::Properties) }
            else if t is Alias { Some(Production::Node) }
            else { Some(Production::BlockNode) }
        },
        ParseContext::BlockKey | ParseContext::FlowKey => {
            if t is Scalar { Some(Production::PlainScalar) }
            else if t is FlowSequenceStart { Some(Production::FlowSequence) }
            else if t is FlowMappingStart { Some(Production::FlowMapping) }
            else if t is Anchor || t is Tag { Some(Production::Properties) }
            else if t is Alias { Some(Production::Node) }
            else { None }
        },
        ParseContext::BlockValue | ParseContext::FlowValue => {
            if t is Scalar { Some(Production::PlainScalar) }
            else if t is FlowSequenceStart { Some(Production::FlowSequence) }
            else if t is FlowMappingStart { Some(Production::FlowMapping) }
            else if t is BlockEntry { Some(Production::BlockSequence) }
            else if t is Anchor || t is Tag { Some(Production::Properties) }
            else { Some(Production::Node) }
        },
    }
}

/// The message when no production applies: the context and the token's kind.
pub open spec fn production_error_message(t: TokenKind, c: ParseContext) -> Seq<char> {
    if c is Document {
        "unexpected token in document context: "@ + t.kind_name_spec()
    } else {
        "unexpected token in key context: "@ + t.kind_name_spec()
    }
}

/// Whether a plain scalar's text holds a flow indicator.
pub open spec fn has_flow_indicator(s: Seq<char>) -> bool {
    exists|i: int| 0 <= i < s.len() && (#[trigger] s[i] == ',' || s[i] == '[' || s[i] == ']' || s[i] == '{' || s[i] == '}')
}

/// Whether a plain scalar's text starts with a reserved block indicator.
pub open spec fn starts_with_block_indicator(s: Seq<char>) -> bool {
    s.len() > 0 && (s[0] == '-' || s[0] == '?' || s[0] == ':' || s[0] == '|' || s[0] == '>' || s[0] == '@' || s[0] == '`')
}

/// The message for a scalar whose style does not suit its context, if any.
pub open spec fn scalar_style_error(style: ScalarStyle, c: ParseContext, v: Seq<char>) -> Option<Seq<char>> {
    match style {
        ScalarStyle::Plain => if is_flow_context(c) {
            if has_flow_indicator(v) { Some("plain scalar contains flow indicators in flow context"@) } else { None }
        } else {
            if starts_with_block_indicator(v) { Some("plain scalar starts with reserved indicator"@) } else { None }
        },
        ScalarStyle::SingleQuoted | ScalarStyle::DoubleQuoted => None,
        ScalarStyle::Literal | ScalarStyle::Folded =>
            if is_flow_context(c) { Some("block scalar not allowed in flow context"@) } else { None },
    }
}

/// The context after a production in `c`.
pub open spec fn next_context_spec(c: ParseContext, p: Production, indent: Option<usize>) -> ParseContext {
    match (c, p) {
        (ParseContext::Document, Production::ExplicitDocument) => ParseContext::BlockIn(0),
        (ParseContext::Document, Production::BareDocument) => ParseContext::BlockIn(0),
        (ParseContext::BlockIn(level), Production::FlowSequence) => ParseContext::FlowIn((level + 1) as usize),
        (ParseContext::BlockIn(level), Production::FlowMapping) => ParseContext::FlowIn((level + 1) as usize),
        (ParseContext::BlockIn(_), Production::BlockSequence) =>
            ParseContext::BlockIn(match indent { Some(n) => n, None => 0 }),
        (ParseContext::BlockIn(_), Production::BlockMapping) =>
            ParseContext::BlockIn(match indent { Some(n) => n, None => 0 }),
        (ParseContext::FlowIn(level), Production::FlowSequence) => ParseContext::FlowIn((level + 1) as usize),
        (ParseContext::FlowIn(level), Production::FlowMapping) => ParseContext::FlowIn((level + 1) as usize),
        (ParseContext::BlockIn(_), Production::BlockKey) => ParseContext::BlockKey,
        (ParseContext::BlockIn(_), Production::BlockValue) => ParseContext::BlockValue,
        (ParseContext::FlowIn(_), Production::FlowPair) => ParseContext::FlowKey,
        _ => c,
    }
}

/// The productions that apply in a parametric context at indentation `n`.
pub open spec fn applicable_spec(c: YamlContext, n: i32) -> Seq<Production> {
    match c {
        YamlContext::BlockOut | YamlContext::BlockIn => seq![Production::LBlockSequence(n),
            Production::LBlockMapping(n), Production::SIndent(n), Production::SBlockLinePrefix(n)],
        YamlContext::FlowOut | YamlContext::FlowIn => seq![Production::CFlowSequence(n, c),
            Production::CFlowMapping(n, c), Production::SFlowLinePrefix(n)],
        YamlContext::BlockKey | YamlContext::FlowKey => seq![Production::NSPlainFirst(c), Production::NSPlainSafe(c)],
    }
}

/// The parametric context after a production.
pub open spec fn next_parametric_spec(c: YamlContext, p: Production) -> YamlContext {
    match (c, p) {
        (YamlContext::BlockOut, Production::Document) => YamlContext::BlockIn,
        (YamlContext::BlockIn, Production::LBlockSequence(_)) => YamlContext::BlockIn,
        (YamlContext::BlockIn, Production::LBlockMapping(_)) => YamlContext::BlockIn,
        (YamlContext::BlockIn, Production::CFlowSequence(_, _)) => YamlContext::FlowIn,
        (YamlContext::BlockIn, Production::CFlowMapping(_, _)) => YamlContext::FlowIn,
        (YamlContext::FlowIn, Production::CFlowSequence(_, _)) => YamlContext::FlowIn,
        (YamlContext::FlowIn, Production::CFlowMapping(_, _)) => YamlContext::FlowIn,
        (YamlContext::BlockIn, Production::BlockKey) => YamlContext::BlockKey,
        (YamlContext::BlockKey, Production::BlockValue) => YamlContext::BlockIn,
        (YamlContext::FlowIn, Production::FlowPair) => YamlContext::FlowKey,
        (YamlContext::FlowKey, Production::FlowEntry) => YamlContext::FlowIn,
        _ => c,
    }
}

impl Grammar {
    /// Check if token can start a document
    pub fn can_start_document(token: &TokenKind) -> (b: bool)
        ensures
            b == starts_document(*token),
    {
        match token {
            TokenKind::DocumentStart | TokenKind::YamlDirective { .. } | TokenKind::TagDirective { .. }
            | TokenKind::ReservedDirective { .. } | TokenKind::Scalar { .. } | TokenKind::FlowSequenceStart
            | TokenKind::FlowMappingStart | TokenKind::BlockEntry | TokenKind::Anchor(_) | TokenKind::Alias(_)
            | TokenKind::Tag { .. } => true,
            _ => false,
        }
    }

    /// Check if token can start a node
    pub fn can_start_node(token: &TokenKind) -> (b: bool)
        ensures
            b == starts_node(*token),
    {
        match token {
            TokenKind::Scalar { .. } | TokenKind::FlowSequenceStart | TokenKind::FlowMappingStart
            | TokenKind::BlockEntry | TokenKind::Anchor(_) | TokenKind::Alias(_) | TokenKind::Tag { .. } => true,
            _ => false,
        }
    }

    /// Check if token can start a flow collection
    pub fn can_start_flow_collection(token: &TokenKind) -> (b: bool)
        ensures
            b == (*token is FlowSequenceStart || *token is FlowMappingStart),
    {
        match token {
            TokenKind::FlowSequenceStart | TokenKind::FlowMappingStart => true,
            _ => false,
        }
    }

    /// Check if token can start a block collection
    pub fn can_start_block_collection(token: &TokenKind) -> (b: bool)
        ensures
            b == (*token is BlockEntry || *token is Key),
    {
        match token {
            TokenKind::BlockEntry | TokenKind::Key => true,
            _ => false,
        }
    }

    /// Check if token is a scalar
    pub fn is_scalar(token: &TokenKind) -> (b: bool)
        ensures
            b == (*token is Scalar),
    {
        match token {
            TokenKind::Scalar { .. } => true,
            _ => false,
        }
    }

    /// Check if token is a property (anchor or tag)
    pub fn is_property(token: &TokenKind) -> (b: bool)
        ensures
            b == (*token is Anchor || *token is Tag),
    {
        match token {
            TokenKind::Anchor(_) | TokenKind::Tag { .. } => true,
            _ => false,
        }
    }

    /// Check if token can continue a plain scalar in given context
    pub fn can_continue_plain_scalar(token: &TokenKind, context: &ParseContext) -> (b: bool)
        ensures
            b == continues_plain(*token, *context),
    {
        match context {
            ParseContext::FlowIn(_) | ParseContext::FlowKey | ParseContext::FlowValue => match token {
                TokenKind::Scalar { .. } => true,
                _ => false,
            },
            ParseContext::BlockIn(_) | ParseContext::BlockKey | ParseContext::BlockValue => match token {
                TokenKind::Scalar { .. } => true,
                _ => false,
            },
            ParseContext::Document => match token {
                TokenKind::DocumentStart | TokenKind::DocumentEnd | TokenKind::StreamEnd => false,
                _ => true,
            },
        }
    }

    /// Determine if a mapping key-value pair is implicit (no explicit value indicator)
    pub fn is_implicit_mapping_value(context: &ParseContext) -> (b: bool)
        ensures
            b == (*context is BlockIn),
    {
        match context {
            ParseContext::BlockIn(_) => true,
            _ => false,
        }
    }

    /// Check if indentation is valid for block context: deeper, or at least as deep when
    /// not strict
    pub fn is_valid_block_indentation(current_indent: usize, context_indent: usize, strict: bool) -> (b: bool)
        ensures
            b == (if strict { current_indent > context_indent } else { current_indent >= context_indent }),
    {
        if strict {
            current_indent > context_indent
        } else {
            current_indent >= context_indent
        }
    }

    /// Determine production rule for current parsing state
    pub fn determine_production(token: &TokenKind, context: &ParseContext, lookahead: Option<&TokenKind>)
        -> (r: Result<Production, ParseError>)
        ensures
            ({
                let la = match lookahead { Some(t) => Some(*t), None => None::<TokenKind> };
                match production_spec(*token, *context, la) {
                    Some(p) => r == Ok::<Production, ParseError>(p),
                    None => r matches Err(e) && e.kind == ParseErrorKind::UnexpectedToken
                        && e.position == Position::start_spec()
                        && e.message@ == production_error_message(*token, *context),
                }
            }),
    {
        let followed_by_value = match lookahead {
            Some(TokenKind::Value) => true,
            _ => false,
        };
        match context {
            ParseContext::Document => match token {
                TokenKind::DocumentStart => Ok(Production::ExplicitDocument),
                TokenKind::YamlDirective { .. } | TokenKind::TagDirective { .. } | TokenKind::ReservedDirective { .. } =>
                    Ok(Production::DirectiveDocument),
                _ => {
                    if Self::can_start_node(token) {
                        Ok(Production::BareDocument)
                    } else {
                        let mut msg = String::new();
                        push_str(&mut msg, "unexpected token in document context: ");
                        push_str(&mut msg, token.kind_name());
                        Err(ParseError::new(ParseErrorKind::UnexpectedToken, Position::start(), msg.as_str()))
                    }
                },
            },
            ParseContext::FlowIn(_) => match token {
                TokenKind::FlowSequenceStart => Ok(Production::FlowSequence),
                TokenKind::FlowMappingStart => Ok(Production::FlowMapping),
                TokenKind::Scalar { .. } => if followed_by_value { Ok(Production::FlowPair) } else { Ok(Production::PlainScalar) },
                TokenKind::Anchor(_) | TokenKind::Tag { .. } => Ok(Production::Properties),
                TokenKind::Alias(_) => Ok(Production::Node),
                _ => Ok(Production::FlowNode),
            },
            ParseContext::BlockIn(_) => match token {
                TokenKind::BlockEntry => Ok(Production::BlockSequence),
                TokenKind::Key => Ok(Production::BlockMapping),
                TokenKind::Scalar { .. } => if followed_by_value { Ok(Production::BlockPair) } else { Ok(Production::PlainScalar) },
                TokenKind::Anchor(_) | TokenKind::Tag { .. } => Ok(Production::Properties),
                TokenKind::Alias(_) => Ok(Production::Node),
                _ => Ok(Production::BlockNode),
            },
            ParseContext::BlockKey | ParseContext::FlowKey => match token {
                TokenKind::Scalar { .. } => Ok(Production::PlainScalar),
                TokenKind::FlowSequenceStart => Ok(Production::FlowSequence),
                TokenKind::FlowMappingStart => Ok(Production::FlowMapping),
                TokenKind::Anchor(_) | TokenKind::Tag { .. } => Ok(Production::Properties),
                TokenKind::Alias(_) => Ok(Production::Node),
                _ => {
                    let mut msg = String::new();
                    push_str(&mut msg, "unexpected token in key context: ");
                    push_str(&mut msg, token.kind_name());
                    Err(ParseError::new(ParseErrorKind::UnexpectedToken, Position::start(), msg.as_str()))
                },
            },
            ParseContext::BlockValue | ParseContext::FlowValue => match token {
                TokenKind::Scalar { .. } => Ok(Production::PlainScalar),
                TokenKind::FlowSequenceStart => Ok(Production::FlowSequence),
                TokenKind::FlowMappingStart => Ok(Production::FlowMapping),
                TokenKind::BlockEntry => Ok(Production::BlockSequence),
                TokenKind::Anchor(_) | TokenKind::Tag { .. } => Ok(Production::Properties),
                _ => Ok(Production::Node),
            },
        }
    }

    /// Validate scalar style is appropriate for context
    pub fn validate_scalar_style(style: ScalarStyle, context: &ParseContext, value: &str) -> (r: Result<(), ParseError>)
        ensures
            match scalar_style_error(style, *context, value@) {
                None => r is Ok,
                Some(m) => r matches Err(e) && e.kind == ParseErrorKind::UnexpectedToken
                    && e.position == Position::start_spec() && e.message@ == m,
            },
    {
        let in_flow = match context {
            ParseContext::FlowIn(_) | ParseContext::FlowKey | ParseContext::FlowValue => true,
            _ => false,
        };
        match style {
            ScalarStyle::Plain => {
                if in_flow {
                    let v = crate::text::str_to_chars(value);
                    let mut i: usize = 0;
                    while i < v.len()
                        invariant
                            v@ == value@,
                            style == ScalarStyle::Plain,
                            is_flow_context(*context),
                            i <= v@.len(),
                            forall|j: int| 0 <= j < i ==> !(v@[j] == ',' || v@[j] == '[' || v@[j] == ']' || v@[j] == '{' || v@[j] == '}'),
                        decreases v@.len() - i,
                    {
                        let c = v[i];
                        if c == ',' || c == '[' || c == ']' || c == '{' || c == '}' {
                            assert(value@[i as int] == c);
                            return Err(ParseError::new(ParseErrorKind::UnexpectedToken, Position::start(),
                                "plain scalar contains flow indicators in flow context"));
                        }
                        i = i + 1;
                    }
                } else {
                    let n = value.unicode_len();
                    if n > 0 {
                        let c = value.get_char(0);
                        if c == '-' || c == '?' || c == ':' || c == '|' || c == '>' || c == '@' || c == '`' {
                            return Err(ParseError::new(ParseErrorKind::UnexpectedToken, Position::start(),
                                "plain scalar starts with reserved indicator"));
                        }
                    }
                }
            },
            ScalarStyle::SingleQuoted | ScalarStyle::DoubleQuoted => {},
            ScalarStyle::Literal | ScalarStyle::Folded => {
                if in_flow {
                    return Err(ParseError::new(ParseErrorKind::UnexpectedToken, Position::start(),
                        "block scalar not allowed in flow context"));
                }
            },
        }
        Ok(())
    }

    /// Check if context allows simple keys
    pub fn allows_simple_keys(context: &ParseContext) -> (b: bool)
        ensures
            b == (*context is FlowIn || *context is BlockIn),
    {
        match context {
            ParseContext::FlowIn(_) | ParseContext::BlockIn(_) => true,
            _ => false,
        }
    }

    /// Check if context requires explicit key indicators
    pub fn requires_explicit_key(context: &ParseContext) -> (b: bool)
        ensures
            b == (*context is FlowIn),
    {
        match context {
            ParseContext::FlowIn(_) => true,
            _ => false,
        }
    }

    /// Determine next context after parsing a production
    pub fn next_context(current: &ParseContext, production: Production, indent: Option<usize>) -> (c: ParseContext)
        requires
            current matches ParseContext::BlockIn(l) ==> l < usize::MAX,
            current matches ParseContext::FlowIn(l) ==> l < usize::MAX,
        ensures
            c == next_context_spec(*current, production, indent),
    {
        match (current, production) {
            (ParseContext::Document, Production::ExplicitDocument) => ParseContext::BlockIn(0),
            (ParseContext::Document, Production::BareDocument) => ParseContext::BlockIn(0),
            (ParseContext::BlockIn(level), Production::FlowSequence) => ParseContext::FlowIn(*level + 1),
            (ParseContext::BlockIn(level), Production::FlowMapping) => ParseContext::FlowIn(*level + 1),
            (ParseContext::BlockIn(_), Production::BlockSequence) =>
                ParseContext::BlockIn(match indent { Some(n) => n, None => 0 }),
            (ParseContext::BlockIn(_), Production::BlockMapping) =>
                ParseContext::BlockIn(match indent { Some(n) => n, None => 0 }),
            (ParseContext::FlowIn(level), Production::FlowSequence) => ParseContext::FlowIn(*level + 1),
            (ParseContext::FlowIn(level), Production::FlowMapping) => ParseContext::FlowIn(*level + 1),
            (ParseContext::BlockIn(_), Production::BlockKey) => ParseContext::BlockKey,
            (ParseContext::BlockIn(_), Production::BlockValue) => ParseContext::BlockValue,
            (ParseContext::FlowIn(_), Production::FlowPair) => ParseContext::FlowKey,
            _ => *current,
        }
    }

    /// Check if production is valid in current parametric context
    pub fn is_valid_parametric_production(production: &Production, context: &ParametricContext) -> (b: bool)
        requires
            context.indentation.wf(),
        ensures
            b == matches_spec(*production, context.indentation.items().last() as i32, context.current_context),
    {
        production.matches(context.current_indent(), context.current_context)
    }

    /// Get applicable productions for current parametric context
    pub fn applicable_parametric_productions(context: &ParametricContext) -> (v: Vec<Production>)
        requires
            context.indentation.wf(),
        ensures
            v@ == applicable_spec(context.current_context, context.indentation.items().last() as i32),
    {
        let mut productions: Vec<Production> = Vec::new();
        let indent = context.current_indent();
        let c = context.current_context;
        match c {
            YamlContext::BlockOut | YamlContext::BlockIn => {
                productions.push(Production::LBlockSequence(indent));
                productions.push(Production::LBlockMapping(indent));
                productions.push(Production::SIndent(indent));
                productions.push(Production::SBlockLinePrefix(indent));
            },
            YamlContext::FlowOut | YamlContext::FlowIn => {
                productions.push(Production::CFlowSequence(indent, c));
                productions.push(Production::CFlowMapping(indent, c));
                productions.push(Production::SFlowLinePrefix(indent));
            },
            YamlContext::BlockKey | YamlContext::FlowKey => {
                productions.push(Production::NSPlainFirst(c));
                productions.push(Production::NSPlainSafe(c));
            },
        }
        assert(productions@ =~= applicable_spec(c, indent));
        productions
    }

    /// Convert between parametric context and parse context
    pub fn parametric_to_parse_context(parametric: &ParametricContext) -> (c: ParseContext)
        requires
            parametric.indentation.wf(),
        ensures
            c == super::parametric_context::to_parse_context_spec(parametric.current_context,
                parametric.indentation.items().last(), parametric.context_stack@.len()),
    {
        parametric.to_parse_context()
    }

    /// Determine next parametric context after parsing a production
    pub fn next_parametric_context(current: &ParametricContext, production: Production, new_indent: Option<i32>) -> (c: YamlContext)
        ensures
            c == next_parametric_spec(current.current_context, production),
    {
        match (current.current_context, production) {
            (YamlContext::BlockOut, Production::Document) => YamlContext::BlockIn,
            (YamlContext::BlockIn, Production::LBlockSequence(_)) => YamlContext::BlockIn,
            (YamlContext::BlockIn, Production::LBlockMapping(_)) => YamlContext::BlockIn,
            (YamlContext::BlockIn, Production::CFlowSequence(_, _)) => YamlContext::FlowIn,
            (YamlContext::BlockIn, Production::CFlowMapping(_, _)) => YamlContext::FlowIn,
            (YamlContext::FlowIn, Production::CFlowSequence(_, _)) => YamlContext::FlowIn,
            (YamlContext::FlowIn, Production::CFlowMapping(_, _)) => YamlContext::FlowIn,
            (YamlContext::BlockIn, Production::BlockKey) => YamlContext::BlockKey,
            (YamlContext::BlockKey, Production::BlockValue) => YamlContext::BlockIn,
            (YamlContext::FlowIn, Production::FlowPair) => YamlContext::FlowKey,
            (YamlContext::FlowKey, Production::FlowEntry) => YamlContext::FlowIn,
            _ => current.current_context,
        }
    }
}

} // verus!
