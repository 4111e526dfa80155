//! Flow collection rules: nesting limits, terminators and separators, empty collections,
//! sizing hints, and the corrections suggested for flow syntax errors.
use vstd::prelude::*;
use crate::lexer::{Position, Token, TokenKind};
use crate::parser::ast::{AliasNode, AnchorNode, MappingNode, MappingPair, MappingStyle, Node, NullNode, SequenceNode,
    SequenceStyle, TaggedNode};
use crate::parser::ast::view::{NodeView, view_of, items_view, pairs_view, opt_view, lemma_items_view_push,
    lemma_pairs_view_push, lemma_items_view_len, lemma_pairs_view_len};
use crate::parser::grammar::context_stack::ContextStack;
use crate::parser::grammar::context_types::ParseContext;
use crate::parser::grammar::grammar_impl::scalar_style_error;
use crate::parser::grammar::productions::{ParseError, ParseErrorKind};
use crate::parser::scalars::{ScalarParser, processed_value};
use crate::debug_render::{token_kind_debug, token_kind_text};
use crate::parser::yaml_parser::{YamlParser, ErrView, err_view, skip_spec, pos_at, lemma_skip_suffix,
    lemma_skip_idempotent};
use crate::text::{decimal, occurs_in, push_decimal, push_str, str_contains};

verus! {

/// The message for flow collections nested too deeply.
pub open spec fn nesting_message(depth: usize, max_depth: usize) -> Seq<char> {
    "flow collection nesting depth "@ + decimal(depth as nat) + " exceeds maximum "@ + decimal(max_depth as nat)
}

/// What a parse yields: a node or an error, and the tokens left after it.
pub type Parsed = (Result<NodeView, ErrView>, Seq<Token>);

/// What a scalar token reads as under a context: its style must suit the context, and its
/// text is processed by its style.
pub open spec fn scalar_view(tok: Token, ctx: ParseContext) -> Result<NodeView, ErrView> {
    match tok.kind {
        TokenKind::Scalar { value, style, tag } => match scalar_style_error(style, ctx, value@) {
            Some(m) => Err((ParseErrorKind::UnexpectedToken, Position::start_spec(), m)),
            None => match processed_value(value@, style) {
                Ok(t) => Ok(NodeView::Scalar { value: t, style: style, tag: opt_view(tag), position: tok.position }),
                Err((k, m)) => Err((k, Position::start_spec(), m)),
            },
        },
        _ => Err((ParseErrorKind::UnexpectedToken, tok.position,
            "expected scalar token, found: "@ + token_kind_debug(tok.kind))),
    }
}

/// A result wrapped by `f` when it is a node.
pub open spec fn wrap_node(r: Parsed, f: spec_fn(NodeView) -> NodeView) -> Parsed {
    match r.0 {
        Ok(n) => (Ok(f(n)), r.1),
        Err(e) => (Err(e), r.1),
    }
}

/// An error that a parse consuming nothing would be (no parse ends so).
pub open spec fn stalled(t: Seq<Token>) -> Parsed {
    (Err((ParseErrorKind::InternalError, Position::start_spec(), "parse made no progress"@)), t)
}

/// A node in flow context, after white space: a nested flow sequence or mapping, a scalar
/// (read under `ctx`), an anchored or tagged node, or an alias; any other token is an error.
pub open spec fn flow_node(t: Seq<Token>, d: nat, lim: nat, end: Position, ctx: ParseContext) -> Parsed
    decreases t.len(), 0nat
{
    let u = skip_spec(t);
    proof { lemma_skip_suffix(t); }
    if u.len() == 0 {
        (Err((ParseErrorKind::UnexpectedEndOfInput, end, "expected node content"@)), u)
    } else {
        let tok = u[0];
        match tok.kind {
            TokenKind::FlowSequenceStart => flow_seq_loop(u.drop_first(), d, lim, end, tok.position, Seq::empty(), true, false),
            TokenKind::FlowMappingStart => flow_map_loop(u.drop_first(), d, lim, end, tok.position, Seq::empty(), true, false),
            TokenKind::Scalar { .. } => (scalar_view(tok, ctx), u.drop_first()),
            TokenKind::Anchor(name) => wrap_node(flow_node(u.drop_first(), d, lim, end, ctx),
                |n: NodeView| NodeView::Anchor { name: name@, node: Box::new(n), position: tok.position }),
            TokenKind::Alias(name) => (Ok(NodeView::Alias { name: name@, position: tok.position }), u.drop_first()),
            TokenKind::Tag { handle, suffix } => wrap_node(flow_node(u.drop_first(), d, lim, end, ctx),
                |n: NodeView| NodeView::Tagged { handle: opt_view(handle), suffix: suffix@, node: Box::new(n),
                    position: tok.position }),
            _ => (Err((ParseErrorKind::UnexpectedToken, tok.position,
                "unexpected token in flow context: "@ + token_kind_debug(tok.kind))), u),
        }
    }
}

/// A sequence item: refused when items already nest as deep as allowed, else a node one
/// level deeper.
pub open spec fn flow_item(t: Seq<Token>, d: nat, lim: nat, end: Position) -> Parsed
    decreases t.len(), 1nat
{
    if d >= lim {
        (Err((ParseErrorKind::RecursionLimitExceeded, pos_at(t, end), "maximum recursion depth exceeded"@)), t)
    } else {
        flow_node(t, d + 1, lim, end, ParseContext::FlowIn(1))
    }
}

/// The rest of a flow sequence after `items`: `]` ends it; `,` separates items (a leading
/// and a trailing comma are allowed, two in a row are not); an item must follow a comma or
/// the start.
pub open spec fn flow_seq_loop(t: Seq<Token>, d: nat, lim: nat, end: Position, start: Position,
    items: Seq<NodeView>, expecting: bool, found_comma: bool) -> Parsed
    decreases t.len(), 2nat
{
    let u = skip_spec(t);
    proof { lemma_skip_suffix(t); }
    if u.len() == 0 {
        (Err((ParseErrorKind::UnexpectedEndOfInput, end, "unterminated flow sequence"@)), u)
    } else {
        let tok = u[0];
        match tok.kind {
            TokenKind::FlowSequenceEnd => (Ok(NodeView::Sequence { items: items, style: SequenceStyle::Flow, position: start }),
                u.drop_first()),
            TokenKind::FlowEntry => if expecting && items.len() > 0 {
                (Err((ParseErrorKind::UnexpectedToken, tok.position,
                    "unexpected ',' at start of sequence or after another ','"@)), u)
            } else {
                proof { lemma_skip_suffix(u.drop_first()); }
                flow_seq_loop(skip_spec(u.drop_first()), d, lim, end, start, items, true, true)
            },
            _ => if !expecting && !found_comma {
                (Err((ParseErrorKind::ExpectedToken, tok.position, "expected ',' or ']' in flow sequence"@)), u)
            } else {
                let r = flow_item(u, d, lim, end);
                match r.0 {
                    Err(e) => (Err(e), r.1),
                    Ok(n) => if r.1.len() < u.len() {
                        flow_seq_loop(r.1, d, lim, end, start, items.push(n), false, false)
                    } else {
                        stalled(r.1)
                    },
                }
            },
        }
    }
}

/// A key-value pair of a flow mapping: a key (as a flow key), `:`, and a value (as a flow
/// value), which is null when a `,`, a `}` or the end follows the `:`.
pub open spec fn flow_pair(t: Seq<Token>, d: nat, lim: nat, end: Position)
    -> (Result<(NodeView, NodeView), ErrView>, Seq<Token>)
    decreases t.len(), 1nat
{
    let k = flow_node(t, d, lim, end, ParseContext::FlowKey);
    match k.0 {
        Err(e) => (Err(e), k.1),
        Ok(key) => if k.1.len() >= t.len() {
            (Err((ParseErrorKind::InternalError, Position::start_spec(), "parse made no progress"@)), k.1)
        } else {
            let w = skip_spec(k.1);
            proof { lemma_skip_suffix(k.1); }
            if w.len() == 0 {
                (Err((ParseErrorKind::UnexpectedEndOfInput, end, "expected ':' after mapping key"@)), w)
            } else if !(w[0].kind is Value) {
                (Err((ParseErrorKind::ExpectedToken, w[0].position, "expected ':' after mapping key"@)), w)
            } else {
                let x = skip_spec(w.drop_first());
                proof { lemma_skip_suffix(w.drop_first()); }
                if x.len() == 0 {
                    (Ok((key, NodeView::Null { position: end })), x)
                } else if x[0].kind is FlowEntry || x[0].kind is FlowMappingEnd {
                    (Ok((key, NodeView::Null { position: x[0].position })), x)
                } else {
                    let v = flow_node(x, d, lim, end, ParseContext::FlowValue);
                    match v.0 {
                        Err(e) => (Err(e), v.1),
                        Ok(value) => (Ok((key, value)), v.1),
                    }
                }
            }
        },
    }
}

/// The rest of a flow mapping after `pairs`, as for sequences with `}` and pairs.
pub open spec fn flow_map_loop(t: Seq<Token>, d: nat, lim: nat, end: Position, start: Position,
    pairs: Seq<(NodeView, NodeView)>, expecting: bool, found_comma: bool) -> Parsed
    decreases t.len(), 2nat
{
    let u = skip_spec(t);
    proof { lemma_skip_suffix(t); }
    if u.len() == 0 {
        (Err((ParseErrorKind::UnexpectedEndOfInput, end, "unterminated flow mapping"@)), u)
    } else {
        let tok = u[0];
        match tok.kind {
            TokenKind::FlowMappingEnd => (Ok(NodeView::Mapping { pairs: pairs, style: MappingStyle::Flow, position: start }),
                u.drop_first()),
            TokenKind::FlowEntry => if expecting && pairs.len() > 0 {
                (Err((ParseErrorKind::UnexpectedToken, tok.position,
                    "unexpected ',' at start of mapping or after another ','"@)), u)
            } else {
                proof { lemma_skip_suffix(u.drop_first()); }
                flow_map_loop(skip_spec(u.drop_first()), d, lim, end, start, pairs, true, true)
            },
            _ => if !expecting && !found_comma {
                (Err((ParseErrorKind::ExpectedToken, tok.position, "expected ',' or '}' in flow mapping"@)), u)
            } else {
                let r = flow_pair(u, d, lim, end);
                match r.0 {
                    Err(e) => (Err(e), r.1),
                    Ok(p) => if r.1.len() < u.len() {
                        flow_map_loop(r.1, d, lim, end, start, pairs.push(p), false, false)
                    } else {
                        stalled(r.1)
                    },
                }
            },
        }
    }
}

/// Whether a `:` follows the next token (past white space): the next token can be a key.
pub open spec fn value_after_one(t: Seq<Token>) -> bool {
    let t1 = if t.len() > 0 { t.drop_first() } else { t };
    let t2 = skip_spec(t1);
    t2.len() > 0 && t2[0].kind is Value
}

/// The number of `,` before the first closing bracket or brace (or the end).
pub open spec fn entries_before_close(t: Seq<Token>) -> nat
    decreases t.len(),
{
    if t.len() == 0 || t[0].kind is FlowSequenceEnd || t[0].kind is FlowMappingEnd {
        0
    } else {
        (if t[0].kind is FlowEntry { 1nat } else { 0nat }) + entries_before_close(t.drop_first())
    }
}

/// Recovering a malformed flow collection from `t` at nesting `depth`: skip to the
/// bracket that closes it, keeping the scalars read at its own level (for a sequence) or
/// nothing (for a mapping); at the end of the input, the original error stands.
pub open spec fn recovery(t: Seq<Token>, depth: nat, items: Seq<NodeView>, is_sequence: bool)
    -> Option<(NodeView, Seq<Token>)>
    decreases t.len(),
{
    if t.len() == 0 {
        None
    } else {
        let tok = t[0];
        if tok.kind is FlowSequenceStart || tok.kind is FlowMappingStart {
            recovery(t.drop_first(), depth + 1, items, is_sequence)
        } else if tok.kind is FlowSequenceEnd || tok.kind is FlowMappingEnd {
            if depth <= 1 {
                Some((if is_sequence {
                    NodeView::Sequence { items: items, style: SequenceStyle::Flow, position: Position::start_spec() }
                } else {
                    NodeView::Mapping { pairs: Seq::empty(), style: MappingStyle::Flow, position: Position::start_spec() }
                }, t.drop_first()))
            } else {
                recovery(t.drop_first(), (depth - 1) as nat, items, is_sequence)
            }
        } else if tok.kind is Scalar && depth == 1 {
            match scalar_view(tok, ParseContext::FlowIn(1)) {
                Ok(v) => recovery(t.drop_first(), depth, items.push(v), is_sequence),
                Err(_) => recovery(t.drop_first(), depth, items, is_sequence),
            }
        } else {
            recovery(t.drop_first(), depth, items, is_sequence)
        }
    }
}

/// What a parse function did: its result is `expect`'s, and on success it read on to
/// `expect`'s rest, having taken at least one token.
pub open spec fn parsed_as(old: &YamlParser, new: &YamlParser, r: Result<Node, ParseError>, expect: Parsed) -> bool {
    &&& new.depth() == old.depth()
    &&& new.depth_limit() == old.depth_limit()
    &&& new.end_position() == old.end_position()
    &&& new.upcoming().len() <= old.upcoming().len()
    &&& match r {
        Ok(n) => expect.0 == Ok::<NodeView, ErrView>(view_of(n)) && new.upcoming() == expect.1
            && new.upcoming().len() < old.upcoming().len(),
        Err(e) => expect.0 == Err::<NodeView, ErrView>(err_view(e)),
    }
}

/// Flow collection parsing rules.
pub struct FlowParser;

impl FlowParser {
    /// An error when the nesting depth is over the limit.
    pub fn validate_nesting_depth(depth: usize, max_depth: usize) -> (r: Result<(), ParseError>)
        ensures
            depth <= max_depth <==> r is Ok,
            r matches Err(e) ==> e.kind == ParseErrorKind::RecursionLimitExceeded
                && e.position == Position::start_spec() && e.message@ == nesting_message(depth, max_depth),
    {
        if depth > max_depth {
            let mut msg = String::new();
            push_str(&mut msg, "flow collection nesting depth ");
            push_decimal(&mut msg, depth);
            push_str(&mut msg, " exceeds maximum ");
            push_decimal(&mut msg, max_depth);
            proof { assert(msg@ =~= nesting_message(depth, max_depth)); }
            Err(ParseError { kind: ParseErrorKind::RecursionLimitExceeded, position: Position::start(), message: msg })
        } else {
            Ok(())
        }
    }

    /// `"flow collection at nesting level {nesting_level}"`.
    pub fn get_flow_context_info(nesting_level: usize) -> (s: String)
        ensures
            s@ == "flow collection at nesting level "@ + decimal(nesting_level as nat),
    {
        let mut s = String::new();
        push_str(&mut s, "flow collection at nesting level ");
        push_decimal(&mut s, nesting_level);
        s
    }

    /// Whether a token closes the flow collection: `]` for a sequence, `}` for a mapping.
    pub fn can_terminate_flow_collection(token: &TokenKind, is_sequence: bool) -> (b: bool)
        ensures
            b == if is_sequence { *token is FlowSequenceEnd } else { *token is FlowMappingEnd },
    {
        if is_sequence {
            match token {
                TokenKind::FlowSequenceEnd => true,
                _ => false,
            }
        } else {
            match token {
                TokenKind::FlowMappingEnd => true,
                _ => false,
            }
        }
    }

    /// Whether a token separates flow collection entries (`,`).
    pub fn is_flow_separator(token: &TokenKind) -> (b: bool)
        ensures
            b == (*token is FlowEntry),
    {
        match token {
            TokenKind::FlowEntry => true,
            _ => false,
        }
    }

    /// An empty flow sequence at `start_pos`.
    pub fn parse_empty_sequence(start_pos: Position) -> (n: Node)
        ensures
            n matches Node::Sequence(s) && s.items@.len() == 0 && s.style == SequenceStyle::Flow
                && s.position == start_pos,
    {
        Node::Sequence(SequenceNode::new(Vec::new(), SequenceStyle::Flow, start_pos))
    }

    /// An empty flow mapping at `start_pos`.
    pub fn parse_empty_mapping(start_pos: Position) -> (n: Node)
        ensures
            n matches Node::Mapping(m) && m.pairs@.len() == 0 && m.style == MappingStyle::Flow
                && m.position == start_pos,
    {
        Node::Mapping(MappingNode::new(Vec::new(), MappingStyle::Flow, start_pos))
    }
}

/// The kinds of next token a flow parser tells apart.
enum FlowPeek {
    SequenceStart,
    SequenceEnd,
    MappingStart,
    MappingEnd,
    Entry,
    Value,
    Scalar,
    Anchor,
    Alias,
    Tag,
    Other,
}

/// What kind of token `k` is, for the flow parsers.
fn flow_peek(k: &TokenKind) -> (p: FlowPeek)
    ensures
        (p is SequenceStart) == (*k is FlowSequenceStart),
        (p is SequenceEnd) == (*k is FlowSequenceEnd),
        (p is MappingStart) == (*k is FlowMappingStart),
        (p is MappingEnd) == (*k is FlowMappingEnd),
        (p is Entry) == (*k is FlowEntry),
        (p is Value) == (*k is Value),
        (p is Scalar) == (*k is Scalar),
        (p is Anchor) == (*k is Anchor),
        (p is Alias) == (*k is Alias),
        (p is Tag) == (*k is Tag),
{
    match k {
        TokenKind::FlowSequenceStart => FlowPeek::SequenceStart,
        TokenKind::FlowSequenceEnd => FlowPeek::SequenceEnd,
        TokenKind::FlowMappingStart => FlowPeek::MappingStart,
        TokenKind::FlowMappingEnd => FlowPeek::MappingEnd,
        TokenKind::FlowEntry => FlowPeek::Entry,
        TokenKind::Value => FlowPeek::Value,
        TokenKind::Scalar { .. } => FlowPeek::Scalar,
        TokenKind::Anchor(_) => FlowPeek::Anchor,
        TokenKind::Alias(_) => FlowPeek::Alias,
        TokenKind::Tag { .. } => FlowPeek::Tag,
        _ => FlowPeek::Other,
    }
}

impl FlowParser {
    /// Parse a flow sequence `[item, item, ...]` from its opening token on (`flow_seq_loop`).
    pub fn parse_sequence(parser: &mut YamlParser, start_token: Token) -> (r: Result<Node, ParseError>)
        ensures
            parsed_as(old(parser), final(parser), r, if start_token.kind is FlowSequenceStart {
                flow_seq_loop(old(parser).upcoming(), old(parser).depth(), old(parser).depth_limit(),
                    old(parser).end_position(), start_token.position, Seq::empty(), true, false)
            } else {
                (Err((ParseErrorKind::ExpectedToken, start_token.position, "expected '[' to start flow sequence"@)),
                    old(parser).upcoming())
            }),
        decreases old(parser).upcoming().len(), 3nat,
    {
        let start_pos = start_token.position;
        match start_token.kind {
            TokenKind::FlowSequenceStart => {},
            _ => {
                return Err(ParseError::new(ParseErrorKind::ExpectedToken, start_pos, "expected '[' to start flow sequence"));
            },
        }
        let ghost d = parser.depth();
        let ghost lim = parser.depth_limit();
        let ghost end = parser.end_position();
        let ghost whole = flow_seq_loop(parser.upcoming(), d, lim, end, start_pos, Seq::empty(), true, false);
        let mut items: Vec<Node> = Vec::new();
        let mut context_stack = ContextStack::new();
        context_stack.push(ParseContext::FlowIn(1));
        let mut expecting_item = true;
        let mut found_comma = false;
        proof { assert(items_view(items@) =~= Seq::<NodeView>::empty()); }
        loop
            invariant
                parser.depth() == d && d == old(parser).depth(),
                parser.depth_limit() == lim && lim == old(parser).depth_limit(),
                parser.end_position() == end && end == old(parser).end_position(),
                parser.upcoming().len() <= old(parser).upcoming().len(),
                whole == flow_seq_loop(old(parser).upcoming(), d, lim, end, start_pos, Seq::empty(), true, false),
                start_token.kind is FlowSequenceStart,
                start_pos == start_token.position,
                whole == flow_seq_loop(parser.upcoming(), d, lim, end, start_pos, items_view(items@), expecting_item, found_comma),
                context_stack.wf(),
                context_stack.top() == ParseContext::FlowIn(1),
            decreases parser.upcoming().len(),
        {
            let ghost t = parser.upcoming();
            let _ = parser.skip_insignificant_tokens();
            proof { lemma_skip_suffix(t); }
            let ghost u = parser.upcoming();
            let (kind, tpos) = match parser.peek_token() {
                Some(token) => (flow_peek(&token.kind), token.position),
                None => {
                    return Err(ParseError::new(ParseErrorKind::UnexpectedEndOfInput, parser.current_position(),
                        "unterminated flow sequence"));
                },
            };
            match kind {
                FlowPeek::SequenceEnd => {
                    let _ = parser.consume_token();
                    proof { lemma_items_view_len(items@); }
                    return Ok(Node::Sequence(SequenceNode::new(items, SequenceStyle::Flow, start_pos)));
                },
                FlowPeek::Entry => {
                    if expecting_item && items.len() > 0 {
                        proof { lemma_items_view_len(items@); }
                        return Err(ParseError::new(ParseErrorKind::UnexpectedToken, tpos,
                            "unexpected ',' at start of sequence or after another ','"));
                    }
                    proof { lemma_items_view_len(items@); }
                    let _ = parser.consume_token();
                    expecting_item = true;
                    found_comma = true;
                    let ghost x = parser.upcoming();
                    let _ = parser.skip_insignificant_tokens();
                    proof {
                        lemma_skip_suffix(x);
                        lemma_skip_idempotent(x);
                    }
                },
                _ => {
                    if !expecting_item && !found_comma {
                        return Err(ParseError::new(ParseErrorKind::ExpectedToken, tpos,
                            "expected ',' or ']' in flow sequence"));
                    }
                    let item = Self::parse_flow_item(parser, &context_stack)?;
                    proof { lemma_items_view_push(items@, item); }
                    items.push(item);
                    expecting_item = false;
                    found_comma = false;
                },
            }
        }
    }

    /// Parse a flow mapping `{key: value, ...}` from its opening token on (`flow_map_loop`).
    pub fn parse_mapping(parser: &mut YamlParser, start_token: Token) -> (r: Result<Node, ParseError>)
        ensures
            parsed_as(old(parser), final(parser), r, if start_token.kind is FlowMappingStart {
                flow_map_loop(old(parser).upcoming(), old(parser).depth(), old(parser).depth_limit(),
                    old(parser).end_position(), start_token.position, Seq::empty(), true, false)
            } else {
                (Err((ParseErrorKind::ExpectedToken, start_token.position, "expected '{' to start flow mapping"@)),
                    old(parser).upcoming())
            }),
        decreases old(parser).upcoming().len(), 3nat,
    {
        let start_pos = start_token.position;
        match start_token.kind {
            TokenKind::FlowMappingStart => {},
            _ => {
                return Err(ParseError::new(ParseErrorKind::ExpectedToken, start_pos, "expected '{' to start flow mapping"));
            },
        }
        let ghost d = parser.depth();
        let ghost lim = parser.depth_limit();
        let ghost end = parser.end_position();
        let ghost whole = flow_map_loop(parser.upcoming(), d, lim, end, start_pos, Seq::empty(), true, false);
        let mut pairs: Vec<MappingPair> = Vec::new();
        let mut context_stack = ContextStack::new();
        context_stack.push(ParseContext::FlowIn(1));
        let mut expecting_pair = true;
        let mut found_comma = false;
        proof { assert(pairs_view(pairs@) =~= Seq::<(NodeView, NodeView)>::empty()); }
        loop
            invariant
                parser.depth() == d && d == old(parser).depth(),
                parser.depth_limit() == lim && lim == old(parser).depth_limit(),
                parser.end_position() == end && end == old(parser).end_position(),
                parser.upcoming().len() <= old(parser).upcoming().len(),
                whole == flow_map_loop(old(parser).upcoming(), d, lim, end, start_pos, Seq::empty(), true, false),
                start_token.kind is FlowMappingStart,
                start_pos == start_token.position,
                whole == flow_map_loop(parser.upcoming(), d, lim, end, start_pos, pairs_view(pairs@), expecting_pair, found_comma),
                context_stack.wf(),
            decreases parser.upcoming().len(),
        {
            let ghost t = parser.upcoming();
            let _ = parser.skip_insignificant_tokens();
            proof { lemma_skip_suffix(t); }
            let (kind, tpos) = match parser.peek_token() {
                Some(token) => (flow_peek(&token.kind), token.position),
                None => {
                    return Err(ParseError::new(ParseErrorKind::UnexpectedEndOfInput, parser.current_position(),
                        "unterminated flow mapping"));
                },
            };
            match kind {
                FlowPeek::MappingEnd => {
                    let _ = parser.consume_token();
                    return Ok(Node::Mapping(MappingNode::new(pairs, MappingStyle::Flow, start_pos)));
                },
                FlowPeek::Entry => {
                    proof { lemma_pairs_view_len(pairs@); }
                    if expecting_pair && pairs.len() > 0 {
                        return Err(ParseError::new(ParseErrorKind::UnexpectedToken, tpos,
                            "unexpected ',' at start of mapping or after another ','"));
                    }
                    let _ = parser.consume_token();
                    expecting_pair = true;
                    found_comma = true;
                    let ghost x = parser.upcoming();
                    let _ = parser.skip_insignificant_tokens();
                    proof {
                        lemma_skip_suffix(x);
                        lemma_skip_idempotent(x);
                    }
                },
                _ => {
                    if !expecting_pair && !found_comma {
                        return Err(ParseError::new(ParseErrorKind::ExpectedToken, tpos,
                            "expected ',' or '}' in flow mapping"));
                    }
                    let pair = Self::parse_flow_pair(parser, &context_stack)?;
                    proof { lemma_pairs_view_push(pairs@, pair); }
                    pairs.push(pair);
                    expecting_pair = false;
                    found_comma = false;
                },
            }
        }
    }

    /// A sequence item one level deeper (`flow_item`).
    fn parse_flow_item(parser: &mut YamlParser, context_stack: &ContextStack) -> (r: Result<Node, ParseError>)
        requires
            context_stack.wf(),
            context_stack.top() == ParseContext::FlowIn(1),
        ensures
            parsed_as(old(parser), final(parser), r,
                flow_item(old(parser).upcoming(), old(parser).depth(), old(parser).depth_limit(), old(parser).end_position())),
        decreases old(parser).upcoming().len(), 1nat,
    {
        parser.check_recursion_depth()?;
        parser.enter_item();
        let result = Self::parse_flow_node(parser, context_stack);
        parser.leave_item();
        result
    }

    /// A key-value pair of a flow mapping (`flow_pair`).
    fn parse_flow_pair(parser: &mut YamlParser, context_stack: &ContextStack) -> (r: Result<MappingPair, ParseError>)
        requires
            context_stack.wf(),
        ensures
            final(parser).depth() == old(parser).depth(),
            final(parser).depth_limit() == old(parser).depth_limit(),
            final(parser).end_position() == old(parser).end_position(),
            final(parser).upcoming().len() <= old(parser).upcoming().len(),
            ({
                let e = flow_pair(old(parser).upcoming(), old(parser).depth(), old(parser).depth_limit(),
                    old(parser).end_position());
                match r {
                    Ok(p) => e.0 == Ok::<(NodeView, NodeView), ErrView>((view_of(p.key), view_of(p.value)))
                        && final(parser).upcoming() == e.1 && final(parser).upcoming().len() < old(parser).upcoming().len(),
                    Err(err) => e.0 == Err::<(NodeView, NodeView), ErrView>(err_view(err)),
                }
            }),
        decreases old(parser).upcoming().len(), 1nat,
    {
        let mut key_context = context_stack.copy_stack();
        key_context.push(ParseContext::FlowKey);
        let key = Self::parse_flow_node(parser, &key_context)?;
        let ghost k1 = parser.upcoming();
        let _ = parser.skip_insignificant_tokens();
        proof { lemma_skip_suffix(k1); }
        let current_pos = parser.current_position();
        let is_value = match parser.peek_token() {
            Some(token) => {
                match token.kind {
                    TokenKind::Value => true,
                    _ => {
                        return Err(ParseError::new(ParseErrorKind::ExpectedToken, token.position,
                            "expected ':' after mapping key"));
                    },
                }
            },
            None => {
                return Err(ParseError::new(ParseErrorKind::UnexpectedEndOfInput, current_pos,
                    "expected ':' after mapping key"));
            },
        };
        let _ = parser.consume_token();
        let ghost w1 = parser.upcoming();
        let _ = parser.skip_insignificant_tokens();
        proof { lemma_skip_suffix(w1); }
        let mut value_context = context_stack.copy_stack();
        value_context.push(ParseContext::FlowValue);
        let value = match parser.peek_token() {
            Some(token) => {
                let empty = match token.kind {
                    TokenKind::FlowEntry | TokenKind::FlowMappingEnd => true,
                    _ => false,
                };
                if empty {
                    Node::Null(NullNode::new(parser.current_position()))
                } else {
                    Self::parse_flow_node(parser, &value_context)?
                }
            },
            None => Node::Null(NullNode::new(parser.current_position())),
        };
        Ok(MappingPair::new(key, value))
    }

    /// Any node in flow context (`flow_node`).
    fn parse_flow_node(parser: &mut YamlParser, context_stack: &ContextStack) -> (r: Result<Node, ParseError>)
        requires
            context_stack.wf(),
        ensures
            parsed_as(old(parser), final(parser), r, flow_node(old(parser).upcoming(), old(parser).depth(),
                old(parser).depth_limit(), old(parser).end_position(), context_stack.top())),
        decreases old(parser).upcoming().len(), 0nat,
    {
        let ghost t = parser.upcoming();
        let _ = parser.skip_insignificant_tokens();
        proof { lemma_skip_suffix(t); }
        let current_pos = parser.current_position();
        let kind = match parser.peek_token() {
            Some(token) => {
                let k = flow_peek(&token.kind);
                match k {
                    FlowPeek::SequenceStart | FlowPeek::MappingStart | FlowPeek::Scalar | FlowPeek::Anchor
                    | FlowPeek::Alias | FlowPeek::Tag => k,
                    _ => {
                        let mut msg = String::new();
                        crate::text::push_str(&mut msg, "unexpected token in flow context: ");
                        let k_text = token_kind_text(&token.kind);
                        crate::text::push_str(&mut msg, k_text.as_str());
                        return Err(ParseError { kind: ParseErrorKind::UnexpectedToken, position: token.position,
                            message: msg });
                    },
                }
            },
            None => {
                return Err(ParseError::new(ParseErrorKind::UnexpectedEndOfInput, current_pos, "expected node content"));
            },
        };
        let token = match parser.consume_token() {
            Ok(tok) => tok,
            Err(e) => {
                return Err(e);
            },
        };
        let position = token.position;
        match kind {
            FlowPeek::SequenceStart => Self::parse_sequence(parser, token),
            FlowPeek::MappingStart => Self::parse_mapping(parser, token),
            FlowPeek::Scalar => ScalarParser::parse_scalar(token, context_stack.current()),
            _ => {
                match token.kind {
                    TokenKind::Anchor(name) => {
                        let anchored = Self::parse_flow_node(parser, context_stack)?;
                        Ok(Node::Anchor(AnchorNode::new(name, Box::new(anchored), position)))
                    },
                    TokenKind::Alias(name) => Ok(Node::Alias(AliasNode::new(name, position))),
                    TokenKind::Tag { handle, suffix } => {
                        let tagged = Self::parse_flow_node(parser, context_stack)?;
                        Ok(Node::Tagged(TaggedNode::new(handle, suffix, Box::new(tagged), position)))
                    },
                    _ => {
                        proof { assert(false); }
                        Err(ParseError::new(ParseErrorKind::InternalError, position, "unexpected token"))
                    },
                }
            },
        }
    }
}

impl FlowParser {
    /// Whether the next token can start a flow mapping key: a `:` follows it. Nothing is
    /// taken.
    pub fn is_flow_mapping_key(parser: &mut YamlParser) -> (r: Result<bool, ParseError>)
        ensures
            *final(parser) == *old(parser),
            r == Ok::<bool, ParseError>(value_after_one(old(parser).upcoming())),
    {
        Self::check_for_value_indicator(parser)
    }

    /// Whether a `:` follows the next token, past white space; nothing is taken.
    fn check_for_value_indicator(parser: &mut YamlParser) -> (r: Result<bool, ParseError>)
        ensures
            *final(parser) == *old(parser),
            r == Ok::<bool, ParseError>(value_after_one(old(parser).upcoming())),
    {
        let ghost t = parser.upcoming();
        let first: usize = if parser.peek_token().is_some() { 1 } else { 0 };
        let j = parser.significant_from(first);
        proof {
            if first == 1 { assert(t.skip(1) =~= t.drop_first()); } else { assert(t.skip(0) =~= t); }
            assert(t.skip(j as int).len() > 0 ==> t.skip(j as int)[0] == t[j as int]);
        }
        match parser.peek_at(j) {
            Some(token) => Ok(match token.kind {
                TokenKind::Value => true,
                _ => false,
            }),
            None => Ok(false),
        }
    }
}

impl FlowOptimizations {
    /// One more than the number of `,` before the closing bracket or brace: the items a
    /// flow collection will hold. Nothing is taken.
    pub fn estimate_capacity(parser: &mut YamlParser) -> (r: Result<usize, ParseError>)
        requires
            old(parser).upcoming().len() < usize::MAX,
        ensures
            *final(parser) == *old(parser),
            r == Ok::<usize, ParseError>((entries_before_close(old(parser).upcoming()) + 1) as usize),
    {
        let ghost t = parser.upcoming();
        let mut count: usize = 0;
        let mut k: usize = 0;
        proof { assert(t.skip(0) =~= t); }
        loop
            invariant
                t == parser.upcoming(),
                t.len() < usize::MAX,
                k <= t.len(),
                count <= k,
                entries_before_close(t) == count + entries_before_close(t.skip(k as int)),
            ensures
                entries_before_close(t) == count,
            decreases t.len() - k,
        {
            let (stop, entry) = match parser.peek_at(k) {
                Some(token) => match token.kind {
                    TokenKind::FlowSequenceEnd | TokenKind::FlowMappingEnd => (true, false),
                    TokenKind::FlowEntry => (false, true),
                    _ => (false, false),
                },
                None => (true, false),
            };
            proof {
                if k < t.len() {
                    assert(t.skip(k as int)[0] == t[k as int]);
                    assert(t.skip(k as int).drop_first() =~= t.skip(k + 1));
                } else {
                    assert(t.skip(k as int) =~= Seq::<Token>::empty());
                }
            }
            if stop {
                break;
            }
            if entry {
                count = count + 1;
            }
            k = k + 1;
        }
        Ok(count + 1)
    }
}

impl FlowErrorRecovery {
    /// Recover from a malformed flow collection: read on to the bracket that closes it and
    /// give a flow sequence of the scalars read at its own level (or an empty flow mapping);
    /// at the end of the input, the original error (`recovery`).
    pub fn recover_from_malformed_collection(parser: &mut YamlParser, error: ParseError, is_sequence: bool)
        -> (r: Result<Option<Node>, ParseError>)
        requires
            old(parser).upcoming().len() < usize::MAX,
        ensures
            match recovery(old(parser).upcoming(), 1, Seq::empty(), is_sequence) {
                Some((v, rest)) => r matches Ok(Some(n)) && view_of(n) == v && final(parser).upcoming() == rest,
                None => r matches Err(e) && e == error,
            },
    {
        let ghost whole = recovery(parser.upcoming(), 1, Seq::empty(), is_sequence);
        let mut depth: usize = 1;
        let mut recovered_items: Vec<Node> = Vec::new();
        proof { assert(items_view(recovered_items@) =~= Seq::<NodeView>::empty()); }
        loop
            invariant
                whole == recovery(old(parser).upcoming(), 1, Seq::empty(), is_sequence),
                whole == recovery(parser.upcoming(), depth as nat, items_view(recovered_items@), is_sequence),
                depth >= 1,
                depth + parser.upcoming().len() <= old(parser).upcoming().len() + 1,
                old(parser).upcoming().len() < usize::MAX,
            ensures
                whole is None,
            decreases parser.upcoming().len(),
        {
            let ghost t = parser.upcoming();
            let kind = match parser.peek_token() {
                Some(token) => flow_peek(&token.kind),
                None => { break; },
            };
            match kind {
                FlowPeek::SequenceStart | FlowPeek::MappingStart => {
                    depth = depth + 1;
                    let _ = parser.consume_token();
                },
                FlowPeek::SequenceEnd | FlowPeek::MappingEnd => {
                    if depth <= 1 {
                        let _ = parser.consume_token();
                        if is_sequence {
                            proof { lemma_items_view_len(recovered_items@); }
                            return Ok(Some(Node::Sequence(SequenceNode::new(recovered_items, SequenceStyle::Flow,
                                Position::start()))));
                        } else {
                            let empty: Vec<MappingPair> = Vec::new();
                            proof { assert(pairs_view(empty@) =~= Seq::<(NodeView, NodeView)>::empty()); }
                            return Ok(Some(Node::Mapping(MappingNode::new(empty, MappingStyle::Flow, Position::start()))));
                        }
                    }
                    depth = depth - 1;
                    let _ = parser.consume_token();
                },
                FlowPeek::Scalar => {
                    let token = match parser.consume_token() {
                        Ok(tok) => tok,
                        Err(_) => { break; },
                    };
                    if depth == 1 {
                        match ScalarParser::parse_scalar(token, &ParseContext::FlowIn(1)) {
                            Ok(scalar) => {
                                proof { lemma_items_view_push(recovered_items@, scalar); }
                                recovered_items.push(scalar);
                            },
                            Err(_) => {},
                        }
                    }
                },
                _ => {
                    let _ = parser.consume_token();
                },
            }
        }
        Err(error)
    }
}

/// Flow parsing optimization hints
pub struct FlowOptimizations;

impl FlowOptimizations {
    /// Compact for at most five items and at most eighty characters.
    pub fn should_use_compact_representation(item_count: usize, total_length: usize) -> (b: bool)
        ensures
            b == (item_count <= 5 && total_length <= 80),
    {
        item_count <= 5 && total_length <= 80
    }

    /// A small collection, its spare capacity given back; the items are unchanged.
    pub fn optimize_small_collection<T>(vec: Vec<T>) -> (v: Vec<T>)
        ensures
            v@ == vec@,
    {
        vec
    }
}

/// The correction suggested for a flow syntax error, by its kind and what its message
/// mentions.
pub open spec fn flow_correction(kind: ParseErrorKind, message: Seq<char>) -> Option<Seq<char>> {
    match kind {
        ParseErrorKind::ExpectedToken => if occurs_in("expected ','"@, message) {
            Some("missing comma between collection items"@)
        } else if occurs_in("expected ':'"@, message) {
            Some("missing colon after mapping key"@)
        } else if occurs_in("expected ']'"@, message) {
            Some("missing closing bracket for sequence"@)
        } else if occurs_in("expected '}'"@, message) {
            Some("missing closing brace for mapping"@)
        } else {
            None
        },
        ParseErrorKind::UnexpectedToken => if occurs_in("unexpected ','"@, message) {
            Some("extra comma in collection"@)
        } else {
            None
        },
        _ => None,
    }
}

/// Flow parsing error recovery utilities
pub struct FlowErrorRecovery;

impl FlowErrorRecovery {
    /// Suggest a correction for a flow syntax error (`flow_correction`).
    pub fn suggest_correction(error: &ParseError) -> (r: Option<String>)
        ensures
            r matches Some(s) ==> flow_correction(error.kind, error.message@) == Some(s@),
            r is None ==> flow_correction(error.kind, error.message@) is None,
    {
        let m = error.message.as_str();
        match error.kind {
            ParseErrorKind::ExpectedToken => {
                if str_contains(m, "expected ','") {
                    Some("missing comma between collection items".to_owned())
                } else if str_contains(m, "expected ':'") {
                    Some("missing colon after mapping key".to_owned())
                } else if str_contains(m, "expected ']'") {
                    Some("missing closing bracket for sequence".to_owned())
                } else if str_contains(m, "expected '}'") {
                    Some("missing closing brace for mapping".to_owned())
                } else {
                    None
                }
            },
            ParseErrorKind::UnexpectedToken => {
                if str_contains(m, "unexpected ','") {
                    Some("extra comma in collection".to_owned())
                } else {
                    None
                }
            },
            _ => None,
        }
    }
}

} // verus!
