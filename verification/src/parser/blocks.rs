//! Block structure rules: indentation checks and requirements, sizing hints, and the
//! fixes suggested for block syntax errors.
use vstd::prelude::*;
use crate::lexer::{Position, Token, TokenKind};
use crate::parser::ast::{AliasNode, AnchorNode, MappingNode, MappingPair, MappingStyle, Node, NullNode, SequenceNode,
    SequenceStyle, TaggedNode};
use crate::parser::ast::view::{NodeView, view_of, items_view, pairs_view, opt_view, lemma_items_view_push,
    lemma_pairs_view_push, lemma_items_view_len, lemma_pairs_view_len};
use crate::parser::flows::{FlowParser, Parsed, wrap_node, stalled, scalar_view, flow_seq_loop, flow_map_loop,
    value_after_one, parsed_as};
use crate::parser::grammar::context_stack::ContextStack;
use crate::parser::grammar::context_types::ParseContext;
use crate::parser::grammar::productions::{ParseError, ParseErrorKind};
use crate::parser::scalars::ScalarParser;
use crate::debug_render::{token_kind_debug, token_kind_text};
use crate::parser::yaml_parser::{YamlParser, ErrView, err_view, skip_spec, pos_at, lemma_skip_suffix,
    lemma_skip_idempotent};
use crate::text::{decimal, occurs_in, push_decimal, push_str, str_contains};

verus! {

/// The message for a block indented less than expected.
pub open spec fn indentation_message(context: Seq<char>, expected: usize, current: usize) -> Seq<char> {
    "invalid indentation in "@ + context + ": expected at least "@ + decimal(expected as nat) + ", got "@
        + decimal(current as nat)
}

/// Whether `p` is a power of two.
pub open spec fn is_power_of_two(p: nat) -> bool
    decreases p,
{
    if p == 1 {
        true
    } else if p == 0 || p % 2 == 1 {
        false
    } else {
        is_power_of_two(p / 2)
    }
}

/// The message for a node indented less than required.
pub open spec fn insufficient_indent_message(min: usize, got: usize) -> Seq<char> {
    "insufficient indentation: expected at least "@ + decimal(min as nat) + ", got "@ + decimal(got as nat)
}

/// A node in block context, after white space, indented at least `min`: a flow sequence
/// or mapping, a scalar, an anchored or tagged node, or an alias; anything else is an error.
pub open spec fn block_node(t: Seq<Token>, d: nat, lim: nat, end: Position, min: usize) -> Parsed
    decreases t.len(),
{
    let u = skip_spec(t);
    proof { lemma_skip_suffix(t); }
    if u.len() == 0 {
        (Err((ParseErrorKind::UnexpectedEndOfInput, end, "expected node content"@)), u)
    } else if u[0].position.column < min {
        (Err((ParseErrorKind::UnexpectedToken, u[0].position, insufficient_indent_message(min, u[0].position.column))), u)
    } else {
        let tok = u[0];
        match tok.kind {
            TokenKind::FlowSequenceStart => flow_seq_loop(u.drop_first(), d, lim, end, tok.position, Seq::empty(), true, false),
            TokenKind::FlowMappingStart => flow_map_loop(u.drop_first(), d, lim, end, tok.position, Seq::empty(), true, false),
            TokenKind::Scalar { .. } => (scalar_view(tok, ParseContext::BlockIn(min)), u.drop_first()),
            TokenKind::Anchor(name) => wrap_node(block_node(u.drop_first(), d, lim, end, min),
                |n: NodeView| NodeView::Anchor { name: name@, node: Box::new(n), position: tok.position }),
            TokenKind::Alias(name) => (Ok(NodeView::Alias { name: name@, position: tok.position }), u.drop_first()),
            TokenKind::Tag { handle, suffix } => wrap_node(block_node(u.drop_first(), d, lim, end, min),
                |n: NodeView| NodeView::Tagged { handle: opt_view(handle), suffix: suffix@, node: Box::new(n),
                    position: tok.position }),
            _ => (Err((ParseErrorKind::UnexpectedToken, tok.position,
                "unexpected token in block context: "@ + token_kind_debug(tok.kind))), u),
        }
    }
}

/// Whether a token stands where the next entry of a sequence indented `ind` does.
pub open spec fn at_entry(tok: Token, ind: usize) -> bool {
    tok.kind is BlockEntry && tok.position.column == ind + 1
}

/// The items of a block sequence after `items`, the current `-` taken: an item that is
/// absent (another `-` at the sequence's indentation, a token indented no deeper than the
/// sequence, or the end) is null at the sequence's start; another `-` at the sequence's
/// indentation goes on to the next item.
pub open spec fn block_seq_loop(t: Seq<Token>, d: nat, lim: nat, end: Position, start: Position, ind: usize,
    items: Seq<NodeView>) -> Parsed
    decreases t.len(),
{
    let u = skip_spec(t);
    proof { lemma_skip_suffix(t); }
    let item: Parsed = if u.len() > 0 && !at_entry(u[0], ind) && u[0].position.column > ind {
        block_node(u, d, lim, end, 0)
    } else {
        (Ok(NodeView::Null { position: start }), u)
    };
    match item.0 {
        Err(e) => (Err(e), item.1),
        Ok(n) => {
            let v = skip_spec(item.1);
            proof { lemma_skip_suffix(item.1); }
            if v.len() > 0 && at_entry(v[0], ind) {
                if v.len() <= t.len() {
                    block_seq_loop(v.drop_first(), d, lim, end, start, ind, items.push(n))
                } else {
                    stalled(v)
                }
            } else {
                (Ok(NodeView::Sequence { items: items.push(n), style: SequenceStyle::Block, position: start }), v)
            }
        },
    }
}

/// A block mapping pair from its key token: the key must be a scalar (read as a block key),
/// then `:`, then the value, which is null before a `-`, a document end, the stream end or
/// the end of the input.
pub open spec fn block_pair(key: Token, t: Seq<Token>, d: nat, lim: nat, end: Position)
    -> (Result<(NodeView, NodeView), ErrView>, Seq<Token>)
{
    let k: Result<NodeView, ErrView> = if key.kind is Scalar {
        scalar_view(key, ParseContext::BlockKey)
    } else {
        Err((ParseErrorKind::UnexpectedToken, key.position,
            "unexpected token for mapping key: "@ + token_kind_debug(key.kind)))
    };
    match k {
        Err(e) => (Err(e), t),
        Ok(kv) => {
            let w = skip_spec(t);
            if w.len() == 0 {
                (Err((ParseErrorKind::UnexpectedEndOfInput, end, "expected ':' after mapping key"@)), w)
            } else if !(w[0].kind is Value) {
                (Err((ParseErrorKind::ExpectedToken, w[0].position, "expected ':' after mapping key"@)), w)
            } else {
                let x = skip_spec(w.drop_first());
                if x.len() == 0 {
                    (Ok((kv, NodeView::Null { position: end })), x)
                } else if x[0].kind is BlockEntry || x[0].kind is DocumentEnd || x[0].kind is StreamEnd {
                    (Ok((kv, NodeView::Null { position: x[0].position })), x)
                } else {
                    let v = block_node(x, d, lim, end, 0);
                    match v.0 {
                        Err(e) => (Err(e), v.1),
                        Ok(vv) => (Ok((kv, vv)), v.1),
                    }
                }
            }
        },
    }
}

/// Whether the next token can be another key of a mapping indented `ind`: indented at
/// least that much and followed by `:`.
pub open spec fn potential_key(u: Seq<Token>, ind: usize) -> bool {
    u.len() > 0 && u[0].position.column >= ind && value_after_one(u)
}

/// The pairs of a block mapping after `pairs`: each further key indented enough and
/// followed by `:` starts another pair.
pub open spec fn block_map_loop(t: Seq<Token>, d: nat, lim: nat, end: Position, start: Position, ind: usize,
    pairs: Seq<(NodeView, NodeView)>) -> Parsed
    decreases t.len(),
{
    let u = skip_spec(t);
    proof { lemma_skip_suffix(t); }
    if potential_key(u, ind) {
        let p = block_pair(u[0], u.drop_first(), d, lim, end);
        match p.0 {
            Err(e) => (Err(e), p.1),
            Ok(pv) => if p.1.len() < t.len() {
                block_map_loop(p.1, d, lim, end, start, ind, pairs.push(pv))
            } else {
                stalled(p.1)
            },
        }
    } else {
        (Ok(NodeView::Mapping { pairs: pairs, style: MappingStyle::Block, position: start }), u)
    }
}

/// A column less one, and zero for column zero.
pub open spec fn indent_of_column(c: usize) -> usize {
    if c >= 1 { (c - 1) as usize } else { 0 }
}

/// Where recovery from an indentation error stops: at the first token at the expected
/// indentation that starts a sequence entry or a mapping key; none when the input ends first.
pub open spec fn recovery_point(t: Seq<Token>, ind: usize) -> Option<Seq<Token>>
    decreases t.len(),
{
    if t.len() == 0 {
        None
    } else if t[0].position.column == ind && (t[0].kind is BlockEntry || (t[0].kind is Scalar && potential_key(t, ind))) {
        Some(t)
    } else {
        recovery_point(t.drop_first(), ind)
    }
}

/// What a block collection parse did: its result is `expect`'s, and on success it read on
/// to `expect`'s rest.
pub open spec fn parsed_to(old: &YamlParser, new: &YamlParser, r: Result<Node, ParseError>, expect: Parsed) -> bool {
    &&& new.depth() == old.depth()
    &&& new.depth_limit() == old.depth_limit()
    &&& new.end_position() == old.end_position()
    &&& new.upcoming().len() <= old.upcoming().len()
    &&& match r {
        Ok(n) => expect.0 == Ok::<NodeView, ErrView>(view_of(n)) && new.upcoming() == expect.1,
        Err(e) => expect.0 == Err::<NodeView, ErrView>(err_view(e)),
    }
}

/// Block collection parsing rules.
pub struct BlockParser;

impl BlockParser {
    /// Whether a token at `position` stands at a sequence's indentation.
    pub fn is_at_sequence_indent(position: Position, sequence_indent: usize) -> (b: bool)
        ensures
            b == (position.column == sequence_indent + 1),
    {
        sequence_indent < usize::MAX && position.column == sequence_indent + 1
    }

    /// Whether a token at `position` continues a sequence indented at `sequence_indent`.
    pub fn is_continuation_of_sequence(position: Position, sequence_indent: usize) -> (b: bool)
        ensures
            b == (position.column > sequence_indent),
    {
        position.column > sequence_indent
    }

    /// An error when the indentation is below the expected one.
    pub fn validate_indentation(current_indent: usize, expected_indent: usize, context: &str) -> (r: Result<(), ParseError>)
        ensures
            current_indent >= expected_indent <==> r is Ok,
            r matches Err(e) ==> e.kind == ParseErrorKind::UnexpectedToken && e.position == Position::start_spec()
                && e.message@ == indentation_message(context@, expected_indent, current_indent),
    {
        if current_indent < expected_indent {
            let mut msg = String::new();
            push_str(&mut msg, "invalid indentation in ");
            push_str(&mut msg, context);
            push_str(&mut msg, ": expected at least ");
            push_decimal(&mut msg, expected_indent);
            push_str(&mut msg, ", got ");
            push_decimal(&mut msg, current_indent);
            proof { assert(msg@ =~= indentation_message(context@, expected_indent, current_indent)); }
            Err(ParseError { kind: ParseErrorKind::UnexpectedToken, position: Position::start(), message: msg })
        } else {
            Ok(())
        }
    }

    /// The indentation of a structure nested `nesting_level` levels below `parent_indent`,
    /// two columns a level.
    pub fn calculate_nested_indent(parent_indent: usize, nesting_level: usize) -> (n: usize)
        requires
            parent_indent + nesting_level * 2 <= usize::MAX,
        ensures
            n == parent_indent + nesting_level * 2,
    {
        parent_indent + (nesting_level * 2)
    }

    /// `"{structure_type} at indentation level {indent_level}"`.
    pub fn get_block_context_info(indent_level: usize, structure_type: &str) -> (s: String)
        ensures
            s@ == structure_type@ + " at indentation level "@ + decimal(indent_level as nat),
    {
        let mut s = String::new();
        push_str(&mut s, structure_type);
        push_str(&mut s, " at indentation level ");
        push_decimal(&mut s, indent_level);
        s
    }
}

/// The kinds of next token the block parsers tell apart.
enum BlockPeek {
    SequenceStart,
    MappingStart,
    Scalar,
    Anchor,
    Alias,
    Tag,
    Other,
}

fn block_peek(k: &TokenKind) -> (p: BlockPeek)
    ensures
        (p is SequenceStart) == (*k is FlowSequenceStart),
        (p is MappingStart) == (*k is FlowMappingStart),
        (p is Scalar) == (*k is Scalar),
        (p is Anchor) == (*k is Anchor),
        (p is Alias) == (*k is Alias),
        (p is Tag) == (*k is Tag),
{
    match k {
        TokenKind::FlowSequenceStart => BlockPeek::SequenceStart,
        TokenKind::FlowMappingStart => BlockPeek::MappingStart,
        TokenKind::Scalar { .. } => BlockPeek::Scalar,
        TokenKind::Anchor(_) => BlockPeek::Anchor,
        TokenKind::Alias(_) => BlockPeek::Alias,
        TokenKind::Tag { .. } => BlockPeek::Tag,
        _ => BlockPeek::Other,
    }
}

impl BlockParser {
    /// Parse a block sequence from its first `-` on, items parsed as block nodes.
    pub fn parse_sequence(parser: &mut YamlParser, start_token: Token, base_indent: usize) -> (r: Result<Node, ParseError>)
        ensures
            parsed_to(old(parser), final(parser), r, if start_token.kind is BlockEntry {
                block_seq_loop(old(parser).upcoming(), old(parser).depth(), old(parser).depth_limit(),
                    old(parser).end_position(), start_token.position, indent_of_column(start_token.position.column),
                    Seq::empty())
            } else {
                (Err((ParseErrorKind::ExpectedToken, start_token.position, "expected '-' to start block sequence"@)),
                    old(parser).upcoming())
            }),
    {
        Self::parse_sequence_with_context(parser, start_token, base_indent)
    }

    /// Parse a block sequence from its first `-` on (`block_seq_loop`): the sequence's
    /// indentation is that of its `-`.
    pub fn parse_sequence_with_context(parser: &mut YamlParser, start_token: Token, _base_indent: usize)
        -> (r: Result<Node, ParseError>)
        ensures
            parsed_to(old(parser), final(parser), r, if start_token.kind is BlockEntry {
                block_seq_loop(old(parser).upcoming(), old(parser).depth(), old(parser).depth_limit(),
                    old(parser).end_position(), start_token.position, indent_of_column(start_token.position.column),
                    Seq::empty())
            } else {
                (Err((ParseErrorKind::ExpectedToken, start_token.position, "expected '-' to start block sequence"@)),
                    old(parser).upcoming())
            }),
    {
        let start_pos = start_token.position;
        match start_token.kind {
            TokenKind::BlockEntry => {},
            _ => {
                return Err(ParseError::new(ParseErrorKind::ExpectedToken, start_pos, "expected '-' to start block sequence"));
            },
        }
        let ghost d = parser.depth();
        let ghost lim = parser.depth_limit();
        let ghost end = parser.end_position();
        let sequence_indent: usize = if start_pos.column >= 1 { start_pos.column - 1 } else { 0 };
        let ghost whole = block_seq_loop(parser.upcoming(), d, lim, end, start_pos, sequence_indent, Seq::empty());
        let mut items: Vec<Node> = Vec::new();
        proof { assert(items_view(items@) =~= Seq::<NodeView>::empty()); }
        loop
            invariant
                parser.depth() == d && d == old(parser).depth(),
                parser.depth_limit() == lim && lim == old(parser).depth_limit(),
                parser.end_position() == end && end == old(parser).end_position(),
                parser.upcoming().len() <= old(parser).upcoming().len(),
                start_token.kind is BlockEntry,
                start_pos == start_token.position,
                sequence_indent == indent_of_column(start_pos.column),
                whole == block_seq_loop(old(parser).upcoming(), d, lim, end, start_pos, sequence_indent, Seq::empty()),
                whole == block_seq_loop(parser.upcoming(), d, lim, end, start_pos, sequence_indent, items_view(items@)),
            decreases parser.upcoming().len(),
        {
            let ghost t = parser.upcoming();
            let _ = parser.skip_insignificant_tokens();
            proof { lemma_skip_suffix(t); }
            let parse_item = match parser.peek_token() {
                Some(token) => {
                    let entry = match token.kind {
                        TokenKind::BlockEntry => Self::is_at_sequence_indent(token.position, sequence_indent),
                        _ => false,
                    };
                    !entry && Self::is_continuation_of_sequence(token.position, sequence_indent)
                },
                None => false,
            };
            let item = if parse_item {
                let stack = ContextStack::new();
                Self::parse_context_node(parser, &stack, 0)?
            } else {
                Node::Null(NullNode::new(start_pos))
            };
            proof { lemma_items_view_push(items@, item); }
            items.push(item);
            let ghost after = parser.upcoming();
            let _ = parser.skip_insignificant_tokens();
            proof { lemma_skip_suffix(after); }
            let next_entry = match parser.peek_token() {
                Some(token) => match token.kind {
                    TokenKind::BlockEntry => Self::is_at_sequence_indent(token.position, sequence_indent),
                    _ => false,
                },
                None => false,
            };
            if next_entry {
                let _ = parser.consume_token();
            } else {
                return Ok(Node::Sequence(SequenceNode::new(items, SequenceStyle::Block, start_pos)));
            }
        }
    }

    /// Parse a block mapping from its first key token on (`block_pair`, then
    /// `block_map_loop`): the mapping's indentation is that of its first key.
    pub fn parse_mapping_with_context(parser: &mut YamlParser, first_key_token: Token, _base_indent: usize)
        -> (r: Result<Node, ParseError>)
        ensures
            parsed_to(old(parser), final(parser), r, {
                let p = block_pair(first_key_token, old(parser).upcoming(), old(parser).depth(),
                    old(parser).depth_limit(), old(parser).end_position());
                match p.0 {
                    Err(pe) => (Err(pe), p.1),
                    Ok(pv) => block_map_loop(p.1, old(parser).depth(), old(parser).depth_limit(),
                        old(parser).end_position(), first_key_token.position,
                        indent_of_column(first_key_token.position.column), seq![pv]),
                }
            }),
    {
        let start_pos = first_key_token.position;
        let mapping_indent: usize = if start_pos.column >= 1 { start_pos.column - 1 } else { 0 };
        let ghost d = parser.depth();
        let ghost lim = parser.depth_limit();
        let ghost end = parser.end_position();
        let first_pair = Self::parse_mapping_pair_with_context(parser, first_key_token)?;
        let mut pairs: Vec<MappingPair> = Vec::new();
        proof {
            lemma_pairs_view_push(pairs@, first_pair);
            assert(pairs_view(pairs@) =~= Seq::<(NodeView, NodeView)>::empty());
        }
        pairs.push(first_pair);
        let ghost whole = block_map_loop(parser.upcoming(), d, lim, end, start_pos, mapping_indent, pairs_view(pairs@));
        proof { assert(pairs_view(pairs@) =~= seq![(view_of(first_pair.key), view_of(first_pair.value))]); }
        loop
            invariant
                parser.depth() == d && d == old(parser).depth(),
                parser.depth_limit() == lim && lim == old(parser).depth_limit(),
                parser.end_position() == end && end == old(parser).end_position(),
                parser.upcoming().len() <= old(parser).upcoming().len(),
                whole == block_map_loop(parser.upcoming(), d, lim, end, start_pos, mapping_indent, pairs_view(pairs@)),
                whole == ({
                    let p = block_pair(first_key_token, old(parser).upcoming(), d, lim, end);
                    match p.0 {
                        Err(pe) => (Err(pe), p.1),
                        Ok(pv) => block_map_loop(p.1, d, lim, end, first_key_token.position,
                            indent_of_column(first_key_token.position.column), seq![pv]),
                    }
                }),
            ensures
                parser.depth() == d,
                parser.depth_limit() == lim,
                parser.end_position() == end,
                parser.upcoming().len() <= old(parser).upcoming().len(),
                whole == (Ok::<NodeView, ErrView>(NodeView::Mapping { pairs: pairs_view(pairs@), style: MappingStyle::Block,
                    position: start_pos }), parser.upcoming()),
            decreases parser.upcoming().len(),
        {
            let ghost t = parser.upcoming();
            let _ = parser.skip_insignificant_tokens();
            proof { lemma_skip_suffix(t); }
            let position = match parser.peek_token() {
                Some(token) => token.position,
                None => { break; },
            };
            let is_key = match Self::is_potential_mapping_key_with_context(parser, position, mapping_indent) {
                Ok(b) => b,
                Err(e) => { return Err(e); },
            };
            if !is_key {
                break;
            }
            let key_token = match parser.consume_token() {
                Ok(tok) => tok,
                Err(e) => { return Err(e); },
            };
            let pair = Self::parse_mapping_pair_with_context(parser, key_token)?;
            proof { lemma_pairs_view_push(pairs@, pair); }
            pairs.push(pair);
        }
        Ok(Node::Mapping(MappingNode::new(pairs, MappingStyle::Block, start_pos)))
    }

    /// A block mapping pair from its key token on (`block_pair`).
    fn parse_mapping_pair_with_context(parser: &mut YamlParser, key_token: Token) -> (r: Result<MappingPair, ParseError>)
        ensures
            final(parser).depth() == old(parser).depth(),
            final(parser).depth_limit() == old(parser).depth_limit(),
            final(parser).end_position() == old(parser).end_position(),
            final(parser).upcoming().len() <= old(parser).upcoming().len(),
            ({
                let e = block_pair(key_token, old(parser).upcoming(), old(parser).depth(), old(parser).depth_limit(),
                    old(parser).end_position());
                match r {
                    Ok(p) => e.0 == Ok::<(NodeView, NodeView), ErrView>((view_of(p.key), view_of(p.value)))
                        && final(parser).upcoming() == e.1,
                    Err(err) => e.0 == Err::<(NodeView, NodeView), ErrView>(err_view(err)),
                }
            }),
    {
        let key_is_scalar = match key_token.kind {
            TokenKind::Scalar { .. } => true,
            _ => false,
        };
        if !key_is_scalar {
            let mut msg = String::new();
            push_str(&mut msg, "unexpected token for mapping key: ");
            let k_text = token_kind_text(&key_token.kind);
            push_str(&mut msg, k_text.as_str());
            return Err(ParseError { kind: ParseErrorKind::UnexpectedToken, position: key_token.position, message: msg });
        }
        let key = ScalarParser::parse_scalar(key_token, &ParseContext::BlockKey)?;
        let ghost k1 = parser.upcoming();
        let _ = parser.skip_insignificant_tokens();
        proof { lemma_skip_suffix(k1); }
        let current_pos = parser.current_position();
        match parser.peek_token() {
            Some(token) => {
                match token.kind {
                    TokenKind::Value => {},
                    _ => {
                        return Err(ParseError::new(ParseErrorKind::ExpectedToken, token.position,
                            "expected ':' after mapping key"));
                    },
                }
            },
            None => {
                return Err(ParseError::new(ParseErrorKind::UnexpectedEndOfInput, current_pos,
                    "expected ':' after mapping key"));
            },
        }
        let _ = parser.consume_token();
        let ghost w1 = parser.upcoming();
        let _ = parser.skip_insignificant_tokens();
        proof { lemma_skip_suffix(w1); }
        let value = match parser.peek_token() {
            Some(token) => {
                let empty = match token.kind {
                    TokenKind::BlockEntry | TokenKind::DocumentEnd | TokenKind::StreamEnd => true,
                    _ => false,
                };
                if empty {
                    Node::Null(NullNode::new(parser.current_position()))
                } else {
                    let stack = ContextStack::new();
                    Self::parse_context_node(parser, &stack, 0)?
                }
            },
            None => Node::Null(NullNode::new(parser.current_position())),
        };
        Ok(MappingPair::new(key, value))
    }

    /// Whether a token at `position` can be a key of a mapping indented `min_indent`:
    /// indented enough and followed by `:`. Nothing is taken.
    pub fn is_potential_mapping_key_with_context(parser: &mut YamlParser, position: Position, min_indent: usize)
        -> (r: Result<bool, ParseError>)
        ensures
            *final(parser) == *old(parser),
            r == Ok::<bool, ParseError>(position.column >= min_indent && old(parser).upcoming().len() > 0
                && value_after_one(old(parser).upcoming())),
    {
        if position.column < min_indent {
            return Ok(false);
        }
        if parser.peek_token().is_none() {
            return Ok(false);
        }
        FlowParser::is_flow_mapping_key(parser)
    }

    /// Whether a token at `position` can be a key of a mapping indented `min_indent`
    /// (as `is_potential_mapping_key_with_context`).
    pub fn is_potential_mapping_key(parser: &mut YamlParser, position: Position, min_indent: usize)
        -> (r: Result<bool, ParseError>)
        ensures
            *final(parser) == *old(parser),
            r == Ok::<bool, ParseError>(position.column >= min_indent && old(parser).upcoming().len() > 0
                && value_after_one(old(parser).upcoming())),
    {
        Self::is_potential_mapping_key_with_context(parser, position, min_indent)
    }

    /// Whether a block structure indented `base_indent` ends here: at a document marker,
    /// the stream end, a token indented no deeper, or the end of the input.
    pub fn is_end_of_block_structure(parser: &mut YamlParser, base_indent: usize) -> (r: Result<bool, ParseError>)
        ensures
            *final(parser) == *old(parser),
            r == Ok::<bool, ParseError>(old(parser).upcoming().len() == 0 || {
                let tok = old(parser).upcoming()[0];
                tok.kind is DocumentEnd || tok.kind is DocumentStart || tok.kind is StreamEnd
                    || tok.position.column <= base_indent
            }),
    {
        match parser.peek_token() {
            Some(token) => match token.kind {
                TokenKind::DocumentEnd | TokenKind::DocumentStart | TokenKind::StreamEnd => Ok(true),
                _ => Ok(token.position.column <= base_indent),
            },
            None => Ok(true),
        }
    }

    /// Any node in block context, indented at least `min_indent` (`block_node`).
    fn parse_context_node(parser: &mut YamlParser, context_stack: &ContextStack, min_indent: usize)
        -> (r: Result<Node, ParseError>)
        ensures
            parsed_as(old(parser), final(parser), r, block_node(old(parser).upcoming(), old(parser).depth(),
                old(parser).depth_limit(), old(parser).end_position(), min_indent)),
        decreases old(parser).upcoming().len(),
    {
        let ghost t = parser.upcoming();
        let _ = parser.skip_insignificant_tokens();
        proof { lemma_skip_suffix(t); }
        let current_pos = parser.current_position();
        let kind = match parser.peek_token() {
            Some(token) => {
                if token.position.column < min_indent {
                    let mut msg = String::new();
                    push_str(&mut msg, "insufficient indentation: expected at least ");
                    push_decimal(&mut msg, min_indent);
                    push_str(&mut msg, ", got ");
                    push_decimal(&mut msg, token.position.column);
                    proof { assert(msg@ =~= insufficient_indent_message(min_indent, token.position.column)); }
                    return Err(ParseError { kind: ParseErrorKind::UnexpectedToken, position: token.position, message: msg });
                }
                let k = block_peek(&token.kind);
                match k {
                    BlockPeek::Other => {
                        let mut msg = String::new();
                        push_str(&mut msg, "unexpected token in block context: ");
                        let k_text = token_kind_text(&token.kind);
                        push_str(&mut msg, k_text.as_str());
                        return Err(ParseError { kind: ParseErrorKind::UnexpectedToken, position: token.position,
                            message: msg });
                    },
                    _ => k,
                }
            },
            None => {
                return Err(ParseError::new(ParseErrorKind::UnexpectedEndOfInput, current_pos, "expected node content"));
            },
        };
        let token = match parser.consume_token() {
            Ok(tok) => tok,
            Err(e) => {
                return Err(e);
            },
        };
        let position = token.position;
        match kind {
            BlockPeek::SequenceStart => FlowParser::parse_sequence(parser, token),
            BlockPeek::MappingStart => FlowParser::parse_mapping(parser, token),
            BlockPeek::Scalar => ScalarParser::parse_scalar(token, &ParseContext::BlockIn(min_indent)),
            _ => {
                match token.kind {
                    TokenKind::Anchor(name) => {
                        let anchored = Self::parse_context_node(parser, context_stack, min_indent)?;
                        Ok(Node::Anchor(AnchorNode::new(name, Box::new(anchored), position)))
                    },
                    TokenKind::Alias(name) => Ok(Node::Alias(AliasNode::new(name, position))),
                    TokenKind::Tag { handle, suffix } => {
                        let tagged = Self::parse_context_node(parser, context_stack, min_indent)?;
                        Ok(Node::Tagged(TaggedNode::new(handle, suffix, Box::new(tagged), position)))
                    },
                    _ => {
                        proof { assert(false); }
                        Err(ParseError::new(ParseErrorKind::InternalError, position, "unexpected token"))
                    },
                }
            },
        }
    }
}

impl BlockErrorRecovery {
    /// Recover from an indentation error: read on to the first token at the expected
    /// indentation that starts a sequence entry or a mapping key and stop there (nothing is
    /// returned; the caller goes on); at the end of the input, the original error stands
    /// (`recovery_point`).
    pub fn recover_from_indentation_error(parser: &mut YamlParser, error: ParseError, expected_indent: usize)
        -> (r: Result<Option<Node>, ParseError>)
        ensures
            match recovery_point(old(parser).upcoming(), expected_indent) {
                Some(rest) => r matches Ok(None) && final(parser).upcoming() == rest,
                None => r matches Err(e) && e == error,
            },
    {
        let ghost whole = recovery_point(parser.upcoming(), expected_indent);
        loop
            invariant
                whole == recovery_point(old(parser).upcoming(), expected_indent),
                whole == recovery_point(parser.upcoming(), expected_indent),
            ensures
                whole is None,
            decreases parser.upcoming().len(),
        {
            let (position, entry, scalar) = match parser.peek_token() {
                Some(token) => (token.position, match token.kind { TokenKind::BlockEntry => true, _ => false }, match token.kind { TokenKind::Scalar { .. } => true, _ => false }),
                None => { break; },
            };
            if position.column == expected_indent {
                if entry {
                    return Ok(None);
                }
                if scalar {
                    let key = BlockParser::is_potential_mapping_key(parser, position, expected_indent)?;
                    if key {
                        return Ok(None);
                    }
                }
            }
            let _ = parser.consume_token();
        }
        Err(error)
    }

    /// Check a block structure for consistency: the tokens up to a document marker, the
    /// stream end or a token indented less than `base_indent` are looked at, nothing is taken,
    /// and no warning is found.
    pub fn validate_block_structure_consistency(parser: &mut YamlParser, base_indent: usize)
        -> (r: Result<Vec<String>, ParseError>)
        ensures
            *final(parser) == *old(parser),
            r matches Ok(w) && w@.len() == 0,
    {
        let warnings: Vec<String> = Vec::new();
        let mut k: usize = 0;
        loop
            invariant
                *parser == *old(parser),
                warnings@.len() == 0,
            decreases usize::MAX - k,
        {
            let stop = match parser.peek_at(k) {
                Some(token) => match token.kind {
                    TokenKind::DocumentEnd | TokenKind::DocumentStart | TokenKind::StreamEnd => true,
                    _ => token.position.column < base_indent,
                },
                None => true,
            };
            if stop || k == usize::MAX {
                break;
            }
            k = k + 1;
        }
        Ok(warnings)
    }
}

/// Indentation requirements for different block structures
#[derive(Debug, Clone, Copy)]
pub struct IndentRequirements {
    pub sequence_item: usize,
    pub mapping_value: usize,
    pub nested_collection: usize,
}

/// Block parsing optimization utilities
pub struct BlockOptimizations;

impl BlockOptimizations {
    /// Sequence items and mapping values two columns in, nested collections four.
    pub fn calculate_indent_requirements(base_indent: usize) -> (r: IndentRequirements)
        requires
            base_indent + 4 <= usize::MAX,
        ensures
            r.sequence_item == base_indent + 2,
            r.mapping_value == base_indent + 2,
            r.nested_collection == base_indent + 4,
    {
        IndentRequirements {
            sequence_item: base_indent + 2,
            mapping_value: base_indent + 2,
            nested_collection: base_indent + 4,
        }
    }

    /// The capacity for a block collection: 4, 8 or 16 for small sizes, else the next
    /// power of two.
    pub fn optimize_block_collection_allocation(estimated_size: usize) -> (c: usize)
        requires
            estimated_size <= usize::MAX / 2 + 1,
        ensures
            estimated_size <= 4 ==> c == 4,
            4 < estimated_size <= 8 ==> c == 8,
            8 < estimated_size <= 16 ==> c == 16,
            16 < estimated_size ==> is_power_of_two(c as nat) && c >= estimated_size && c / 2 < estimated_size,
    {
        if estimated_size <= 4 {
            4
        } else if estimated_size <= 8 {
            8
        } else if estimated_size <= 16 {
            16
        } else {
            next_power_of_two(estimated_size)
        }
    }

    /// Compact when at most two levels deep and at most ten items.
    pub fn should_use_compact_block_representation(depth: usize, item_count: usize) -> (b: bool)
        ensures
            b == (depth <= 2 && item_count <= 10),
    {
        depth <= 2 && item_count <= 10
    }
}

/// The least power of two at least `n` (`usize::next_power_of_two`).
pub fn next_power_of_two(n: usize) -> (p: usize)
    requires
        n <= usize::MAX / 2 + 1,
    ensures
        is_power_of_two(p as nat),
        p >= n,
        p == 1 || p / 2 < n,
{
    let mut p: usize = 1;
    while p < n
        invariant
            n <= usize::MAX / 2 + 1,
            is_power_of_two(p as nat),
            p >= 1,
            p == 1 || p / 2 < n,
        decreases usize::MAX - p,
    {
        proof { assert((p * 2) as nat / 2 == p as nat); assert((p * 2) % 2 == 0); }
        p = p * 2;
    }
    p
}

/// The fix suggested for a block syntax error, by what its message mentions.
pub open spec fn block_fix(message: Seq<char>) -> Option<Seq<char>> {
    if occurs_in("indentation"@, message) {
        Some("check YAML indentation - use spaces, not tabs"@)
    } else if occurs_in("expected ':'"@, message) {
        Some("missing colon after mapping key"@)
    } else if occurs_in("expected '-'"@, message) {
        Some("missing dash for sequence item"@)
    } else {
        None
    }
}

/// Block parsing error recovery
pub struct BlockErrorRecovery;

impl BlockErrorRecovery {
    /// Suggest a fix for a block syntax error (`block_fix`).
    pub fn suggest_block_syntax_fix(error: &ParseError) -> (r: Option<String>)
        ensures
            r matches Some(s) ==> block_fix(error.message@) == Some(s@),
            r is None ==> block_fix(error.message@) is None,
    {
        let m = error.message.as_str();
        if str_contains(m, "indentation") {
            Some("check YAML indentation - use spaces, not tabs".to_owned())
        } else if str_contains(m, "expected ':'") {
            Some("missing colon after mapping key".to_owned())
        } else if str_contains(m, "expected '-'") {
            Some("missing dash for sequence item".to_owned())
        } else {
            None
        }
    }
}

} // verus!
