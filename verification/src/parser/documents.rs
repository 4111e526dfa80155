//! Documents and streams as wholes: their kind, structure checks, merging and splitting,
//! filtering, and the sizing hints derived from them.
use vstd::prelude::*;
use crate::lexer::{Position, Token, TokenKind};
use crate::parser::ast::{AliasNode, AnchorNode, Document, MappingNode, MappingStyle, Node, Stream, TaggedNode};
use crate::parser::ast::view::{NodeView, view_of, opt_view};
use crate::parser::flows::{FlowParser, Parsed, wrap_node, scalar_view, flow_seq_loop, flow_map_loop, value_after_one,
    parsed_as};
use crate::parser::grammar::context_types::ParseContext;
use crate::parser::grammar::productions::{ParseError, ParseErrorKind};
use crate::parser::scalars::ScalarParser;
use crate::debug_render::{token_kind_debug, token_kind_text};
use crate::parser::yaml_parser::{YamlParser, ErrView, err_view, skip_spec, pos_at, lemma_skip_suffix};
use crate::text::push_str;

verus! {

/// The kind of a document: of its content, looking through anchors and tags.
#[derive(Debug, Clone, Copy, PartialEq, Eq, Structural)]
pub enum DocumentType {
    Empty,
    Scalar,
    Sequence,
    Mapping,
    Alias,
    Null,
}

/// The kind of a node, looking through anchors and tags.
pub open spec fn node_type(n: Node) -> DocumentType
    decreases n,
{
    match n {
        Node::Scalar(_) => DocumentType::Scalar,
        Node::Sequence(_) => DocumentType::Sequence,
        Node::Mapping(_) => DocumentType::Mapping,
        Node::Anchor(a) => node_type(*a.node),
        Node::Tagged(t) => node_type(*t.node),
        Node::Alias(_) => DocumentType::Alias,
        Node::Null(_) => DocumentType::Null,
    }
}

/// The kind of a document: `Empty` without content.
pub open spec fn document_type(d: Document) -> DocumentType {
    match d.content {
        None => DocumentType::Empty,
        Some(n) => node_type(n),
    }
}

/// The warnings about a document's structure: an empty document, and markers of which only
/// one is present.
pub open spec fn structure_warnings(d: Document) -> Seq<Seq<char>> {
    let a: Seq<Seq<char>> = if d.content is None { seq!["document is empty"@] } else { Seq::empty() };
    if d.has_explicit_start != d.has_explicit_end {
        a.push("inconsistent document markers (only one of start/end present)"@)
    } else {
        a
    }
}

/// A document's content, after white space: a scalar (read at document level), a flow
/// sequence or mapping, an anchored or tagged node, or an alias; anything else is an error.
pub open spec fn doc_content(t: Seq<Token>, d: nat, lim: nat, end: Position) -> Parsed
    decreases t.len(),
{
    let u = skip_spec(t);
    proof { lemma_skip_suffix(t); }
    if u.len() == 0 {
        (Err((ParseErrorKind::UnexpectedEndOfInput, end, "expected node content"@)), u)
    } else {
        let tok = u[0];
        match tok.kind {
            TokenKind::Scalar { .. } => (scalar_view(tok, ParseContext::Document), u.drop_first()),
            TokenKind::FlowSequenceStart => flow_seq_loop(u.drop_first(), d, lim, end, tok.position, Seq::empty(), true, false),
            TokenKind::FlowMappingStart => flow_map_loop(u.drop_first(), d, lim, end, tok.position, Seq::empty(), true, false),
            TokenKind::Anchor(name) => wrap_node(doc_content(u.drop_first(), d, lim, end),
                |n: NodeView| NodeView::Anchor { name: name@, node: Box::new(n), position: tok.position }),
            TokenKind::Alias(name) => (Ok(NodeView::Alias { name: name@, position: tok.position }), u.drop_first()),
            TokenKind::Tag { handle, suffix } => wrap_node(doc_content(u.drop_first(), d, lim, end),
                |n: NodeView| NodeView::Tagged { handle: opt_view(handle), suffix: suffix@, node: Box::new(n),
                    position: tok.position }),
            _ => (Err((ParseErrorKind::UnexpectedToken, tok.position,
                "unexpected token at document level: "@ + token_kind_debug(tok.kind))), u),
        }
    }
}

/// Whether a token is a directive.
pub open spec fn is_directive(k: TokenKind) -> bool {
    k is YamlDirective || k is TagDirective || k is ReservedDirective
}

/// The directive tokens at the front (each followed by white space), and the tokens after.
pub open spec fn directives_at(t: Seq<Token>) -> (Seq<Token>, Seq<Token>)
    decreases t.len(),
{
    if t.len() > 0 && is_directive(t[0].kind) {
        proof { lemma_skip_suffix(t.drop_first()); }
        let r = directives_at(skip_spec(t.drop_first()));
        (seq![t[0]] + r.0, r.1)
    } else {
        (Seq::empty(), t)
    }
}

/// Whether a directive record holds what its token does.
pub open spec fn directive_of(info: DirectiveInfo, tok: Token) -> bool {
    match tok.kind {
        TokenKind::YamlDirective { major, minor } => info == DirectiveInfo::Yaml { major, minor, position: tok.position },
        TokenKind::TagDirective { handle, prefix } => info matches DirectiveInfo::Tag { handle: h, prefix: p, position: q }
            && h@ == handle@ && p@ == prefix@ && q == tok.position,
        TokenKind::ReservedDirective { name, value } => info matches DirectiveInfo::Reserved { name: n, value: v, position: q }
            && n@ == name@ && v@ == value@ && q == tok.position,
        _ => false,
    }
}

/// A document as plain values: its content, its markers and its position.
pub type DocView = (Option<NodeView>, bool, bool, Position);

/// The plain values of a document.
pub open spec fn doc_view(d: Document) -> DocView {
    (match d.content { Some(n) => Some(view_of(n)), None => None }, d.has_explicit_start, d.has_explicit_end, d.position)
}

/// A document: refused when nested as deep as allowed; none at the end of the input; else
/// an optional `---`, directives, content unless a marker or the stream end follows, and an
/// optional `...`. Its position is where it began, before white space.
pub open spec fn document_at(t: Seq<Token>, d: nat, lim: nat, end: Position)
    -> (Result<Option<DocView>, ErrView>, Seq<Token>)
{
    if d >= lim {
        (Err((ParseErrorKind::RecursionLimitExceeded, pos_at(t, end), "maximum recursion depth exceeded"@)), t)
    } else {
        let u = skip_spec(t);
        if u.len() == 0 {
            (Ok(None), u)
        } else {
            let has_start = u[0].kind is DocumentStart;
            let v = if has_start { u.drop_first() } else { u };
            let w = skip_spec(directives_at(v).1);
            let c: Parsed = if w.len() == 0 || w[0].kind is DocumentEnd || w[0].kind is DocumentStart || w[0].kind is StreamEnd {
                (Ok(NodeView::Null { position: end }), w)
            } else {
                doc_content(w, d, lim, end)
            };
            let empty = w.len() == 0 || w[0].kind is DocumentEnd || w[0].kind is DocumentStart || w[0].kind is StreamEnd;
            match c.0 {
                Err(e) => (Err(e), c.1),
                Ok(n) => {
                    let x = c.1;
                    let has_end = x.len() > 0 && x[0].kind is DocumentEnd;
                    (Ok(Some((if empty { None } else { Some(n) }, has_start, has_end, pos_at(t, end)))),
                        if has_end { x.drop_first() } else { x })
                },
            }
        }
    }
}

/// The tokens after the stream start and end tokens at the front.
pub open spec fn inter_document(t: Seq<Token>) -> Seq<Token>
    decreases t.len(),
{
    if t.len() > 0 && (t[0].kind is StreamStart || t[0].kind is StreamEnd) { inter_document(t.drop_first()) } else { t }
}

/// The documents of a stream after `docs`, up to its end.
pub open spec fn stream_loop(t: Seq<Token>, d: nat, lim: nat, end: Position, docs: Seq<DocView>)
    -> (Result<Seq<DocView>, ErrView>, Seq<Token>)
    decreases t.len(),
{
    if t.len() == 0 {
        (Ok(docs), t)
    } else {
        let u = skip_spec(t);
        if u.len() == 0 || u[0].kind is StreamEnd {
            (Ok(docs), u)
        } else {
            let r = document_at(u, d, lim, end);
            match r.0 {
                Err(e) => (Err(e), r.1),
                Ok(od) => {
                    let docs2 = match od { Some(x) => docs.push(x), None => docs };
                    let w = inter_document(r.1);
                    if w.len() < t.len() {
                        stream_loop(w, d, lim, end, docs2)
                    } else {
                        (Err((ParseErrorKind::InternalError, Position::start_spec(), "parse made no progress"@)), w)
                    }
                },
            }
        }
    }
}

/// A stream: an optional stream start, then its documents.
pub open spec fn stream_at(t: Seq<Token>, d: nat, lim: nat, end: Position) -> (Result<Seq<DocView>, ErrView>, Seq<Token>) {
    let t1 = if t.len() > 0 && t[0].kind is StreamStart { t.drop_first() } else { t };
    stream_loop(t1, d, lim, end, Seq::empty())
}

/// Directive information extracted during parsing
#[derive(Debug, Clone, PartialEq)]
pub enum DirectiveInfo {
    Yaml { major: u32, minor: u32, position: Position },
    Tag { handle: String, prefix: String, position: Position },
    Reserved { name: String, value: String, position: Position },
}

/// Summary of all directives found in a document stream
#[derive(Debug, Clone)]
pub struct DirectiveSummary {
    pub yaml_versions: Vec<(u32, u32)>,
    pub tag_handles: Vec<(String, String)>,
    pub reserved_directives: Vec<(String, String)>,
}

/// Document-level operations of the parser.
pub struct DocumentParser;

impl DocumentParser {
    /// The warnings about a document's structure (`structure_warnings`); never an error.
    pub fn validate_document_structure(document: &Document) -> (r: Result<Vec<String>, ParseError>)
        ensures
            r matches Ok(w) && w@.map_values(|s: String| s@) == structure_warnings(*document),
    {
        let mut warnings: Vec<String> = Vec::new();
        if document.content.is_none() {
            warnings.push("document is empty".to_owned());
        }
        if document.has_explicit_start && document.has_explicit_end {
        } else if !document.has_explicit_start && !document.has_explicit_end {
        } else {
            warnings.push("inconsistent document markers (only one of start/end present)".to_owned());
        }
        proof {
            assert(warnings@.map_values(|s: String| s@) =~= structure_warnings(*document));
        }
        Ok(warnings)
    }

    /// The kind of a document (`document_type`).
    pub fn get_document_type(document: &Document) -> (t: DocumentType)
        ensures
            t == document_type(*document),
    {
        match &document.content {
            None => DocumentType::Empty,
            Some(node) => Self::get_document_type_from_node(node),
        }
    }

    /// The kind of a node (`node_type`).
    fn get_document_type_from_node(node: &Node) -> (t: DocumentType)
        ensures
            t == node_type(*node),
        decreases *node,
    {
        match node {
            Node::Scalar(_) => DocumentType::Scalar,
            Node::Sequence(_) => DocumentType::Sequence,
            Node::Mapping(_) => DocumentType::Mapping,
            Node::Anchor(anchor) => {
                proof { assert(decreases_to!(*node => *anchor.node)); }
                Self::get_document_type_from_node(&anchor.node)
            },
            Node::Tagged(tagged) => {
                proof { assert(decreases_to!(*node => *tagged.node)); }
                Self::get_document_type_from_node(&tagged.node)
            },
            Node::Alias(_) => DocumentType::Alias,
            Node::Null(_) => DocumentType::Null,
        }
    }

    /// Whether a stream holds more than one document.
    pub fn is_multi_document_stream(stream: &Stream) -> (b: bool)
        ensures
            b == (stream.documents@.len() > 1),
    {
        stream.len() > 1
    }

    /// The directives of documents: documents keep none, so the summary is empty.
    pub fn extract_directive_info(_documents: &[Document]) -> (s: DirectiveSummary)
        ensures
            s.yaml_versions@.len() == 0,
            s.tag_handles@.len() == 0,
            s.reserved_directives@.len() == 0,
    {
        DirectiveSummary { yaml_versions: Vec::new(), tag_handles: Vec::new(), reserved_directives: Vec::new() }
    }

    /// Merge two mapping documents (pairs of the first, then of the second) or two
    /// sequence documents (items of the first, then of the second); markers are kept when
    /// either document has them, and the first document's position. Other kinds cannot be
    /// merged.
    pub fn merge_documents(doc1: Document, doc2: Document) -> (r: Result<Document, ParseError>)
        ensures
            match (doc1.content, doc2.content) {
                (Some(Node::Mapping(m1)), Some(Node::Mapping(m2))) => r matches Ok(d)
                    && d.content matches Some(Node::Mapping(m))
                    && m.pairs@ == m1.pairs@ + m2.pairs@ && m.style == m1.style && m.position == m1.position
                    && d.has_explicit_start == (doc1.has_explicit_start || doc2.has_explicit_start)
                    && d.has_explicit_end == (doc1.has_explicit_end || doc2.has_explicit_end)
                    && d.position == doc1.position,
                (Some(Node::Sequence(s1)), Some(Node::Sequence(s2))) => r matches Ok(d)
                    && d.content matches Some(Node::Sequence(s))
                    && s.items@ == s1.items@ + s2.items@ && s.style == s1.style && s.position == s1.position
                    && d.has_explicit_start == (doc1.has_explicit_start || doc2.has_explicit_start)
                    && d.has_explicit_end == (doc1.has_explicit_end || doc2.has_explicit_end)
                    && d.position == doc1.position,
                _ => r matches Err(e) && e.kind == ParseErrorKind::InternalError && e.position == doc1.position
                    && e.message@ == "cannot merge incompatible document types"@,
            },
    {
        let start = doc1.has_explicit_start || doc2.has_explicit_start;
        let end = doc1.has_explicit_end || doc2.has_explicit_end;
        let position = doc1.position;
        match (doc1.content, doc2.content) {
            (Some(Node::Mapping(mut map1)), Some(Node::Mapping(mut map2))) => {
                map1.pairs.append(&mut map2.pairs);
                Ok(Document::new(Some(Node::Mapping(map1)), start, end, position))
            },
            (Some(Node::Sequence(mut seq1)), Some(Node::Sequence(mut seq2))) => {
                seq1.items.append(&mut seq2.items);
                Ok(Document::new(Some(Node::Sequence(seq1)), start, end, position))
            },
            _ => Err(ParseError::new(ParseErrorKind::InternalError, position,
                "cannot merge incompatible document types")),
        }
    }
}

/// The kinds of next token the document parser tells apart.
enum DocPeek {
    Scalar,
    SequenceStart,
    MappingStart,
    Anchor,
    Alias,
    Tag,
    Other,
}

fn doc_peek(k: &TokenKind) -> (p: DocPeek)
    ensures
        (p is Scalar) == (*k is Scalar),
        (p is SequenceStart) == (*k is FlowSequenceStart),
        (p is MappingStart) == (*k is FlowMappingStart),
        (p is Anchor) == (*k is Anchor),
        (p is Alias) == (*k is Alias),
        (p is Tag) == (*k is Tag),
{
    match k {
        TokenKind::Scalar { .. } => DocPeek::Scalar,
        TokenKind::FlowSequenceStart => DocPeek::SequenceStart,
        TokenKind::FlowMappingStart => DocPeek::MappingStart,
        TokenKind::Anchor(_) => DocPeek::Anchor,
        TokenKind::Alias(_) => DocPeek::Alias,
        TokenKind::Tag { .. } => DocPeek::Tag,
        _ => DocPeek::Other,
    }
}

impl DocumentParser {
    /// Parse a stream: an optional stream start, then documents up to the stream end or the
    /// end of the input (`stream_at`).
    pub fn parse_stream(parser: &mut YamlParser) -> (r: Result<Stream, ParseError>)
        ensures
            ({
                let e = stream_at(old(parser).upcoming(), old(parser).depth(), old(parser).depth_limit(),
                    old(parser).end_position());
                match r {
                    Ok(st) => e.0 == Ok::<Seq<DocView>, ErrView>(st.documents@.map_values(|x: Document| doc_view(x)))
                        && final(parser).upcoming() == e.1,
                    Err(err) => e.0 == Err::<Seq<DocView>, ErrView>(err_view(err)),
                }
            }),
    {
        let ghost d = parser.depth();
        let ghost lim = parser.depth_limit();
        let ghost end = parser.end_position();
        let starts = match parser.peek_token() {
            Some(token) => match token.kind {
                TokenKind::StreamStart => true,
                _ => false,
            },
            None => false,
        };
        if starts {
            let _ = parser.consume_token();
        }
        let mut documents: Vec<Document> = Vec::new();
        proof { assert(documents@.map_values(|x: Document| doc_view(x)) =~= Seq::<DocView>::empty()); }
        loop
            invariant_except_break
                stream_at(old(parser).upcoming(), d, lim, end) == stream_loop(parser.upcoming(), d, lim, end,
                    documents@.map_values(|x: Document| doc_view(x))),
            invariant
                parser.depth() == d && parser.depth_limit() == lim && parser.end_position() == end,
                d == old(parser).depth() && lim == old(parser).depth_limit() && end == old(parser).end_position(),
            ensures
                stream_at(old(parser).upcoming(), d, lim, end) == (Ok::<Seq<DocView>, ErrView>(
                    documents@.map_values(|x: Document| doc_view(x))), parser.upcoming()),
            decreases parser.upcoming().len(),
        {
            let ghost docs = documents@.map_values(|x: Document| doc_view(x));
            if parser.is_at_end() {
                break;
            }
            let ghost t = parser.upcoming();
            let before = parser.remaining();
            let _ = parser.skip_insignificant_tokens();
            let stop = match parser.peek_token() {
                Some(token) => match token.kind {
                    TokenKind::StreamEnd => true,
                    _ => false,
                },
                None => true,
            };
            if stop {
                break;
            }
            let ghost u = parser.upcoming();
            proof { lemma_skip_suffix(t); }
            let parsed = Self::parse_document(parser);
            let od = match parsed {
                Ok(od) => od,
                Err(e) => {
                    proof {
                        assert(stream_loop(t, d, lim, end, docs).0 == Err::<Seq<DocView>, ErrView>(err_view(e)));
                    }
                    return Err(e);
                },
            };
            let ghost docs2 = match &od { Some(x) => docs.push(doc_view(*x)), None => docs };
            match od {
                Some(document) => {
                    let ghost prev = documents@;
                    documents.push(document);
                    proof {
                        assert(documents@.map_values(|x: Document| doc_view(x))
                            =~= prev.map_values(|x: Document| doc_view(x)).push(doc_view(document)));
                    }
                },
                None => {},
            }
            let ghost r1 = parser.upcoming();
            let _ = Self::skip_inter_document_content(parser);
            proof { lemma_inter_suffix(r1); }
            if parser.remaining() >= before {
                let e = ParseError::new(ParseErrorKind::InternalError, Position::start(), "parse made no progress");
                proof {
                    assert(stream_loop(t, d, lim, end, docs).0 == Err::<Seq<DocView>, ErrView>(err_view(e)));
                }
                return Err(e);
            }
            proof {
                assert(stream_loop(t, d, lim, end, docs) == stream_loop(parser.upcoming(), d, lim, end, docs2));
            }
        }
        Ok(Stream::new(documents))
    }
}

impl DocumentParser {
    /// Parse one document (`document_at`): none at the end of the input.
    pub fn parse_document(parser: &mut YamlParser) -> (r: Result<Option<Document>, ParseError>)
        ensures
            final(parser).depth() == old(parser).depth(),
            final(parser).depth_limit() == old(parser).depth_limit(),
            final(parser).end_position() == old(parser).end_position(),
            ({
                let e = document_at(old(parser).upcoming(), old(parser).depth(), old(parser).depth_limit(),
                    old(parser).end_position());
                match r {
                    Ok(od) => e.0 == Ok::<Option<DocView>, ErrView>(match od { Some(x) => Some(doc_view(x)), None => None })
                        && final(parser).upcoming() == e.1,
                    Err(err) => e.0 == Err::<Option<DocView>, ErrView>(err_view(err)),
                }
            }),
    {
        parser.check_recursion_depth()?;
        let start_pos = parser.current_position();
        let ghost t = parser.upcoming();
        let _ = parser.skip_insignificant_tokens();
        proof { lemma_skip_suffix(t); }
        if parser.is_at_end() {
            return Ok(None);
        }
        let has_explicit_start = match parser.peek_token() {
            Some(token) => match token.kind {
                TokenKind::DocumentStart => true,
                _ => false,
            },
            None => false,
        };
        if has_explicit_start {
            let _ = parser.consume_token();
        }
        let ghost v = parser.upcoming();
        let _directives = Self::parse_directives(parser)?;
        proof { lemma_directives_suffix(v); }
        let ghost dv = parser.upcoming();
        let _ = parser.skip_insignificant_tokens();
        proof { lemma_skip_suffix(dv); }
        let empty = match parser.peek_token() {
            Some(token) => match token.kind {
                TokenKind::DocumentEnd | TokenKind::DocumentStart | TokenKind::StreamEnd => true,
                _ => false,
            },
            None => true,
        };
        let content = if empty { None } else { Some(Self::parse_document_content(parser)?) };
        let has_explicit_end = match parser.peek_token() {
            Some(token) => match token.kind {
                TokenKind::DocumentEnd => true,
                _ => false,
            },
            None => false,
        };
        if has_explicit_end {
            let _ = parser.consume_token();
        }
        Ok(Some(Document::new(content, has_explicit_start, has_explicit_end, start_pos)))
    }

    /// A document's content (`doc_content`).
    pub fn parse_document_content(parser: &mut YamlParser) -> (r: Result<Node, ParseError>)
        ensures
            parsed_as(old(parser), final(parser), r, doc_content(old(parser).upcoming(), old(parser).depth(),
                old(parser).depth_limit(), old(parser).end_position())),
    {
        Self::parse_document_content_with_context(parser)
    }

    /// A document's content (`doc_content`).
    pub fn parse_document_content_with_context(parser: &mut YamlParser) -> (r: Result<Node, ParseError>)
        ensures
            parsed_as(old(parser), final(parser), r, doc_content(old(parser).upcoming(), old(parser).depth(),
                old(parser).depth_limit(), old(parser).end_position())),
        decreases old(parser).upcoming().len(),
    {
        let ghost t = parser.upcoming();
        let _ = parser.skip_insignificant_tokens();
        proof { lemma_skip_suffix(t); }
        let current_pos = parser.current_position();
        let kind = match parser.peek_token() {
            Some(token) => {
                let k = doc_peek(&token.kind);
                match k {
                    DocPeek::Other => {
                        let mut msg = String::new();
                        push_str(&mut msg, "unexpected token at document level: ");
                        let k_text = token_kind_text(&token.kind);
                        push_str(&mut msg, k_text.as_str());
                        return Err(ParseError { kind: ParseErrorKind::UnexpectedToken, position: token.position,
                            message: msg });
                    },
                    _ => k,
                }
            },
            None => {
                return Err(ParseError::new(ParseErrorKind::UnexpectedEndOfInput, current_pos, "expected node content"));
            },
        };
        let token = match parser.consume_token() {
            Ok(tok) => tok,
            Err(e) => {
                return Err(e);
            },
        };
        let position = token.position;
        match kind {
            DocPeek::Scalar => ScalarParser::parse_scalar(token, &ParseContext::Document),
            DocPeek::SequenceStart => FlowParser::parse_sequence(parser, token),
            DocPeek::MappingStart => FlowParser::parse_mapping(parser, token),
            _ => {
                match token.kind {
                    TokenKind::Anchor(name) => {
                        let anchored = Self::parse_document_content_with_context(parser)?;
                        Ok(Node::Anchor(AnchorNode::new(name, Box::new(anchored), position)))
                    },
                    TokenKind::Alias(name) => Ok(Node::Alias(AliasNode::new(name, position))),
                    TokenKind::Tag { handle, suffix } => {
                        let tagged = Self::parse_document_content_with_context(parser)?;
                        Ok(Node::Tagged(TaggedNode::new(handle, suffix, Box::new(tagged), position)))
                    },
                    _ => {
                        proof { assert(false); }
                        Err(ParseError::new(ParseErrorKind::InternalError, position, "unexpected token"))
                    },
                }
            },
        }
    }

    /// The directives at the front, each followed by white space (`directives_at`).
    pub fn parse_directives(parser: &mut YamlParser) -> (r: Result<Vec<DirectiveInfo>, ParseError>)
        ensures
            final(parser).depth() == old(parser).depth(),
            final(parser).depth_limit() == old(parser).depth_limit(),
            final(parser).end_position() == old(parser).end_position(),
            final(parser).upcoming() == directives_at(old(parser).upcoming()).1,
            r matches Ok(v) && v@.len() == directives_at(old(parser).upcoming()).0.len()
                && forall|i: int| 0 <= i < v@.len() ==> directive_of(#[trigger] v@[i], directives_at(old(parser).upcoming()).0[i]),
    {
        Self::parse_directives_with_context(parser)
    }

    /// The directives at the front, each followed by white space (`directives_at`).
    pub fn parse_directives_with_context(parser: &mut YamlParser) -> (r: Result<Vec<DirectiveInfo>, ParseError>)
        ensures
            final(parser).depth() == old(parser).depth(),
            final(parser).depth_limit() == old(parser).depth_limit(),
            final(parser).end_position() == old(parser).end_position(),
            final(parser).upcoming() == directives_at(old(parser).upcoming()).1,
            r matches Ok(v) && v@.len() == directives_at(old(parser).upcoming()).0.len()
                && forall|i: int| 0 <= i < v@.len() ==> directive_of(#[trigger] v@[i], directives_at(old(parser).upcoming()).0[i]),
    {
        let ghost all = directives_at(parser.upcoming());
        let mut directives: Vec<DirectiveInfo> = Vec::new();
        loop
            invariant
                parser.depth() == old(parser).depth(),
                parser.depth_limit() == old(parser).depth_limit(),
                parser.end_position() == old(parser).end_position(),
                all == directives_at(old(parser).upcoming()),
                directives@.len() <= all.0.len(),
                directives_at(parser.upcoming()).0 == all.0.skip(directives@.len() as int),
                directives_at(parser.upcoming()).1 == all.1,
                forall|i: int| 0 <= i < directives@.len() ==> directive_of(#[trigger] directives@[i], all.0[i]),
            ensures
                parser.depth() == old(parser).depth(),
                parser.depth_limit() == old(parser).depth_limit(),
                parser.end_position() == old(parser).end_position(),
                parser.upcoming() == all.1,
                directives@.len() == all.0.len(),
                forall|i: int| 0 <= i < directives@.len() ==> directive_of(#[trigger] directives@[i], all.0[i]),
            decreases parser.upcoming().len(),
        {
            let ghost t = parser.upcoming();
            let is_dir = match parser.peek_token() {
                Some(token) => match token.kind {
                    TokenKind::YamlDirective { .. } | TokenKind::TagDirective { .. } | TokenKind::ReservedDirective { .. } => true,
                    _ => false,
                },
                None => false,
            };
            if !is_dir {
                proof {
                    assert(directives_at(t).0 =~= Seq::<Token>::empty());
                    assert(all.0.skip(directives@.len() as int).len() == 0);
                }
                break;
            }
            let token = match parser.consume_token() {
                Ok(tok) => tok,
                Err(_) => { break; },
            };
            let info = match token.kind {
                TokenKind::YamlDirective { major, minor } => DirectiveInfo::Yaml { major, minor, position: token.position },
                TokenKind::TagDirective { handle, prefix } => DirectiveInfo::Tag { handle, prefix, position: token.position },
                TokenKind::ReservedDirective { name, value } => DirectiveInfo::Reserved { name, value, position: token.position },
                _ => {
                    proof { assert(false); }
                    DirectiveInfo::Yaml { major: 0, minor: 0, position: token.position }
                },
            };
            let ghost k = directives@.len();
            directives.push(info);
            let ghost after = parser.upcoming();
            let _ = parser.skip_insignificant_tokens();
            proof {
                lemma_skip_suffix(after);
                assert(all.0.skip(k as int)[0] == t[0]);
                assert(all.0.skip(k as int).drop_first() =~= all.0.skip(k + 1 as int));
            }
        }
        Ok(directives)
    }

    /// Whether a `:` follows the next token: a document-level mapping key. Nothing is taken.
    pub fn is_document_level_mapping_key(parser: &mut YamlParser) -> (r: Result<bool, ParseError>)
        ensures
            *final(parser) == *old(parser),
            r == Ok::<bool, ParseError>(value_after_one(old(parser).upcoming())),
    {
        Self::is_document_level_mapping_key_with_context(parser)
    }

    /// Whether a `:` follows the next token: a document-level mapping key. Nothing is taken.
    pub fn is_document_level_mapping_key_with_context(parser: &mut YamlParser) -> (r: Result<bool, ParseError>)
        ensures
            *final(parser) == *old(parser),
            r == Ok::<bool, ParseError>(value_after_one(old(parser).upcoming())),
    {
        FlowParser::is_flow_mapping_key(parser)
    }

    /// Skip stream start and end tokens between documents (`inter_document`).
    pub fn skip_inter_document_content(parser: &mut YamlParser) -> (r: Result<(), ParseError>)
        ensures
            r is Ok,
            final(parser).upcoming() == inter_document(old(parser).upcoming()),
            final(parser).depth() == old(parser).depth(),
            final(parser).depth_limit() == old(parser).depth_limit(),
            final(parser).end_position() == old(parser).end_position(),
    {
        Self::skip_inter_document_content_with_context(parser)
    }

    /// Skip stream start and end tokens between documents (`inter_document`).
    pub fn skip_inter_document_content_with_context(parser: &mut YamlParser) -> (r: Result<(), ParseError>)
        ensures
            r is Ok,
            final(parser).upcoming() == inter_document(old(parser).upcoming()),
            final(parser).depth() == old(parser).depth(),
            final(parser).depth_limit() == old(parser).depth_limit(),
            final(parser).end_position() == old(parser).end_position(),
    {
        loop
            invariant
                inter_document(parser.upcoming()) == inter_document(old(parser).upcoming()),
                parser.depth() == old(parser).depth(),
                parser.depth_limit() == old(parser).depth_limit(),
                parser.end_position() == old(parser).end_position(),
            ensures
                parser.upcoming() == inter_document(old(parser).upcoming()),
                parser.depth() == old(parser).depth(),
                parser.depth_limit() == old(parser).depth_limit(),
                parser.end_position() == old(parser).end_position(),
            decreases parser.upcoming().len(),
        {
            let skip = match parser.peek_token() {
                Some(token) => match token.kind {
                    TokenKind::StreamStart | TokenKind::StreamEnd => true,
                    _ => false,
                },
                None => false,
            };
            if !skip {
                break;
            }
            let _ = parser.consume_token();
        }
        Ok(())
    }
}

/// Directives leave a suffix.
proof fn lemma_directives_suffix(t: Seq<Token>)
    ensures
        directives_at(t).1.len() <= t.len(),
        directives_at(t).0.len() <= t.len(),
    decreases t.len(),
{
    if t.len() > 0 && is_directive(t[0].kind) {
        lemma_skip_suffix(t.drop_first());
        lemma_directives_suffix(skip_spec(t.drop_first()));
    }
}

/// Skipping stream tokens leaves a suffix.
proof fn lemma_inter_suffix(t: Seq<Token>)
    ensures
        inter_document(t).len() <= t.len(),
    decreases t.len(),
{
    if t.len() > 0 && (t[0].kind is StreamStart || t[0].kind is StreamEnd) {
        lemma_inter_suffix(t.drop_first());
    }
}

/// Document complexity classification
#[derive(Debug, Clone, Copy, PartialEq, Eq, Structural)]
pub enum DocumentComplexity {
    Trivial,
    Simple,
    Medium,
    Complex,
}

/// Parsing strategy recommendations
#[derive(Debug, Clone, Copy, PartialEq, Eq, Structural)]
pub enum ParsingStrategy {
    InMemory,
    Buffered,
    Streaming,
}

/// Memory allocation hints for optimization
#[derive(Debug, Clone, Copy)]
pub struct AllocationHints {
    pub sequence_capacity: usize,
    pub mapping_capacity: usize,
    pub string_capacity: usize,
}

impl Default for AllocationHints {
    fn default() -> (h: Self)
        ensures
            h.sequence_capacity == 4 && h.mapping_capacity == 4 && h.string_capacity == 64,
    {
        Self { sequence_capacity: 4, mapping_capacity: 4, string_capacity: 64 }
    }
}

/// The complexity of a node: scalars, nulls and aliases are simple; a collection by its
/// size (sequences up to 10 items simple, up to 100 medium; mappings up to 5 pairs simple,
/// up to 50 medium; larger ones complex); anchors and tags by what they hold.
pub open spec fn node_complexity(n: Node) -> DocumentComplexity
    decreases n,
{
    match n {
        Node::Scalar(_) | Node::Null(_) | Node::Alias(_) => DocumentComplexity::Simple,
        Node::Sequence(s) => if s.items@.len() <= 10 {
            DocumentComplexity::Simple
        } else if s.items@.len() <= 100 {
            DocumentComplexity::Medium
        } else {
            DocumentComplexity::Complex
        },
        Node::Mapping(m) => if m.pairs@.len() <= 5 {
            DocumentComplexity::Simple
        } else if m.pairs@.len() <= 50 {
            DocumentComplexity::Medium
        } else {
            DocumentComplexity::Complex
        },
        Node::Anchor(a) => node_complexity(*a.node),
        Node::Tagged(t) => node_complexity(*t.node),
    }
}

/// Document parsing optimization utilities
pub struct DocumentOptimizations;

impl DocumentOptimizations {
    /// The complexity of a document: trivial without content, else that of its content.
    pub fn estimate_document_complexity(document: &Document) -> (c: DocumentComplexity)
        ensures
            c == match document.content {
                None => DocumentComplexity::Trivial,
                Some(n) => node_complexity(n),
            },
    {
        match &document.content {
            None => DocumentComplexity::Trivial,
            Some(node) => Self::estimate_node_complexity(node),
        }
    }

    /// The complexity of a node tree (`node_complexity`).
    fn estimate_node_complexity(node: &Node) -> (c: DocumentComplexity)
        ensures
            c == node_complexity(*node),
        decreases *node,
    {
        match node {
            Node::Scalar(_) | Node::Null(_) | Node::Alias(_) => DocumentComplexity::Simple,
            Node::Sequence(seq) => {
                if seq.items.len() <= 10 {
                    DocumentComplexity::Simple
                } else if seq.items.len() <= 100 {
                    DocumentComplexity::Medium
                } else {
                    DocumentComplexity::Complex
                }
            },
            Node::Mapping(map) => {
                if map.pairs.len() <= 5 {
                    DocumentComplexity::Simple
                } else if map.pairs.len() <= 50 {
                    DocumentComplexity::Medium
                } else {
                    DocumentComplexity::Complex
                }
            },
            Node::Anchor(anchor) => {
                proof { assert(decreases_to!(*node => *anchor.node)); }
                Self::estimate_node_complexity(&anchor.node)
            },
            Node::Tagged(tagged) => {
                proof { assert(decreases_to!(*node => *tagged.node)); }
                Self::estimate_node_complexity(&tagged.node)
            },
        }
    }

    /// In memory below 1 KiB, buffered below 1 MiB, streaming from there on.
    pub fn suggest_parsing_strategy(estimated_size: usize) -> (p: ParsingStrategy)
        ensures
            p == if estimated_size < 1024 {
                ParsingStrategy::InMemory
            } else if estimated_size < 1024 * 1024 {
                ParsingStrategy::Buffered
            } else {
                ParsingStrategy::Streaming
            },
    {
        if estimated_size < 1024 {
            ParsingStrategy::InMemory
        } else if estimated_size < 1024 * 1024 {
            ParsingStrategy::Buffered
        } else {
            ParsingStrategy::Streaming
        }
    }

    /// Capacities for a document's kind: sixteen items for a sequence, eight pairs for a
    /// mapping, 256 characters for a scalar, the defaults otherwise.
    pub fn pre_allocate_for_document_type(doc_type: DocumentType) -> (h: AllocationHints)
        ensures
            (h.sequence_capacity, h.mapping_capacity, h.string_capacity) == match doc_type {
                DocumentType::Sequence => (16usize, 0usize, 0usize),
                DocumentType::Mapping => (0usize, 8usize, 0usize),
                DocumentType::Scalar => (0usize, 0usize, 256usize),
                _ => (4usize, 4usize, 64usize),
            },
    {
        match doc_type {
            DocumentType::Sequence => AllocationHints { sequence_capacity: 16, mapping_capacity: 0, string_capacity: 0 },
            DocumentType::Mapping => AllocationHints { sequence_capacity: 0, mapping_capacity: 8, string_capacity: 0 },
            DocumentType::Scalar => AllocationHints { sequence_capacity: 0, mapping_capacity: 0, string_capacity: 256 },
            _ => AllocationHints::default(),
        }
    }
}

/// Document splitting strategies
#[derive(Debug, Clone, Copy, PartialEq, Eq, Structural)]
pub enum SplitStrategy {
    NoSplit,
    ByTopLevelItems,
    BySize(usize),
}

/// Whether `v` is what a document splits into by its top-level items: one document per
/// sequence item, one single-pair block mapping per mapping pair, each without markers and
/// at the document's position; any other document stays whole.
pub open spec fn split_as(d: Document, v: Seq<Document>) -> bool {
    match d.content {
        Some(Node::Sequence(s)) => v.len() == s.items@.len() && forall|i: int| 0 <= i < v.len() ==> #[trigger] v[i]
            == (Document { content: Some(s.items@[i]), has_explicit_start: false, has_explicit_end: false,
                position: d.position }),
        Some(Node::Mapping(m)) => v.len() == m.pairs@.len() && forall|i: int| 0 <= i < v.len() ==> {
            &&& (#[trigger] v[i]).content matches Some(Node::Mapping(mm))
            &&& mm.pairs@ == seq![m.pairs@[i]]
            &&& mm.style == MappingStyle::Block
            &&& mm.position == d.position
            &&& !v[i].has_explicit_start
            &&& !v[i].has_explicit_end
            &&& v[i].position == d.position
        },
        _ => v == seq![d],
    }
}

/// Which documents a filter keeps: those whose flag is set, in order.
pub open spec fn kept(docs: Seq<Document>, keep: Seq<bool>) -> Seq<Document>
    decreases docs.len(),
{
    if docs.len() == 0 || keep.len() == 0 {
        Seq::empty()
    } else {
        let rest = kept(docs.drop_last(), keep.drop_last());
        if keep.last() { rest.push(docs.last()) } else { rest }
    }
}

/// Multi-document stream utilities
pub struct StreamUtilities;

impl StreamUtilities {
    /// Split a document: by its top-level items (`split_items`), or not at all (the size
    /// strategy keeps the document whole too).
    pub fn split_document(document: Document, split_strategy: SplitStrategy) -> (r: Result<Vec<Document>, ParseError>)
        ensures
            r matches Ok(v) && match split_strategy {
                SplitStrategy::ByTopLevelItems => split_as(document, v@),
                _ => v@ == seq![document],
            },
    {
        match split_strategy {
            SplitStrategy::ByTopLevelItems => Self::split_by_top_level_items(document),
            SplitStrategy::BySize(max_size) => Self::split_by_size(document, max_size),
            SplitStrategy::NoSplit => Ok(vec![document]),
        }
    }

    fn split_by_top_level_items(document: Document) -> (r: Result<Vec<Document>, ParseError>)
        ensures
            r matches Ok(v) && split_as(document, v@),
    {
        let ghost d0 = document;
        let position = document.position;
        match document.content {
            Some(Node::Sequence(seq)) => {
                let ghost all = seq.items@;
                let mut items = seq.items;
                let mut documents: Vec<Document> = Vec::new();
                while items.len() > 0
                    invariant
                        documents@.len() + items@.len() == all.len(),
                        items@ == all.skip(documents@.len() as int),
                        forall|j: int| 0 <= j < documents@.len() ==> #[trigger] documents@[j]
                            == (Document { content: Some(all[j]), has_explicit_start: false, has_explicit_end: false,
                                position: position }),
                    decreases items@.len(),
                {
                    let item = items.remove(0);
                    proof { assert(all.skip(documents@.len() + 1 as int) =~= all.skip(documents@.len() as int).remove(0)); }
                    documents.push(Document::new(Some(item), false, false, position));
                }
                proof {
                    assert(d0.content == Some(Node::Sequence(seq)));
                    assert(split_as(d0, documents@));
                }
                Ok(documents)
            },
            Some(Node::Mapping(map)) => {
                let ghost all = map.pairs@;
                let mut pairs = map.pairs;
                let mut documents: Vec<Document> = Vec::new();
                while pairs.len() > 0
                    invariant
                        documents@.len() + pairs@.len() == all.len(),
                        pairs@ == all.skip(documents@.len() as int),
                        forall|j: int| 0 <= j < documents@.len() ==> {
                            &&& (#[trigger] documents@[j]).content matches Some(Node::Mapping(mm))
                            &&& mm.pairs@ == seq![all[j]]
                            &&& mm.style == MappingStyle::Block
                            &&& mm.position == position
                            &&& !documents@[j].has_explicit_start
                            &&& !documents@[j].has_explicit_end
                            &&& documents@[j].position == position
                        },
                    decreases pairs@.len(),
                {
                    let pair = pairs.remove(0);
                    proof { assert(all.skip(documents@.len() + 1 as int) =~= all.skip(documents@.len() as int).remove(0)); }
                    let single = MappingNode::new(vec![pair], MappingStyle::Block, position);
                    documents.push(Document::new(Some(Node::Mapping(single)), false, false, position));
                }
                Ok(documents)
            },
            content => {
                let whole = Document::new(content, document.has_explicit_start, document.has_explicit_end, position);
                proof { assert(whole == d0); }
                let v = vec![whole];
                assert(v@ == seq![d0]);
                Ok(v)
            },
        }
    }

    /// Splitting by size keeps the document whole.
    fn split_by_size(document: Document, _max_size: usize) -> (r: Result<Vec<Document>, ParseError>)
        ensures
            r matches Ok(v) && v@ == seq![document],
    {
        Ok(vec![document])
    }

    /// A stream of the given documents.
    pub fn combine_into_stream(documents: Vec<Document>) -> (s: Stream)
        ensures
            s.documents == documents,
    {
        Stream::new(documents)
    }

    /// The documents of a stream for which the predicate holds, in order.
    pub fn filter_documents<F: Fn(&Document) -> bool>(stream: Stream, predicate: F) -> (s: Stream)
        requires
            forall|d: &Document| #[trigger] predicate.requires((d,)),
        ensures
            exists|keep: Seq<bool>| {
                &&& keep.len() == stream.documents@.len()
                &&& forall|i: int| 0 <= i < keep.len() ==> predicate.ensures((&stream.documents@[i],), #[trigger] keep[i])
                &&& s.documents@ == kept(stream.documents@, keep)
            },
    {
        let ghost all = stream.documents@;
        let mut docs = stream.documents;
        let mut out: Vec<Document> = Vec::new();
        let ghost mut keep: Seq<bool> = Seq::empty();
        while docs.len() > 0
            invariant
                forall|d: &Document| #[trigger] predicate.requires((d,)),
                keep.len() + docs@.len() == all.len(),
                docs@ == all.skip(keep.len() as int),
                forall|i: int| 0 <= i < keep.len() ==> predicate.ensures((&all[i],), #[trigger] keep[i]),
                out@ == kept(all.take(keep.len() as int), keep),
            decreases docs@.len(),
        {
            let d = docs.remove(0);
            let ghost k = keep.len();
            proof { assert(all.skip(k + 1 as int) =~= all.skip(k as int).remove(0)); }
            let b = predicate(&d);
            proof {
                assert(all.take(k + 1 as int).drop_last() =~= all.take(k as int));
                assert(keep.push(b).drop_last() =~= keep);
                keep = keep.push(b);
            }
            if b {
                out.push(d);
            }
        }
        proof { assert(all.take(keep.len() as int) =~= all); }
        Stream::new(out)
    }
}

} // verus!
