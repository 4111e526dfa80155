use yyaml::lexer::{Position, ScalarStyle, Token, TokenKind};
use yyaml::parser::ast::utils::{calculate_depth, collect_aliases, collect_anchors, count_nodes};
use yyaml::parser::ast::{
    AliasNode, AnchorNode, Document, MappingNode, MappingPair, MappingStyle, Node, NullNode, ScalarNode,
    SequenceNode, SequenceStyle, Stream, TaggedNode,
};
use yyaml::parser::blocks::{BlockErrorRecovery, BlockOptimizations, BlockParser};
use yyaml::parser::documents::{
    DocumentComplexity, DocumentOptimizations, DocumentParser, DocumentType, ParsingStrategy, SplitStrategy,
    StreamUtilities,
};
use yyaml::parser::flow::FlowProductions;
use yyaml::parser::flows::{FlowErrorRecovery, FlowOptimizations, FlowParser};
use yyaml::parser::grammar::{Context, ParametricContext, ParseContext, ParseError, ParseErrorKind};
use yyaml::parser::scalars::{ScalarParser, ScalarType};
use yyaml::scanner::state::ScannerState;

fn pos() -> Position {
    Position::new(1, 1, 0)
}

fn scalar(s: &str) -> Node {
    Node::Scalar(ScalarNode::new(s.to_string(), ScalarStyle::Plain, None, pos()))
}

fn ctx(c: Context) -> ParametricContext {
    let mut p = ParametricContext::new();
    p.current_context = c;
    p
}

#[test]
fn flow_double_quoted_in_key_context() {
    let mut st = ScannerState::new("\"a\\tb\" rest");
    let r = FlowProductions::parse_double_quoted_scalar(&mut st, &ctx(Context::FlowKey), 0);
    assert_eq!(r.unwrap(), "a\tb");
}

#[test]
fn flow_double_quoted_refused_in_block_context() {
    let mut st = ScannerState::new("\"x\"");
    let r = FlowProductions::parse_double_quoted_scalar(&mut st, &ctx(Context::BlockIn), 0);
    assert_eq!(r.unwrap_err().info, "invalid context for double-quoted scalar");
    let mut st = ScannerState::new("x");
    let r = FlowProductions::parse_double_quoted_scalar(&mut st, &ctx(Context::FlowIn), 0);
    assert_eq!(r.unwrap_err().info, "expected opening double quote");
    let mut st = ScannerState::new("\"open");
    let r = FlowProductions::parse_double_quoted_scalar(&mut st, &ctx(Context::FlowIn), 0);
    assert_eq!(r.unwrap_err().info, "unexpected end of input");
}

#[test]
fn flow_single_quoted_doubling() {
    let mut st = ScannerState::new("'it''s' tail");
    let r = FlowProductions::parse_single_quoted_scalar(&mut st, &ctx(Context::FlowIn), 0);
    assert_eq!(r.unwrap(), "it's");
    let mut st = ScannerState::new("'never closed");
    let r = FlowProductions::parse_single_quoted_scalar(&mut st, &ctx(Context::FlowIn), 0);
    assert_eq!(r.unwrap_err().info, "unexpected end of input");
}

#[test]
fn flow_plain_scalar_context_rules() {
    let mut st = ScannerState::new("abc, def");
    let r = FlowProductions::parse_plain_scalar(&mut st, &ctx(Context::FlowIn), 0);
    assert_eq!(r.unwrap(), "abc");
    let mut st = ScannerState::new("a:b]");
    let r = FlowProductions::parse_plain_scalar(&mut st, &ctx(Context::FlowIn), 0);
    assert_eq!(r.unwrap(), "a:b");
    let mut st = ScannerState::new("[x");
    let r = FlowProductions::parse_plain_scalar(&mut st, &ctx(Context::FlowKey), 0);
    assert_eq!(r.unwrap_err().info, "character '[' cannot start plain scalar in FlowKey context");
}

#[test]
fn ast_utils_collect_and_measure() {
    let anchored = Node::Anchor(AnchorNode::new("a1".to_string(), Box::new(scalar("v")), pos()));
    let alias = Node::Alias(AliasNode::new("a1".to_string(), pos()));
    let tagged = Node::Tagged(TaggedNode::new(None, "str".to_string(), Box::new(alias), pos()));
    let pair = MappingPair::new(scalar("k"), tagged);
    let map = Node::Mapping(MappingNode::new(vec![pair], MappingStyle::Block, pos()));
    let root = Node::Sequence(SequenceNode::new(vec![anchored, map], SequenceStyle::Block, pos()));
    assert_eq!(collect_anchors(&root), vec!["a1"]);
    assert_eq!(collect_aliases(&root), vec!["a1"]);
    assert_eq!(calculate_depth(&root), 2);
    assert_eq!(count_nodes(&root), 7);
    assert_eq!(calculate_depth(&scalar("x")), 0);
}

#[test]
fn documents_types_and_warnings() {
    let d = Document::new(None, true, false, pos());
    assert_eq!(DocumentParser::get_document_type(&d), DocumentType::Empty);
    let w = DocumentParser::validate_document_structure(&d).unwrap();
    assert_eq!(w, vec!["document is empty".to_string(),
        "inconsistent document markers (only one of start/end present)".to_string()]);
    let tagged = Node::Tagged(TaggedNode::new(None, "t".to_string(),
        Box::new(Node::Sequence(SequenceNode::new(vec![], SequenceStyle::Flow, pos()))), pos()));
    let d2 = Document::new(Some(tagged), false, false, pos());
    assert_eq!(DocumentParser::get_document_type(&d2), DocumentType::Sequence);
    assert!(DocumentParser::validate_document_structure(&d2).unwrap().is_empty());
    let stream = Stream::new(vec![d, d2]);
    assert!(DocumentParser::is_multi_document_stream(&stream));
}

#[test]
fn documents_merge() {
    let m1 = Node::Mapping(MappingNode::new(vec![MappingPair::new(scalar("a"), scalar("1"))], MappingStyle::Block, pos()));
    let m2 = Node::Mapping(MappingNode::new(vec![MappingPair::new(scalar("b"), scalar("2"))], MappingStyle::Flow, pos()));
    let merged = DocumentParser::merge_documents(Document::new(Some(m1), false, true, pos()),
        Document::new(Some(m2), true, false, pos())).unwrap();
    assert!(merged.has_explicit_start && merged.has_explicit_end);
    match merged.content {
        Some(Node::Mapping(m)) => {
            assert_eq!(m.pairs.len(), 2);
            assert_eq!(m.style, MappingStyle::Block);
        },
        _ => panic!("expected a mapping"),
    }
    let err = DocumentParser::merge_documents(Document::new(Some(scalar("x")), false, false, pos()),
        Document::new(None, false, false, pos())).unwrap_err();
    assert_eq!(err.kind, ParseErrorKind::InternalError);
    assert_eq!(err.message, "cannot merge incompatible document types");
}

#[test]
fn documents_split_filter_and_hints() {
    let seq = Node::Sequence(SequenceNode::new(vec![scalar("a"), scalar("b"), scalar("c")], SequenceStyle::Block, pos()));
    let parts = StreamUtilities::split_document(Document::new(Some(seq), true, true, pos()),
        SplitStrategy::ByTopLevelItems).unwrap();
    assert_eq!(parts.len(), 3);
    assert!(!parts[0].has_explicit_start);
    let kept = StreamUtilities::filter_documents(Stream::new(parts), |d: &Document| match &d.content {
        Some(Node::Scalar(s)) => s.value != "b",
        _ => true,
    });
    assert_eq!(kept.documents.len(), 2);
    let whole = StreamUtilities::split_document(Document::new(None, false, false, pos()), SplitStrategy::BySize(5)).unwrap();
    assert_eq!(whole.len(), 1);
    let big = Node::Sequence(SequenceNode::new((0..20).map(|i| scalar(&i.to_string())).collect(),
        SequenceStyle::Block, pos()));
    assert_eq!(DocumentOptimizations::estimate_document_complexity(&Document::new(Some(big), false, false, pos())),
        DocumentComplexity::Medium);
    assert_eq!(DocumentOptimizations::suggest_parsing_strategy(1023), ParsingStrategy::InMemory);
    assert_eq!(DocumentOptimizations::suggest_parsing_strategy(1024), ParsingStrategy::Buffered);
    assert_eq!(DocumentOptimizations::suggest_parsing_strategy(1 << 20), ParsingStrategy::Streaming);
    let h = DocumentOptimizations::pre_allocate_for_document_type(DocumentType::Mapping);
    assert_eq!((h.sequence_capacity, h.mapping_capacity, h.string_capacity), (0, 8, 0));
    let h = DocumentOptimizations::pre_allocate_for_document_type(DocumentType::Null);
    assert_eq!((h.sequence_capacity, h.mapping_capacity, h.string_capacity), (4, 4, 64));
}

#[test]
fn blocks_rules() {
    assert!(BlockParser::validate_indentation(4, 2, "mapping").is_ok());
    let e = BlockParser::validate_indentation(1, 2, "mapping").unwrap_err();
    assert_eq!(e.message, "invalid indentation in mapping: expected at least 2, got 1");
    assert_eq!(BlockParser::calculate_nested_indent(3, 2), 7);
    assert_eq!(BlockParser::get_block_context_info(4, "sequence"), "sequence at indentation level 4");
    let r = BlockOptimizations::calculate_indent_requirements(2);
    assert_eq!((r.sequence_item, r.mapping_value, r.nested_collection), (4, 4, 6));
    assert_eq!(BlockOptimizations::optimize_block_collection_allocation(3), 4);
    assert_eq!(BlockOptimizations::optimize_block_collection_allocation(9), 16);
    assert_eq!(BlockOptimizations::optimize_block_collection_allocation(17), 32);
    assert!(BlockOptimizations::should_use_compact_block_representation(2, 10));
    assert!(!BlockOptimizations::should_use_compact_block_representation(3, 1));
    let e = ParseError::new(ParseErrorKind::UnexpectedToken, pos(), "bad indentation here");
    assert_eq!(BlockErrorRecovery::suggest_block_syntax_fix(&e).unwrap(), "check YAML indentation - use spaces, not tabs");
    let e = ParseError::new(ParseErrorKind::UnexpectedToken, pos(), "nothing known");
    assert!(BlockErrorRecovery::suggest_block_syntax_fix(&e).is_none());
    assert!(BlockParser::is_at_sequence_indent(Position::new(1, 3, 2), 2));
    assert!(BlockParser::is_continuation_of_sequence(Position::new(1, 3, 2), 2));
}

#[test]
fn flows_rules() {
    assert!(FlowParser::validate_nesting_depth(3, 3).is_ok());
    let e = FlowParser::validate_nesting_depth(4, 3).unwrap_err();
    assert_eq!(e.kind, ParseErrorKind::RecursionLimitExceeded);
    assert_eq!(e.message, "flow collection nesting depth 4 exceeds maximum 3");
    assert_eq!(FlowParser::get_flow_context_info(2), "flow collection at nesting level 2");
    assert!(FlowParser::can_terminate_flow_collection(&TokenKind::FlowSequenceEnd, true));
    assert!(!FlowParser::can_terminate_flow_collection(&TokenKind::FlowSequenceEnd, false));
    assert!(FlowParser::is_flow_separator(&TokenKind::FlowEntry));
    match FlowParser::parse_empty_mapping(pos()) {
        Node::Mapping(m) => assert!(m.pairs.is_empty() && m.style == MappingStyle::Flow),
        _ => panic!("expected a mapping"),
    }
    assert!(FlowOptimizations::should_use_compact_representation(5, 80));
    assert!(!FlowOptimizations::should_use_compact_representation(6, 10));
    assert_eq!(FlowOptimizations::optimize_small_collection(vec![1, 2]), vec![1, 2]);
    let e = ParseError::new(ParseErrorKind::ExpectedToken, pos(), "expected ']' here");
    assert_eq!(FlowErrorRecovery::suggest_correction(&e).unwrap(), "missing closing bracket for sequence");
    let e = ParseError::new(ParseErrorKind::UnexpectedToken, pos(), "unexpected ',' twice");
    assert_eq!(FlowErrorRecovery::suggest_correction(&e).unwrap(), "extra comma in collection");
    let e = ParseError::new(ParseErrorKind::InternalError, pos(), "expected ','");
    assert!(FlowErrorRecovery::suggest_correction(&e).is_none());
}

#[test]
fn scalars_type_inference() {
    assert_eq!(ScalarParser::infer_type("  "), ScalarType::Null);
    assert_eq!(ScalarParser::infer_type("~"), ScalarType::Null);
    assert_eq!(ScalarParser::infer_type("Yes"), ScalarType::Boolean);
    assert_eq!(ScalarParser::infer_type("-0x1F"), ScalarType::Integer);
    assert_eq!(ScalarParser::infer_type("0b102"), ScalarType::String);
    assert_eq!(ScalarParser::infer_type("0o17"), ScalarType::Integer);
    assert_eq!(ScalarParser::infer_type("1.5e-3"), ScalarType::Float);
    assert_eq!(ScalarParser::infer_type("3e"), ScalarType::String);
    assert_eq!(ScalarParser::infer_type(".inf"), ScalarType::Float);
    assert_eq!(ScalarParser::infer_type("hello"), ScalarType::String);
}

#[test]
fn scalars_processing_by_style() {
    assert_eq!(ScalarParser::process_plain_scalar("  null ".to_string()), "");
    assert_eq!(ScalarParser::process_plain_scalar(" word ".to_string()), "word");
    assert_eq!(ScalarParser::process_single_quoted("it''s ''''".to_string()), "it's ''");
    assert_eq!(ScalarParser::process_double_quoted("a\\x41\\u00e9\\n".to_string()).unwrap(), "aAé\n");
    let e = ScalarParser::process_double_quoted("bad\\q".to_string()).unwrap_err();
    assert_eq!(e.message, "invalid escape sequence: \\q");
    let e = ScalarParser::process_double_quoted("end\\".to_string()).unwrap_err();
    assert_eq!(e.kind, ParseErrorKind::UnexpectedEndOfInput);
    let e = ScalarParser::process_double_quoted("\\u12".to_string()).unwrap_err();
    assert_eq!(e.message, "incomplete hex escape sequence");
    let e = ScalarParser::process_double_quoted("\\xZ1".to_string()).unwrap_err();
    assert_eq!(e.message, "invalid hex digit in escape sequence: Z");
    let e = ScalarParser::process_double_quoted("\\uD800".to_string()).unwrap_err();
    assert_eq!(e.message, "invalid Unicode code point");
    assert_eq!(ScalarParser::process_literal_scalar("  a\n    b\n\n  c\n".to_string()), "a\n  b\n\nc");
    assert_eq!(ScalarParser::process_folded_scalar("a\nb\n\nc\n".to_string()), "a b\n\nc");
    assert_eq!(ScalarParser::process_folded_scalar("a\n  more\nb".to_string()), "a\n  more\nb");
}

#[test]
fn scalars_integers() {
    assert_eq!(ScalarParser::parse_integer("-0x10").unwrap(), -16);
    assert_eq!(ScalarParser::parse_integer("+0b101").unwrap(), 5);
    assert_eq!(ScalarParser::parse_integer("0o17").unwrap(), 15);
    assert_eq!(ScalarParser::parse_integer("9223372036854775807").unwrap(), i64::MAX);
    let e = ScalarParser::parse_integer("12a").unwrap_err();
    assert_eq!(e.message, "invalid integer value: 12a");
    let e = ScalarParser::parse_integer("").unwrap_err();
    assert_eq!(e.message, "empty integer value");
}

#[test]
fn scalars_parse_scalar_token() {
    let token = Token {
        kind: TokenKind::Scalar { value: "'a''b'".to_string(), style: ScalarStyle::SingleQuoted, tag: None },
        position: pos(),
        length: 6,
    };
    match ScalarParser::parse_scalar(token, &ParseContext::BlockIn(0)).unwrap() {
        Node::Scalar(s) => assert_eq!(s.value, "'a'b'"),
        _ => panic!("expected a scalar"),
    }
    let token = Token { kind: TokenKind::FlowEntry, position: pos(), length: 1 };
    let e = ScalarParser::parse_scalar(token, &ParseContext::BlockIn(0)).unwrap_err();
    assert_eq!(e.message, "expected scalar token, found: FlowEntry");
}

#[test]
fn null_node_keeps_position() {
    let n = NullNode::new(Position::new(2, 3, 9));
    assert_eq!(n.position, Position::new(2, 3, 9));
}
