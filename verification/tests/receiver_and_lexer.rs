use yyaml::lexer::{Position, PositionTracker, Scanner, TokenKind, ScalarStyle};
use yyaml::linked_hash_map::LinkedHashMap;
use yyaml::parser::loader::YamlReceiver;
use yyaml::yaml::Yaml;
use yyaml::parser::scalars::{ScalarParser, ScalarType, ScalarValue};
use yyaml::{Event, EventReceiver, TScalarStyle};

fn float_text(s: &str) -> Option<String> {
    s.parse::<f64>().ok().map(|f| f.to_string())
}

fn plain(s: &str, aid: usize) -> Event {
    Event::Scalar(s.to_string(), TScalarStyle::Plain, aid, None)
}

#[test]
fn alias_inserts_copy_of_anchored_scalar() {
    let mut recv = YamlReceiver::new(float_text);
    recv.on_event(Event::DocumentStart);
    recv.on_event(Event::MappingStart(0));
    recv.on_event(plain("a", 0));
    recv.on_event(plain("x", 1));
    recv.on_event(plain("b", 0));
    recv.on_event(Event::Alias(1));
    recv.on_event(Event::MappingEnd);
    recv.on_event(Event::DocumentEnd);
    let mut h = LinkedHashMap::new();
    h.insert(Yaml::String("a".to_string()), Yaml::String("x".to_string()));
    h.insert(Yaml::String("b".to_string()), Yaml::String("x".to_string()));
    assert_eq!(recv.docs(), &vec![Yaml::Hash(h)]);
}

#[test]
fn non_plain_scalar_document_is_its_text() {
    let mut recv = YamlReceiver::new(float_text);
    recv.on_event(Event::DocumentStart);
    recv.on_event(Event::Scalar("123".to_string(), TScalarStyle::SingleQuoted, 0, None));
    recv.on_event(Event::DocumentEnd);
    assert_eq!(recv.docs(), &vec![Yaml::String("123".to_string())]);
}

#[test]
fn lexer_tokens_of_single_letter() {
    let mut sc = Scanner::new("a");
    let mut pt = PositionTracker::new();
    let t1 = sc.scan_token(&mut pt).unwrap();
    assert_eq!(t1.kind, TokenKind::StreamStart);
    assert_eq!(t1.position, Position::new(1, 1, 0));
    assert_eq!(t1.length, 0);
    let t2 = sc.scan_token(&mut pt).unwrap();
    assert_eq!(
        t2.kind,
        TokenKind::Scalar { value: "a".to_string(), style: ScalarStyle::Plain, tag: None }
    );
    assert_eq!(t2.position, Position::new(1, 1, 0));
    assert_eq!(t2.length, 1);
    let t3 = sc.scan_token(&mut pt).unwrap();
    assert_eq!(t3.kind, TokenKind::StreamEnd);
    assert_eq!(t3.position, Position::new(1, 2, 1));
    assert_eq!(t3.length, 0);
}

#[test]
fn lexer_single_indicator_token() {
    let mut sc = Scanner::new("[");
    let mut pt = PositionTracker::new();
    let _ = sc.scan_token(&mut pt).unwrap();
    let t = sc.scan_token(&mut pt).unwrap();
    assert_eq!(t.kind, TokenKind::FlowSequenceStart);
    assert_eq!(t.position, Position::new(1, 1, 0));
    assert_eq!(t.length, 1);
}

#[test]
fn advance_counts_lines_and_bytes() {
    let mut p = Position::start();
    p.advance_str("a\nbé\nc");
    assert_eq!(p.line, 3);
    assert_eq!(p.byte_offset, 7);
}

#[test]
fn string_keyed_map_keeps_distinct_keys_in_order() {
    let mut m = LinkedHashMap::new();
    assert_eq!(m.insert("k".to_string(), 1), None);
    assert_eq!(m.insert("j".to_string(), 2), None);
    assert_eq!(m.insert("k".to_string(), 3), Some(1));
    assert_eq!(m.len(), 2);
    assert_eq!(m.get(&"k".to_string()), Some(&3));
    let keys: Vec<String> = m.iter().into_iter().map(|(k, _)| k.clone()).collect();
    assert_eq!(keys, vec!["k", "j"]);
}

fn converted(text: &str, t: ScalarType) -> Option<ScalarValue> {
    match ScalarParser::convert_to_type(text.to_string(), t) {
        Some(Ok(v)) => Some(v),
        Some(Err(e)) => panic!("unexpected error: {}", e.message),
        None => None,
    }
}

#[test]
fn convert_scalar_to_target_types() {
    assert_eq!(converted(" yes ", ScalarType::Boolean), Some(ScalarValue::Boolean(true)));
    assert_eq!(converted("OFF", ScalarType::Boolean), Some(ScalarValue::Boolean(false)));
    match ScalarParser::convert_to_type("maybe".to_string(), ScalarType::Boolean) {
        Some(Err(e)) => assert_eq!(e.message, "cannot convert 'maybe' to boolean"),
        _ => panic!("expected an error"),
    }
    assert_eq!(converted(" 0x1F", ScalarType::Integer), Some(ScalarValue::Integer(31)));
    assert_eq!(converted("1.5", ScalarType::Float), None);
    assert_eq!(converted("x", ScalarType::Null), Some(ScalarValue::Null));
    assert_eq!(converted(" a ", ScalarType::String), Some(ScalarValue::String(" a ".to_string())));
}

#[test]
fn lexer_quoted_scalar_and_block_entry() {
    let mut sc = Scanner::new("'a''b'");
    let mut pt = PositionTracker::new();
    let _ = sc.scan_token(&mut pt).unwrap();
    let t = sc.scan_token(&mut pt).unwrap();
    assert_eq!(
        t.kind,
        TokenKind::Scalar { value: "a'b".to_string(), style: ScalarStyle::SingleQuoted, tag: None }
    );
    assert_eq!(t.position, Position::new(1, 1, 0));

    let mut sc2 = Scanner::new("- x");
    let mut pt2 = PositionTracker::new();
    let _ = sc2.scan_token(&mut pt2).unwrap();
    let e = sc2.scan_token(&mut pt2).unwrap();
    assert_eq!(e.kind, TokenKind::BlockEntry);
    assert_eq!(e.position, Position::new(1, 1, 0));
    assert_eq!(e.length, 1);
}
