use yyaml::lexer::{Position, PositionTracker};
use yyaml::parser::block::{block_mapping_key, block_mapping_value, block_sequence_entry};
use yyaml::parser::grammar::context_stack::ContextStack;
use yyaml::parser::grammar::ParseContext;
use yyaml::parser::state_machine::{State, StateMachine};
use yyaml::{Event, TScalarStyle};

fn float_text(s: &str) -> Option<String> {
    s.parse::<f64>().ok().map(|f| f.to_string())
}

fn started(src: &str) -> StateMachine<fn(&str) -> Option<String>> {
    let mut sm: StateMachine<fn(&str) -> Option<String>> = StateMachine::new(src, float_text);
    let _ = sm.scanner.fetch_token();
    sm
}

#[test]
fn node_alias_to_unknown_anchor_keeps_anchors() {
    let mut sm = started("*a");
    sm.states.push(State::End);
    let (ev, _) = sm.parse_node(true, false).unwrap();
    assert_eq!(ev, Event::Alias(9999999));
    assert!(sm.anchors.is_empty());
    assert_eq!(sm.anchor_id, 1);
    assert_eq!(sm.state, State::End);
}

#[test]
fn node_block_scalar_before_colon_starts_mapping() {
    let mut sm = started("key: v");
    let (ev, mk) = sm.parse_node(true, false).unwrap();
    assert_eq!(ev, Event::MappingStart(0));
    assert_eq!(mk.index, 0);
    assert_eq!(sm.state, State::BlockMappingFirstKey);
    match &sm.first_mapping_key {
        Some((Event::Scalar(v, st, a, t), m)) => {
            assert_eq!(v.as_str(), "key");
            assert_eq!(*st, TScalarStyle::Plain);
            assert_eq!(*a, 0);
            assert!(t.is_none());
            assert_eq!(m.index, 0);
        },
        _ => panic!("first key missing"),
    }
}

#[test]
fn mapping_value_with_anchor_gets_registered_id() {
    let mut sm = started("k: &x v");
    let _ = sm.parse_node(true, false).unwrap();
    let (key, _) = block_mapping_key(&mut sm, true).unwrap();
    assert_eq!(key, Event::Scalar("k".to_string(), TScalarStyle::Plain, 0, None));
    assert!(sm.first_mapping_key.is_none());
    let (value, _) = block_mapping_value(&mut sm).unwrap();
    assert_eq!(sm.anchors.len(), 1);
    assert_eq!(sm.anchors[0].0.as_str(), "x");
    let id = sm.anchors[0].1;
    assert_eq!(value, Event::Scalar("v".to_string(), TScalarStyle::Plain, id, None));
    assert_eq!(sm.state, State::BlockMappingKey);
}

#[test]
fn mapping_value_without_colon_is_empty_and_leaves_token() {
    let mut sm = started("k");
    let (value, mk) = block_mapping_value(&mut sm).unwrap();
    assert_eq!(value, Event::Scalar("~".to_string(), TScalarStyle::Plain, 0, None));
    assert_eq!(mk, sm.scanner.mark());
    assert_eq!(sm.state, State::BlockMappingKey);
    assert!(sm.scanner.token_waiting());
}

#[test]
fn sequence_entry_ends_at_other_token_and_leaves_it() {
    let mut sm = started("x");
    sm.indents.push(0);
    sm.states.push(State::BlockMappingKey);
    let (ev, mk) = block_sequence_entry(&mut sm, false).unwrap();
    assert_eq!(ev, Event::SequenceEnd);
    assert_eq!(mk, sm.scanner.mark());
    assert!(sm.indents.is_empty());
    assert_eq!(sm.state, State::BlockMappingKey);
    assert!(sm.scanner.token_waiting());
}

#[test]
fn advancing_in_two_steps_equals_one() {
    let mut a = Position::start();
    a.advance_str("ab");
    a.advance_str("c\nd");
    let mut b = Position::start();
    b.advance_str("abc\nd");
    assert_eq!(a, b);
    assert_eq!(b.line, 2);
    assert_eq!(b.column, 2);
}

#[test]
fn reset_returns_to_mark() {
    let mut t = PositionTracker::new();
    t.advance_str("x");
    let at = t.current();
    t.mark();
    t.advance_str("yz\nw");
    assert!(t.reset());
    assert_eq!(t.current(), at);
    assert_eq!(t.mark_count(), 0);
}

#[test]
fn context_stack_keeps_document_at_bottom() {
    let mut s = ContextStack::new();
    s.push(ParseContext::BlockIn(2));
    s.push(ParseContext::FlowIn(1));
    assert_eq!(s.pop(), Some(ParseContext::FlowIn(1)));
    assert_eq!(s.pop(), Some(ParseContext::BlockIn(2)));
    assert_eq!(s.pop(), None);
    assert_eq!(*s.current(), ParseContext::Document);
    assert_eq!(s.depth(), 1);
}
