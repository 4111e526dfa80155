use yyaml::emitter::{YamlEmitter, need_quotes, escape_str, is_float_text};
use yyaml::linked_hash_map::LinkedHashMap;
use yyaml::yaml::Yaml;

fn emit(y: &Yaml) -> String {
    let mut e = YamlEmitter::new();
    assert!(e.emit(y).is_ok());
    e.output().to_string()
}

#[test]
fn emitter_scalars() {
    assert_eq!(emit(&Yaml::Integer(-42)), "-42");
    assert_eq!(emit(&Yaml::Integer(i64::MIN)), "-9223372036854775808");
    assert_eq!(emit(&Yaml::Boolean(true)), "true");
    assert_eq!(emit(&Yaml::Null), "~");
    assert_eq!(emit(&Yaml::BadValue), "~");
    assert_eq!(emit(&Yaml::Real("3.5".to_string())), "3.5");
    assert_eq!(emit(&Yaml::String("plain".to_string())), "plain");
    assert_eq!(emit(&Yaml::Alias(3)), "");
}

#[test]
fn emitter_quotes_strings_that_need_them() {
    assert_eq!(emit(&Yaml::String("".to_string())), "\"\"");
    assert_eq!(emit(&Yaml::String("42".to_string())), "\"42\"");
    assert_eq!(emit(&Yaml::String("true".to_string())), "\"true\"");
    assert_eq!(emit(&Yaml::String("1e5".to_string())), "\"1e5\"");
    assert_eq!(emit(&Yaml::String("a\"b\n".to_string())), "\"a\\\"b\\n\"");
    assert_eq!(emit(&Yaml::String("\u{1}".to_string())), "\"\\u0001\"");
}

#[test]
fn emitter_need_quotes_cases() {
    assert!(need_quotes(" lead"));
    assert!(need_quotes("trail "));
    assert!(need_quotes("null"));
    assert!(need_quotes("-dash"));
    assert!(need_quotes("a,b"));
    assert!(need_quotes("inf"));
    assert!(need_quotes("-NaN"));
    assert!(need_quotes(".5"));
    assert!(!need_quotes("hello world"));
    assert!(!need_quotes("1.2.3"));
    assert!(is_float_text(&['1', 'e', '-', '3']));
    assert!(!is_float_text(&['e', '3']));
    assert!(!is_float_text(&['.']));
}

#[test]
fn emitter_escape_str_writes_quoted_text() {
    let mut out = String::from("x=");
    escape_str(&mut out, "tab\there\\");
    assert_eq!(out, "x=\"tab\\there\\\\\"");
}

#[test]
fn emitter_block_sequence_and_mapping() {
    let seq = Yaml::Array(vec![Yaml::Integer(1), Yaml::String("two".to_string())]);
    assert_eq!(emit(&seq), "- 1\n- two");
    let mut h = LinkedHashMap::new();
    h.insert(Yaml::String("a".to_string()), Yaml::Integer(1));
    h.insert(Yaml::String("b".to_string()), Yaml::Array(vec![Yaml::Integer(2), Yaml::Integer(3)]));
    let map = Yaml::Hash(h);
    assert_eq!(emit(&map), "a: 1\nb: \n  - 2\n  - 3");
    assert_eq!(emit(&Yaml::Array(vec![])), "[]");
    assert_eq!(emit(&Yaml::Hash(LinkedHashMap::new())), "{}");
}

#[test]
fn emitter_nested_compact_sequence() {
    let inner = Yaml::Array(vec![Yaml::Integer(1), Yaml::Integer(2)]);
    let outer = Yaml::Array(vec![inner, Yaml::Integer(3)]);
    assert_eq!(emit(&outer), "- - 1\n  - 2\n- 3");
}

#[test]
fn emitter_complex_key() {
    let mut h = LinkedHashMap::new();
    h.insert(Yaml::Array(vec![Yaml::Integer(1)]), Yaml::String("v".to_string()));
    assert_eq!(emit(&Yaml::Hash(h)), "? - 1\n: v");
}

#[test]
fn emitter_dump_writes_document_marker() {
    let mut e = YamlEmitter::new();
    assert!(e.dump(&Yaml::Integer(7)).is_ok());
    assert_eq!(e.output(), "---\n7");
}

#[test]
fn emitter_indent_step() {
    let mut h = LinkedHashMap::new();
    let mut inner = LinkedHashMap::new();
    inner.insert(Yaml::String("c".to_string()), Yaml::Integer(1));
    h.insert(Yaml::String("k".to_string()), Yaml::Hash(inner));
    let mut e = YamlEmitter::new();
    e.best_indent = 4;
    assert!(e.emit(&Yaml::Hash(h)).is_ok());
    assert_eq!(e.output(), "k: \n    c: 1");
}
