use yyaml::debug_render::{escape_error_text, token_kind_text, yaml_debug_text};
use yyaml::lexer::unicode::EscapeError;
use yyaml::lexer::{ScalarStyle, TokenKind};
use yyaml::linked_hash_map::LinkedHashMap;
use yyaml::parser::grammar::ChompingMode;
use yyaml::parser::loader::YamlLoader;
use yyaml::parser::scalars::{ScalarParser, ScalarType};
use yyaml::parser::CharacterProductions;
use yyaml::scanner::scalars::apply_block_scalar_folding;
use yyaml::yaml::Yaml;

fn float_text(s: &str) -> Option<String> {
    s.parse::<f64>().ok().map(|f| f.to_string())
}

#[test]
fn fast_path_reads_a_one_item_sequence() {
    let r = YamlLoader::try_fast_parse("- item", &float_text).unwrap();
    assert_eq!(r, Some(Yaml::Array(vec![Yaml::String("item".to_string())])));
}

#[test]
fn fast_path_reads_each_sequence_entry() {
    let r = YamlLoader::try_fast_parse("- a\n- b", &float_text).unwrap();
    assert_eq!(r, Some(Yaml::Array(vec![Yaml::String("a".to_string()), Yaml::String("b".to_string())])));
    let r = YamlLoader::try_fast_parse("- 1\n- 2\n- 3", &float_text).unwrap();
    assert_eq!(r, Some(Yaml::Array(vec![Yaml::Integer(1), Yaml::Integer(2), Yaml::Integer(3)])));
}

#[test]
fn load_reads_a_sequence() {
    let docs = YamlLoader::load_from_str("- a\n- b\n", float_text).unwrap();
    assert_eq!(docs, vec![Yaml::Array(vec![Yaml::String("a".to_string()), Yaml::String("b".to_string())])]);
}

#[test]
fn nb_json_excludes_c1_controls() {
    assert!(!CharacterProductions::is_nb_json('\u{81}'));
    assert!(!CharacterProductions::is_nb_json('\u{9f}'));
    assert!(CharacterProductions::is_nb_json('\u{a0}'));
}

#[test]
fn clip_keeps_one_trailing_line_feed() {
    let lines = vec!["a".to_string(), "".to_string(), "".to_string()];
    assert_eq!(apply_block_scalar_folding(&lines, ChompingMode::Clip, true), "a\n");
    assert_eq!(apply_block_scalar_folding(&lines, ChompingMode::Keep, true), "a\n\n");
    assert_eq!(apply_block_scalar_folding(&lines, ChompingMode::Strip, true), "a");
}

#[test]
fn integers_are_ascii_digits() {
    assert_eq!(ScalarParser::infer_type("\u{b2}"), ScalarType::String);
    assert_eq!(ScalarParser::infer_type("42"), ScalarType::Integer);
}

#[test]
fn escape_error_rendering_matches_debug() {
    for e in [
        EscapeError::InvalidEscape('q'),
        EscapeError::InvalidHexDigit('\n'),
        EscapeError::InvalidUnicode(55296),
        EscapeError::UnterminatedEscape,
        EscapeError::UnexpectedEndOfInput,
    ] {
        assert_eq!(escape_error_text(&e), format!("{:?}", e));
    }
}

#[test]
fn token_kind_rendering_matches_debug() {
    let kinds = vec![
        TokenKind::StreamStart,
        TokenKind::Scalar { value: "a \"b\"".to_string(), style: ScalarStyle::DoubleQuoted, tag: Some("!t".to_string()) },
        TokenKind::Scalar { value: "x".to_string(), style: ScalarStyle::Plain, tag: None },
        TokenKind::Anchor("an".to_string()),
        TokenKind::Tag { handle: None, suffix: "str".to_string() },
        TokenKind::YamlDirective { major: 1, minor: 2 },
        TokenKind::TagDirective { handle: "!!".to_string(), prefix: "tag:x".to_string() },
        TokenKind::ReservedDirective { name: "FOO".to_string(), value: "bar".to_string() },
        TokenKind::Indent(4),
        TokenKind::Dedent(2),
        TokenKind::Error("bad\tthing".to_string()),
    ];
    for k in kinds {
        assert_eq!(token_kind_text(&k), format!("{:?}", k));
    }
}

#[test]
fn yaml_rendering_matches_debug() {
    let mut h = LinkedHashMap::new();
    h.insert(Yaml::String("k".to_string()), Yaml::Integer(-7));
    h.insert(Yaml::Integer(i64::MIN), Yaml::Array(vec![Yaml::Null, Yaml::Boolean(true)]));
    let ys = vec![
        Yaml::Real("1.5".to_string()),
        Yaml::Hash(h),
        Yaml::Hash(LinkedHashMap::new()),
        Yaml::Array(vec![]),
        Yaml::Alias(3),
        Yaml::BadValue,
        Yaml::Tagged("!x".to_string(), Box::new(Yaml::String("v\n".to_string()))),
    ];
    for y in ys {
        assert_eq!(yaml_debug_text(&y), format!("{:?}", y));
    }
}
