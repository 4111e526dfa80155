use yyaml::scanner::Scanner;
use yyaml::{TScalarStyle, TokenType};

fn kinds(src: &str) -> Vec<(usize, TokenType)> {
    let mut sc = Scanner::new(src);
    let mut out = Vec::new();
    loop {
        let t = sc.peek_token().unwrap();
        let done = matches!(t.1, TokenType::StreamEnd);
        out.push((t.0.index, t.1.clone()));
        let _ = sc.fetch_token();
        if done {
            break;
        }
    }
    out
}

#[test]
fn scanner_tokens_of_a_mapping() {
    assert_eq!(
        kinds("key: value"),
        vec![
            (0, TokenType::StreamStart(yyaml::TEncoding::Utf8)),
            (0, TokenType::Scalar(TScalarStyle::Plain, "key".to_string())),
            (3, TokenType::Value),
            (5, TokenType::Scalar(TScalarStyle::Plain, "value".to_string())),
            (10, TokenType::StreamEnd),
        ]
    );
}

#[test]
fn scanner_plain_scalar_folds_indented_line() {
    let toks = kinds("a b\n  c");
    assert_eq!(toks[1], (0, TokenType::Scalar(TScalarStyle::Plain, "a b c".to_string())));
    assert_eq!(toks[2].1, TokenType::StreamEnd);
}

#[test]
fn scanner_plain_scalar_stops_at_colon_and_comment() {
    let toks = kinds("a #c\n");
    assert_eq!(toks[1], (0, TokenType::Scalar(TScalarStyle::Plain, "a".to_string())));
    let mut sc = Scanner::new("- [x, y]");
    let _ = sc.fetch_token();
    assert_eq!(sc.fetch_token().1, TokenType::BlockEntry);
    assert_eq!(sc.fetch_token().1, TokenType::FlowSequenceStart);
    assert_eq!(sc.fetch_token().1, TokenType::Scalar(TScalarStyle::Plain, "x".to_string()));
    assert_eq!(sc.fetch_token().1, TokenType::FlowEntry);
    assert_eq!(sc.fetch_token().1, TokenType::Scalar(TScalarStyle::Plain, "y".to_string()));
    assert_eq!(sc.fetch_token().1, TokenType::FlowSequenceEnd);
    assert_eq!(sc.fetch_token().1, TokenType::StreamEnd);
}

#[test]
fn scanner_tab_before_token_is_an_error() {
    let mut sc = Scanner::new("\tx");
    let _ = sc.fetch_token();
    let e = sc.peek_token().unwrap_err();
    assert_eq!(e.info, "tabs are not allowed in YAML, use spaces for indentation");
    assert_eq!(e.mark.index, 0);
}

#[test]
fn scanner_anchor_and_alias_names() {
    let mut sc = Scanner::new("&a1 *a1");
    let _ = sc.fetch_token();
    assert_eq!(sc.fetch_token().1, TokenType::Anchor("a1".to_string()));
    assert_eq!(sc.fetch_token().1, TokenType::Alias("a1".to_string()));
}
