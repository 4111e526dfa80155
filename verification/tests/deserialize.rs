use yyaml::deserialize::{fits_signed, fits_unsigned, integer_visit, scalar_as_text, single_char, IntegerVisit};
use yyaml::lexer::unicode::{EscapeStyle, UnicodeProcessor};
use yyaml::parser::scalars::ScalarParser;
use yyaml::yaml::Yaml;

#[test]
fn deserialize_integer_widths() {
    assert_eq!(integer_visit(-1), IntegerVisit::I8);
    assert_eq!(integer_visit(-129), IntegerVisit::I16);
    assert_eq!(integer_visit(-40000), IntegerVisit::I32);
    assert_eq!(integer_visit(i64::MIN), IntegerVisit::I64);
    assert_eq!(integer_visit(0), IntegerVisit::U8);
    assert_eq!(integer_visit(256), IntegerVisit::U16);
    assert_eq!(integer_visit(70000), IntegerVisit::U32);
    assert_eq!(integer_visit(1 << 40), IntegerVisit::U64);
}

#[test]
fn deserialize_range_checks() {
    assert!(fits_signed(127, 8));
    assert!(!fits_signed(128, 8));
    assert!(fits_signed(-32768, 16));
    assert!(!fits_signed(1 << 31, 32));
    assert!(fits_unsigned(255, 8));
    assert!(!fits_unsigned(-1, 64));
    assert!(fits_unsigned(i64::MAX, 64));
    assert!(!fits_unsigned(65536, 16));
}

#[test]
fn deserialize_scalar_text_and_chars() {
    assert_eq!(scalar_as_text(&Yaml::Integer(-7)), Some("-7".to_string()));
    assert_eq!(scalar_as_text(&Yaml::Boolean(false)), Some("false".to_string()));
    assert_eq!(scalar_as_text(&Yaml::Null), Some(String::new()));
    assert_eq!(scalar_as_text(&Yaml::Real("1.5".to_string())), Some("1.5".to_string()));
    assert_eq!(scalar_as_text(&Yaml::Array(vec![])), None);
    assert_eq!(single_char("é"), Some('é'));
    assert_eq!(single_char("ab"), None);
    assert_eq!(single_char(""), None);
}

#[test]
fn law_escape_then_unescape_gives_text_back() {
    for text in ["plain", "tab\tand\nline", "quote\" back\\slash", "\u{1}\u{7f}\u{85}\u{2028}", ""] {
        let quoted = UnicodeProcessor::escape_string(text, EscapeStyle::DoubleQuoted);
        let body = &quoted[1..quoted.len() - 1];
        assert_eq!(UnicodeProcessor::process_escapes(body).unwrap(), text);
    }
}

#[test]
fn law_single_quote_then_unquote_gives_text_back() {
    for text in ["it's", "''", "none", ""] {
        let quoted = UnicodeProcessor::escape_string(text, EscapeStyle::SingleQuoted);
        let body = quoted[1..quoted.len() - 1].to_string();
        assert_eq!(ScalarParser::process_single_quoted(body), text);
    }
}
