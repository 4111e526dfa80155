use yyaml::lexer::unicode::chars;
use yyaml::lexer::unicode::normalization;
use yyaml::lexer::unicode::UnicodeProcessor;
use yyaml::parser::character_productions::CharacterProductions;

#[test]
fn test_escape_processing() {
    assert_eq!(
        UnicodeProcessor::process_escapes("hello\\nworld").unwrap(),
        "hello\nworld".to_string()
    );
    assert_eq!(
        UnicodeProcessor::process_escapes("no escapes").unwrap(),
        "no escapes".to_string()
    );
    assert_eq!(
        UnicodeProcessor::process_escapes("\\u0041").unwrap(),
        "A".to_string()
    );
}

#[test]
fn test_character_classification() {
    assert!(chars::is_break('\n'));
    assert!(chars::is_break('\r'));
    assert!(!chars::is_break(' '));

    assert!(chars::is_space(' '));
    assert!(chars::is_space('\t'));
    assert!(!chars::is_space('\n'));

    assert!(chars::can_start_plain_scalar('a'));
    assert!(!chars::can_start_plain_scalar('['));
}

#[test]
fn test_line_ending_normalization() {
    assert_eq!(
        normalization::normalize_line_endings("line1\r\nline2\r\nline3"),
        "line1\nline2\nline3".to_string()
    );
    assert_eq!(
        normalization::normalize_line_endings("line1\nline2\nline3"),
        "line1\nline2\nline3".to_string()
    );
}

#[test]
fn test_character_productions_delegation() {
    assert!(CharacterProductions::is_printable('A'));
    assert!(CharacterProductions::is_white(' '));
    assert!(CharacterProductions::is_break('\n'));
    assert!(!CharacterProductions::is_ns_char(' '));
    assert!(CharacterProductions::is_ns_char('A'));
}

#[test]
fn test_escape_sequence_consolidation() {
    let result = CharacterProductions::process_escape_sequences("hello\\nworld");
    match result {
        Ok(processed) => assert_eq!(processed, "hello\nworld"),
        Err(_) => panic!("Expected successful escape processing"),
    }
}

#[test]
fn test_nb_json_compatibility() {
    assert!(CharacterProductions::is_nb_json('\t'));
    assert!(CharacterProductions::is_nb_json('A'));
    assert!(CharacterProductions::is_nb_json('€'));
    assert!(!CharacterProductions::is_nb_json('\x00'));
    assert!(!CharacterProductions::is_nb_json('\x1F'));
}
