use yyaml::parser::grammar::Context;
use yyaml::parser::state_machine::StateMachine;

fn float_text(s: &str) -> Option<String> {
    s.parse::<f64>().ok().map(|f| f.to_string())
}

#[test]
fn test_context_state_machine() {
    let yaml = r#"
outer:
  - item1  # BLOCK-IN at indent 2
  - key: value  # BLOCK-KEY at 4, BLOCK-IN at 7
    flow: [a, b]  # FLOW-IN inside []
"#;

    let mut sm = StateMachine::new(yaml, float_text);
    let result = sm.parse();
    assert!(result.is_ok());
}

#[test]
fn test_context_validation() {
    let yaml = "key: value";
    let mut sm = StateMachine::new(yaml, float_text);

    assert_eq!(sm.context.current_context, Context::BlockOut);
    assert_eq!(sm.context.current_indent(), 0);

    let result = sm.parse();
    assert!(result.is_ok());
}
