use deet::parse::{interpret_break_token, parse_address, parse_command, parse_decimal, str_eq,
    DebuggerCommand};

#[test]
fn decimal_basics() {
    assert_eq!(parse_decimal("0"), Some(0));
    assert_eq!(parse_decimal("123"), Some(123));
    assert_eq!(parse_decimal("9999"), Some(9999));
    assert_eq!(parse_decimal(""), None);
    assert_eq!(parse_decimal("12a"), None);
    assert_eq!(parse_decimal("-3"), None);
    assert_eq!(parse_decimal("99999999999999999999999999"), None);
}

#[test]
fn hex_address_basics() {
    assert_eq!(parse_address("1f"), Some(0x1f));
    assert_eq!(parse_address("0x1F"), Some(0x1f));
    assert_eq!(parse_address("0X10"), Some(0x10));
    assert_eq!(parse_address("400000"), Some(0x400000));
    assert_eq!(parse_address("0x"), None);
    assert_eq!(parse_address(""), None);
    assert_eq!(parse_address("zz"), None);
}

#[test]
fn break_token_resolution_order() {
    // A *-prefixed literal address wins outright, resolver answers unused.
    assert_eq!(interpret_break_token("*0x400123", Some(1), Some(2)), Some(0x400123));
    assert_eq!(interpret_break_token("*400123", None, None), Some(0x400123));
    // A malformed literal address resolves to nothing at all.
    assert_eq!(interpret_break_token("*zz", Some(1), Some(2)), None);
    // A numeric token is a line; the line answer wins over the function answer.
    assert_eq!(interpret_break_token("9999", Some(0x1000), Some(0x2000)), Some(0x1000));
    // ... and falls back to the function answer when no line matches.
    assert_eq!(interpret_break_token("9999", None, Some(0x2000)), Some(0x2000));
    assert_eq!(interpret_break_token("9999", None, None), None);
    // Anything else is a function name.
    assert_eq!(interpret_break_token("main", None, Some(0x1234)), Some(0x1234));
    assert_eq!(interpret_break_token("main", None, None), None);
}

#[test]
fn command_words_and_aliases() {
    let toks = |v: &[&str]| v.iter().map(|s| s.to_string()).collect::<Vec<String>>();
    match parse_command(&toks(&["run", "a", "b"])) {
        Some(DebuggerCommand::Run(args)) => assert_eq!(args, vec!["a".to_string(), "b".to_string()]),
        other => panic!("expected run command, got {:?}", other),
    }
    match parse_command(&toks(&["r"])) {
        Some(DebuggerCommand::Run(args)) => assert!(args.is_empty()),
        other => panic!("expected run command, got {:?}", other),
    }
    assert!(matches!(parse_command(&toks(&["continue"])), Some(DebuggerCommand::Continue)));
    assert!(matches!(parse_command(&toks(&["c"])), Some(DebuggerCommand::Continue)));
    assert!(matches!(parse_command(&toks(&["backtrace"])), Some(DebuggerCommand::BackTrace)));
    assert!(matches!(parse_command(&toks(&["bt"])), Some(DebuggerCommand::BackTrace)));
    assert!(matches!(parse_command(&toks(&["quit"])), Some(DebuggerCommand::Quit)));
    assert!(matches!(parse_command(&toks(&["q"])), Some(DebuggerCommand::Quit)));
    match parse_command(&toks(&["break", "9999"])) {
        Some(DebuggerCommand::Break(spec)) => assert_eq!(spec, "9999"),
        other => panic!("expected break command, got {:?}", other),
    }
    assert!(parse_command(&toks(&["break"])).is_none());
    assert!(parse_command(&toks(&["flee"])).is_none());
    assert!(parse_command(&toks(&[])).is_none());
}

#[test]
fn str_eq_behaves_like_equality() {
    assert!(str_eq("", ""));
    assert!(str_eq("main", "main"));
    assert!(!str_eq("main", "mai"));
    assert!(!str_eq("main", "mainx"));
    assert!(!str_eq("main", "maIn"));
}
