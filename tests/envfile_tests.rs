use gemini_bridge::envfile::{env_lines, parse_env, parse_env_line};

#[test]
fn env_lines_split_and_drop_cr() {
    assert_eq!(env_lines("a=1\r\nb=2\n\nc"), vec!["a=1", "b=2", "", "c"]);
    assert!(env_lines("").is_empty());
}

#[test]
fn env_line_forms() {
    assert_eq!(
        parse_env_line("  KEY = \"value\"  "),
        Some(("KEY".to_string(), "value".to_string()))
    );
    assert_eq!(parse_env_line("# comment=1"), None);
    assert_eq!(parse_env_line("   "), None);
    assert_eq!(parse_env_line("novalue"), None);
    assert_eq!(parse_env_line("A='x=y'"), Some(("A".to_string(), "x=y".to_string())));
    assert_eq!(parse_env_line("B=\"'q'\""), Some(("B".to_string(), "q".to_string())));
    assert_eq!(parse_env_line("C=\"\""), Some(("C".to_string(), String::new())));
}

#[test]
fn env_file_pairs_in_order() {
    let text = "# keys\nGEMINI_API_KEY=abc\r\n\nOLLAMA = 'http://x'\nbad line\n";
    assert_eq!(
        parse_env(text),
        vec![
            ("GEMINI_API_KEY".to_string(), "abc".to_string()),
            ("OLLAMA".to_string(), "http://x".to_string()),
        ]
    );
}
