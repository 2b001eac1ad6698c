use gemini_bridge::agent::{
    exit_event, validate_objective, ExitReport, Multiplexer, ObjectiveError, ProcessEvent,
};
use gemini_bridge::command::{
    combine_output, dangerous_patterns, find_dangerous_pattern, first_contained, get_bridge_path,
    get_memory_path,
    allowed_command_list, is_command_allowed,
};
use gemini_bridge::models::{get_model_score, model_names, sorted_model_names};

#[test]
fn one_stdout_line_then_success() {
    let mut mux = Multiplexer::new();
    let mut out = Vec::new();
    for ev in vec![
        ProcessEvent::StdoutLine("hello".to_string()),
        ProcessEvent::Exited(ExitReport::Success),
        ProcessEvent::StdoutClosed,
        ProcessEvent::StderrClosed,
    ] {
        if let Some(e) = mux.step(ev) {
            out.push((e.chunk, e.done));
        }
    }
    assert_eq!(
        out,
        vec![
            ("hello\n".to_string(), false),
            ("\n[SWARM COMPLETED SUCCESSFULLY]\n".to_string(), true)
        ]
    );
}

#[test]
fn terminal_waits_for_both_streams_and_comes_once() {
    let mut mux = Multiplexer::new();
    assert!(mux.step(ProcessEvent::StderrClosed).is_none());
    assert!(mux.step(ProcessEvent::Exited(ExitReport::Code(Some(3)))).is_none());
    let e = mux.step(ProcessEvent::StderrLine("oops".to_string())).unwrap();
    assert_eq!(e.chunk, "[ERR] oops\n");
    assert!(!e.done);
    let t = mux.step(ProcessEvent::StdoutClosed).unwrap();
    assert!(t.done);
    assert_eq!(t.chunk, "\n[SWARM EXITED WITH CODE: Some(3)]\n");
    assert!(mux.step(ProcessEvent::StdoutLine("late".to_string())).is_none());
    assert!(mux.step(ProcessEvent::StdoutClosed).is_none());
}

#[test]
fn exit_texts() {
    assert_eq!(
        exit_event(ExitReport::Code(Some(-1))).chunk,
        "\n[SWARM EXITED WITH CODE: Some(-1)]\n"
    );
    assert_eq!(exit_event(ExitReport::Code(None)).chunk, "\n[SWARM EXITED WITH CODE: None]\n");
    assert_eq!(
        exit_event(ExitReport::Failed("no such file".to_string())).chunk,
        "\n[SWARM ERROR: no such file]\n"
    );
}

#[test]
fn objective_checks() {
    assert_eq!(validate_objective(&"build a website".to_string()), Ok(()));
    assert_eq!(
        validate_objective(&"a; b | c".to_string()),
        Err(ObjectiveError::ForbiddenChar('|'))
    );
    assert_eq!(
        validate_objective(&"line\nbreak".to_string()),
        Err(ObjectiveError::ForbiddenChar('\n'))
    );
    assert_eq!(validate_objective(&"x".repeat(1000)), Ok(()));
    assert_eq!(validate_objective(&"x".repeat(1001)), Err(ObjectiveError::TooLong));
    assert_eq!(validate_objective(&"é".repeat(501)), Err(ObjectiveError::TooLong));
    assert_eq!(validate_objective(&"é".repeat(500)), Ok(()));
}

#[test]
fn model_scores() {
    assert_eq!(get_model_score("gemini-1.5-pro-latest"), 160);
    assert_eq!(get_model_score("gemini-1.5-flash"), 0);
    assert_eq!(get_model_score("gemini-ultra"), 200);
    assert_eq!(get_model_score("plain"), 0);
}

#[test]
fn model_names_lose_prefix() {
    let names = vec!["models/gemini-pro".to_string(), "other".to_string()];
    assert_eq!(model_names(&names), vec!["gemini-pro".to_string(), "other".to_string()]);
}

#[test]
fn sorted_names_keep_generative_by_score() {
    let names = vec![
        "models/a-flash:generateContent".to_string(),
        "models/embedding".to_string(),
        "models/b-pro:generateContent".to_string(),
        "models/c:generateContent".to_string(),
        "models/d-ultra:generateContent".to_string(),
        "models/e:generateContent".to_string(),
    ];
    assert_eq!(
        sorted_model_names(&names),
        vec![
            "d-ultra:generateContent".to_string(),
            "b-pro:generateContent".to_string(),
            "c:generateContent".to_string(),
            "e:generateContent".to_string(),
            "a-flash:generateContent".to_string(),
        ]
    );
}

#[test]
fn dangerous_commands_are_found() {
    let pats = dangerous_patterns();
    assert_eq!(find_dangerous_pattern(&"git status".to_string(), &pats), None);
    assert_eq!(find_dangerous_pattern(&"echo a > b".to_string(), &pats), Some(5));
    assert_eq!(find_dangerous_pattern(&"REMOVE-ITEM x".to_string(), &pats), Some(12));
    assert_eq!(find_dangerous_pattern(&"dir | more".to_string(), &pats), Some(7));
}

#[test]
fn command_output_is_combined() {
    assert_eq!(combine_output("out".to_string(), "err".to_string()), "out\n[STDERR]: err");
    assert_eq!(combine_output(String::new(), "err".to_string()), "[STDERR]: err");
    assert_eq!(combine_output("out".to_string(), String::new()), "out");
}

#[test]
fn store_paths() {
    assert_eq!(get_bridge_path(&"/opt/app".to_string()), "/opt/app/bridge.json");
    assert_eq!(get_memory_path(&"/opt/app/".to_string()), "/opt/app/agent_memory.json");
    assert_eq!(get_bridge_path(&String::new()), "bridge.json");
}

#[test]
fn first_contained_pattern_wins() {
    let text: Vec<char> = "echo a; rm x".chars().collect();
    let pats: Vec<Vec<char>> = vec!["rm ".chars().collect(), ";".chars().collect()];
    assert_eq!(first_contained(&text, &pats), Some(0));
    let none: Vec<Vec<char>> = vec!["zz".chars().collect()];
    assert_eq!(first_contained(&text, &none), None);
}

#[test]
fn allowlist_is_an_exact_lookup() {
    assert!(is_command_allowed("git status"));
    assert!(is_command_allowed("Get-Date"));
    assert!(is_command_allowed("pip list"));
    assert!(!is_command_allowed("rm -rf /"));
    assert!(!is_command_allowed("git status --short"));
    assert!(!is_command_allowed("get-date"));
    assert!(!is_command_allowed(""));
    assert_eq!(allowed_command_list().len(), 29);
}
