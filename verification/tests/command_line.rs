use herdr_starship::cli::{parse_budget, poll_loop_interval, task_of, wants, Task};
use herdr_starship::command::CommandOutput;
use herdr_starship::config::HerdrConfig;
use herdr_starship::document::{read_json, Node};
use herdr_starship::fitter::Module;
use herdr_starship::modules::{
    collect_modules, column_width, default_modules, print_modules, refresh_report, render_line,
    resolve_modules,
};
use herdr_starship::number::{parse_u32, parse_u64, parse_usize, render};
use herdr_starship::starship::{invoke_module, invoke_prompt, AdapterError};
use herdr_starship::workspace::{
    config_path, extract_json_string, list_workspace_targets, list_workspaces, pane_cwd,
    pane_list_invocation, read_workspaces, resolve_pane_cwd, target_repo, user_config_path,
    workspace_list_invocation, workspace_target, ListFailure, Workspace,
};

fn output(success: bool, stdout: &str, stderr: &str) -> CommandOutput {
    CommandOutput {
        success,
        stdout: stdout.as_bytes().to_vec(),
        stderr: stderr.as_bytes().to_vec(),
    }
}

fn strings(list: &[&str]) -> Vec<String> {
    list.iter().map(|s| s.to_string()).collect()
}

#[test]
fn extract_json_string_finds_top_level_field() {
    let json = r#"{"workspace_id":"w1","workspace_cwd":"/tmp/repo","tab_id":"w1:t1"}"#;
    let result = extract_json_string(json, "workspace_cwd");

    assert_eq!(result, Some("/tmp/repo".to_string()));
}

#[test]
fn extract_json_string_returns_none_when_key_missing() {
    let json = r#"{"workspace_id":"w1"}"#;
    let result = extract_json_string(json, "workspace_cwd");

    assert_eq!(result, None);
}

#[test]
fn parse_budget_defaults_to_26_when_arg_and_config_missing() {
    let args = vec!["herdr-starship".to_string()];
    let result = parse_budget(&args, None);

    assert_eq!(result, 26);
}

#[test]
fn parse_budget_parses_provided_arg() {
    let args = vec!["herdr-starship".to_string(), "40".to_string()];
    let result = parse_budget(&args, None);

    assert_eq!(result, 40);
}

#[test]
fn parse_budget_uses_config_when_arg_absent() {
    let args = vec!["herdr-starship".to_string()];
    let result = parse_budget(&args, Some(50));

    assert_eq!(result, 50);
}

#[test]
fn parse_budget_arg_wins_over_config() {
    let args = vec!["herdr-starship".to_string(), "40".to_string()];
    let result = parse_budget(&args, Some(50));

    assert_eq!(result, 40);
}

#[test]
fn wants_push_true_when_flag_present() {
    let args = vec![
        "herdr-starship".to_string(),
        "26".to_string(),
        "--push".to_string(),
    ];
    let result = wants(&args, "--push");

    assert!(result);
}

#[test]
fn poll_loop_interval_parses_value_following_flag() {
    let args = vec![
        "herdr-starship".to_string(),
        "--poll-loop".to_string(),
        "5".to_string(),
    ];
    let result = poll_loop_interval(&args);

    assert_eq!(result, Some(5));
}

#[test]
fn poll_loop_interval_none_when_flag_absent() {
    let args = vec!["herdr-starship".to_string()];
    let result = poll_loop_interval(&args);

    assert_eq!(result, None);
}

#[test]
fn poll_loop_interval_none_when_value_missing_or_invalid() {
    let args = vec!["herdr-starship".to_string(), "--poll-loop".to_string()];
    assert_eq!(poll_loop_interval(&args), None);

    let args = vec![
        "herdr-starship".to_string(),
        "--poll-loop".to_string(),
        "notanumber".to_string(),
    ];
    assert_eq!(poll_loop_interval(&args), None);
}

#[test]
fn wants_push_false_when_flag_absent() {
    let args = vec!["herdr-starship".to_string(), "26".to_string()];
    let result = wants(&args, "--push");

    assert!(!result);
}

/// With no `$module` tokens in `rows`, returns the same 5 modules as before.
#[test]
fn resolve_modules_falls_back_to_defaults_when_no_module_tokens() {
    let herdr_config = HerdrConfig::default();
    let result = resolve_modules(&herdr_config);

    assert_eq!(
        result,
        ["directory", "git_branch", "git_status", "git_state", "rust"]
            .iter()
            .map(|s| s.to_string())
            .collect::<Vec<_>>()
    );
}

/// `$starship` must not count as a `$module` token, or users lose 4 tokens.
#[test]
fn resolve_modules_falls_back_to_defaults_when_only_starship_token_present() {
    let herdr_config = HerdrConfig {
        modules: vec!["starship".to_string()],
        sidebar_width: None,
        ..Default::default()
    };
    let result = resolve_modules(&herdr_config);

    assert_eq!(
        result,
        ["directory", "git_branch", "git_status", "git_state", "rust"]
            .iter()
            .map(|s| s.to_string())
            .collect::<Vec<_>>()
    );
}

/// A real `$module` token in `rows` drives discovery, excluding the reserved `"starship"` name.
#[test]
fn resolve_modules_uses_discovered_tokens_excluding_starship() {
    let herdr_config = HerdrConfig {
        modules: vec!["starship".to_string(), "aws".to_string()],
        sidebar_width: None,
        ..Default::default()
    };
    let result = resolve_modules(&herdr_config);

    assert_eq!(result, vec!["aws".to_string()]);
}

/// A field of the same name inside another object or a list does not count.
#[test]
fn extract_json_string_passes_over_nested_fields() {
    let json = r#"{"pane":{"cwd":"/a"},"cwd":"/b"}"#;
    assert_eq!(extract_json_string(json, "cwd"), Some("/b".to_string()));
    let json = r#"{"panes":[{"cwd":"/a"}],"cwd":"/b"}"#;
    assert_eq!(extract_json_string(json, "cwd"), Some("/b".to_string()));
    assert_eq!(extract_json_string(r#"{"pane":{"cwd":"/a"}}"#, "cwd"), None);
}

/// The text need not be an object, or whole.
#[test]
fn extract_json_string_finds_fields_in_bare_text() {
    assert_eq!(extract_json_string(r#""cwd":"/x""#, "cwd"), Some("/x".to_string()));
    assert_eq!(extract_json_string(r#"}, "cwd":"/x""#, "cwd"), Some("/x".to_string()));
    assert_eq!(extract_json_string(r#"{"a":{"cwd":"/n"}} "cwd":"/x""#, "cwd"), Some("/x".to_string()));
}

/// What stands inside a string is neither a field nor a bracket.
#[test]
fn extract_json_string_passes_over_strings() {
    let json = r#"{"title":"{[ \"cwd\":\"/a\" \\","cwd":"/b"}"#;
    assert_eq!(extract_json_string(json, "cwd"), Some("/b".to_string()));
    let json = r#"{"workspace":{"workspace_cwd":"/nested"},"workspace_cwd":"/top"}"#;
    assert_eq!(target_repo(Some(json), Some("/here")), Some("/top".to_string()));
}

#[test]
fn extract_json_string_needs_both_quotes() {
    assert_eq!(extract_json_string(r#"{"k":"v"#, "k"), None);
    assert_eq!(extract_json_string(r#"{"k": "v"}"#, "k"), None);
    assert_eq!(extract_json_string(r#"{"k":"","k":"v"}"#, "k"), Some(String::new()));
}

#[test]
fn target_repo_falls_back_to_current_dir_when_context_json_absent() {
    assert_eq!(target_repo(None, Some("/here")), Some("/here".to_string()));
    assert_eq!(target_repo(Some("{}"), Some("/here")), Some("/here".to_string()));
    assert_eq!(target_repo(None, None), None);
}

#[test]
fn target_repo_reads_workspace_cwd_from_context_json_when_present() {
    let json = r#"{"workspace_id":"w1","workspace_cwd":"/tmp/some-other-repo"}"#;
    let result = target_repo(Some(json), Some("/here"));

    assert_eq!(result, Some("/tmp/some-other-repo".to_string()));
}

/// Falls back to the bundled config when `HERDR_PLUGIN_CONFIG_DIR` is unset.
#[test]
fn config_path_falls_back_to_bundled_default_when_env_unset() {
    let result = config_path(None, false, "/plugin");

    assert_eq!(result, "/plugin/examples/starship-herdr.toml");
}

/// Falls back to the bundled config when the dir is set but has no `starship.toml`.
#[test]
fn config_path_falls_back_when_user_config_missing() {
    let result = config_path(Some("/cfg"), false, "/plugin");

    assert_eq!(result, "/plugin/examples/starship-herdr.toml");
}

/// A `starship.toml` present in `HERDR_PLUGIN_CONFIG_DIR` overrides the bundled default.
#[test]
fn config_path_prefers_user_config_when_present() {
    let result = config_path(Some("/cfg"), true, "/plugin");

    assert_eq!(result, "/cfg/starship.toml");
    assert_eq!(result, user_config_path("/cfg"));
}

/// Modules include the composite `starship` entry, before all others.
#[test]
fn collect_modules_includes_composite_starship_prompt_entry() {
    let prompt = invoke_prompt(Ok(output(true, "line", "")));
    let rendered = resolve_modules(&HerdrConfig::default())
        .into_iter()
        .map(|name| (name, invoke_module(Ok(output(true, "x", "")))))
        .collect();
    let result = collect_modules(prompt, rendered);

    assert!(result.iter().any(|m| m.name == "starship"));
    assert_eq!(result[0], Module { name: "starship".to_string(), content: "line".to_string() });
    assert_eq!(result.len(), 6);
}

/// A non-starship token like `$num` is skipped, not a crash.
#[test]
fn collect_modules_skips_unknown_module_without_crashing() {
    let failed = invoke_module(Ok(output(true, "", "unknown module")));
    let result = collect_modules(Err(AdapterError::Timeout), vec![("num".to_string(), failed)]);

    assert!(!result.iter().any(|m| m.name == "num"));
    assert!(result.is_empty());
}

/// A refresh reports what fits, without control sequences.
#[test]
fn refresh_report_hands_over_what_fits() {
    let rendered = vec![
        ("git_branch".to_string(), Ok("\x1b[35mmain\x1b[0m".to_string())),
        ("num".to_string(), Err(AdapterError::Timeout)),
        ("git_state".to_string(), Ok("REBASING".to_string())),
    ];
    let call = refresh_report("w1", Ok("line".to_string()), rendered, 9);

    assert_eq!(
        call.args[5..],
        ["--token", "starship=line", "--token", "git_branch=main"]
    );
}

#[test]
fn resolve_modules_always_names_a_module() {
    assert_eq!(default_modules().len(), 5);
    let config = HerdrConfig { modules: strings(&["a", "starship", "a"]), sidebar_width: None };
    assert_eq!(resolve_modules(&config), strings(&["a", "a"]));
}

#[test]
fn parse_budget_passes_over_what_is_no_number() {
    assert_eq!(parse_budget(&strings(&["x", "--push"]), Some(50)), 50);
    assert_eq!(parse_budget(&strings(&["x", "-4"]), None), 26);
    assert_eq!(parse_budget(&strings(&["x", "+4"]), None), 4);
    assert_eq!(parse_budget(&strings(&["x", "0"]), Some(50)), 0);
}

#[test]
fn task_of_follows_the_order_of_the_flags() {
    assert_eq!(task_of(&strings(&["x", "--poll-loop", "5", "--tick"])), Task::Tick);
    assert_eq!(task_of(&strings(&["x", "--poll-loop", "5"])), Task::PollLoop(Some(5)));
    assert_eq!(task_of(&strings(&["x", "--poll-loop"])), Task::PollLoop(None));
    assert_eq!(task_of(&strings(&["x", "--watch-loop"])), Task::WatchLoop);
    assert_eq!(
        task_of(&strings(&["x", "26", "--push"])),
        Task::Show { reconcile: false, push: true }
    );
    assert_eq!(task_of(&strings(&["x", "--reconcile"])), Task::Show { reconcile: true, push: false });
}

#[test]
fn numbers_are_written_and_read_back() {
    assert_eq!(render(0), "0");
    assert_eq!(render(u64::MAX), "18446744073709551615");
    assert_eq!(parse_u64("18446744073709551615"), Some(u64::MAX));
    assert_eq!(parse_u64("18446744073709551616"), None);
    assert_eq!(parse_u32("007"), Some(7));
    assert_eq!(parse_usize(""), None);
    assert_eq!(parse_usize("+"), None);
    assert_eq!(parse_usize(" 1"), None);
}

/// The count of `unicode-width` alone, with control sequences gone.
#[test]
fn column_width_is_the_raw_count() {
    assert_eq!(column_width("\x1b[1mab\x1b[0m"), 2);
    assert_eq!(column_width("\u{5b57}"), 2);
    assert_eq!(column_width("\u{e5ff}"), 1);
}

#[test]
fn render_line_aligns_name_and_source() {
    let module = Module { name: "rust".to_string(), content: "ab".to_string() };

    assert_eq!(
        render_line(&module, 2, "\"ab\"", 4),
        "        rust: ab\x1b[0m    (r#\"ab\")\n"
    );
    let module = Module { name: "a-very-long-name".to_string(), content: String::new() };
    assert_eq!(render_line(&module, 0, "\"\"", 0), "a-very-long-name: \x1b[0m  (r#\"\")\n");
}

#[test]
fn print_modules_aligns_to_the_widest() {
    let modules = vec![
        Module { name: "directory".to_string(), content: "\x1b[1mabc\x1b[0m".to_string() },
        Module { name: "rust".to_string(), content: "x\"'\n".to_string() },
    ];

    assert_eq!(
        print_modules(&modules[..1].to_vec()),
        "   directory: \x1b[1mabc\x1b[0m\x1b[0m  (r#\"\\u{1b}[1mabc\\u{1b}[0m\")\n"
    );
    let second = vec![Module { name: "rust".to_string(), content: "x\"'".to_string() }];
    assert_eq!(print_modules(&second), "        rust: x\"'\x1b[0m  (r#\"x\\\"'\")\n");
    assert!(print_modules(&modules).contains("(r#\"x\\\"'\\n\")\n"));
    assert_eq!(print_modules(&vec![]), "");
}

const PANES: &str = r#"{"result":{"panes":[{"tab_id":"t1","cwd":"/one"},{"tab_id":"t2","cwd":"/two"},{"tab_id":"t2","cwd":"/three"}]}}"#;

#[test]
fn resolve_pane_cwd_prefers_the_active_tab() {
    let ran = output(true, PANES, "");

    assert_eq!(resolve_pane_cwd(Some(&ran), Some("t2")), Some("/two".to_string()));
    assert_eq!(resolve_pane_cwd(Some(&ran), Some("t9")), Some("/one".to_string()));
    assert_eq!(resolve_pane_cwd(Some(&ran), None), Some("/one".to_string()));
}

#[test]
fn resolve_pane_cwd_none_without_panes() {
    assert_eq!(resolve_pane_cwd(None, None), None);
    assert_eq!(resolve_pane_cwd(Some(&output(false, PANES, "")), None), None);
    assert_eq!(resolve_pane_cwd(Some(&output(true, "not json", "")), None), None);
    assert_eq!(resolve_pane_cwd(Some(&output(true, r#"{"result":{"panes":[]}}"#, "")), None), None);
    assert_eq!(resolve_pane_cwd(Some(&output(true, r#"{"result":[]}"#, "")), None), None);
    let value = read_json(br#"{"result":{"panes":[{"cwd":3},{"cwd":"/x"}]}}"#).unwrap();
    assert_eq!(pane_cwd(&value, Some("t1")), None);
    assert_eq!(pane_cwd(&Node::Other, None), None);
}

const WORKSPACES: &str = r#"{"result":{"workspaces":[{"workspace_id":"w1","active_tab_id":"t2"},{"name":"no id"},{"workspace_id":"w2","worktree":{"checkout_path":"/checkout"}},{"workspace_id":"w3"}]}}"#;

#[test]
fn list_workspaces_reads_those_with_an_id() {
    let list = list_workspaces(Ok(output(true, WORKSPACES, ""))).unwrap();

    assert_eq!(list.len(), 3);
    assert_eq!(list[0].id, "w1");
    assert_eq!(list[0].active_tab_id, Some("t2".to_string()));
    assert_eq!(list[0].checkout_path, None);
    assert_eq!(list[1].checkout_path, Some("/checkout".to_string()));
    assert!(read_workspaces(&Node::Other).is_empty());
}

#[test]
fn list_workspaces_names_each_failure() {
    match list_workspaces(Ok(output(false, WORKSPACES, "down"))) {
        Err(ListFailure::Failed(message)) => assert_eq!(message, "down"),
        other => panic!("{other:?}"),
    }
    assert!(matches!(
        list_workspaces(Ok(output(true, "{", ""))),
        Err(ListFailure::Malformed(_))
    ));
    match list_workspaces(Err("missing".to_string())) {
        Err(ListFailure::NotRun(message)) => assert_eq!(message, "missing"),
        other => panic!("{other:?}"),
    }
    assert!(list_workspaces(Ok(output(true, "{}", ""))).unwrap().is_empty());
}

/// The active pane counts, then the checkout; a workspace with neither is left out.
#[test]
fn list_workspace_targets_falls_back_to_the_checkout() {
    let list = list_workspaces(Ok(output(true, WORKSPACES, ""))).unwrap();
    let mut panes = vec![None, None, Some(output(true, PANES, ""))];
    let entries = list.into_iter().map(|w| (w, panes.pop().unwrap())).collect();

    assert_eq!(
        list_workspace_targets(&entries),
        vec![
            ("w1".to_string(), "/two".to_string()),
            ("w2".to_string(), "/checkout".to_string()),
        ]
    );
    let workspace =
        Workspace { id: "w".to_string(), active_tab_id: None, checkout_path: None };
    assert_eq!(workspace_target(&workspace, None), None);
}

#[test]
fn herdr_calls_are_spelled_out() {
    assert_eq!(pane_list_invocation("w1").args, vec!["pane", "list", "--workspace", "w1"]);
    assert_eq!(workspace_list_invocation().args, vec!["workspace", "list"]);
    assert_eq!(workspace_list_invocation().program, "herdr");
}
