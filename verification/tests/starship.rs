use herdr_starship::command::CommandOutput;
use herdr_starship::fitter::Module;
use herdr_starship::login_path::{
    login_shell, path_cache_file, rc_file_for_shell, read_cached_path, read_path, read_printed_path,
    render_cached_path, resolve_login_shell_path, shell_invocation, LoginShell, PathAction,
    PathEvent, PathFailure,
};
use herdr_starship::starship::{
    invoke_module, invoke_prompt, module_invocation, prompt_invocation, push_tokens,
    report_invocation, report_metadata, run_with_timeout, AdapterError, WaitAction, WaitEvent,
};

fn output(success: bool, stdout: &str, stderr: &str) -> CommandOutput {
    CommandOutput {
        success,
        stdout: stdout.as_bytes().to_vec(),
        stderr: stderr.as_bytes().to_vec(),
    }
}

fn module(name: &str, content: &str) -> Module {
    Module { name: name.to_string(), content: content.to_string() }
}

fn pair(key: &str, value: &str) -> (String, String) {
    (key.to_string(), value.to_string())
}

#[test]
fn adapter_errors_have_words() {
    assert_eq!(AdapterError::Failed("no such file".to_string()).message(), "no such file");
    assert_eq!(AdapterError::Timeout.message(), "timed out");
}

#[test]
fn module_invocation_hands_over_the_worktree_as_it_stands() {
    let path = "/tmp/herdr-starship-test-injection; touch /tmp/canary #";
    let call = module_invocation("directory", path, None);

    assert_eq!(call.program, "starship");
    assert_eq!(call.args, vec!["module", "directory"]);
    assert_eq!(call.env, vec![pair("PWD", path)]);
    assert_eq!(call.dir, Some(path.to_string()));
    let call = module_invocation("rust", "/r", Some("/c.toml"));
    assert_eq!(call.env, vec![pair("PWD", "/r"), pair("STARSHIP_CONFIG", "/c.toml")]);
}

#[test]
fn module_output_is_its_standard_output() {
    assert_eq!(invoke_module(Ok(output(true, "~/code", ""))).unwrap(), "~/code");
    assert_eq!(invoke_module(Ok(output(true, "", ""))).unwrap(), "");
}

/// Bytes that are no UTF-8 are replaced, not refused.
#[test]
fn module_output_that_is_no_text_is_replaced() {
    let ran = CommandOutput { success: true, stdout: vec![b'a', 0xc3, 0x28], stderr: Vec::new() };

    assert_eq!(invoke_module(Ok(ran)).unwrap(), "a\u{fffd}(");
}

/// An unknown module exits with success and writes an error.
#[test]
fn module_that_complains_is_an_error() {
    match invoke_module(Ok(output(true, "x", "unknown module"))) {
        Err(AdapterError::Failed(message)) => assert_eq!(message, "unknown module"),
        other => panic!("{other:?}"),
    }
    assert!(matches!(invoke_module(Ok(output(false, "x", ""))), Err(AdapterError::Failed(_))));
    assert!(matches!(invoke_module(Err(AdapterError::Timeout)), Err(AdapterError::Timeout)));
}

#[test]
fn prompt_output_counts_whatever_the_exit_status() {
    assert_eq!(invoke_prompt(Ok(output(false, "line", "warning"))).unwrap(), "line");
    assert!(matches!(invoke_prompt(Err(AdapterError::Timeout)), Err(AdapterError::Timeout)));
    let call = prompt_invocation("/r", "/c.toml");
    assert_eq!(call.program, "starship");
    assert_eq!(call.args, vec!["prompt", "--path", "/r", "--terminal-width", "200"]);
    assert_eq!(call.env, vec![pair("STARSHIP_CONFIG", "/c.toml")]);
    assert_eq!(call.unset, vec!["STARSHIP_SHELL"]);
    assert_eq!(call.dir, None);
}

#[test]
fn run_with_timeout_kills_a_hung_command() {
    let limit = 3_000_000_000;
    assert!(matches!(run_with_timeout(WaitEvent::Started, limit), WaitAction::Look));
    let running = WaitEvent::StillRunning { elapsed_nanos: limit - 1 };
    assert!(matches!(run_with_timeout(running, limit), WaitAction::Sleep));
    let running = WaitEvent::StillRunning { elapsed_nanos: limit };
    assert!(matches!(run_with_timeout(running, limit), WaitAction::Kill));
    assert!(matches!(
        run_with_timeout(WaitEvent::Killed, limit),
        WaitAction::Finish(Err(AdapterError::Timeout))
    ));
}

#[test]
fn run_with_timeout_hands_over_output_and_errors() {
    assert!(matches!(run_with_timeout(WaitEvent::Exited, 1), WaitAction::Collect));
    match run_with_timeout(WaitEvent::Collected(output(true, "x", "")), 1) {
        WaitAction::Finish(Ok(ran)) => assert_eq!(ran.stdout, b"x"),
        other => panic!("{other:?}"),
    }
    for event in [
        WaitEvent::NotStarted("e".to_string()),
        WaitEvent::Unknown("e".to_string()),
        WaitEvent::NotCollected("e".to_string()),
    ] {
        match run_with_timeout(event, 1) {
            WaitAction::Finish(Err(AdapterError::Failed(message))) => assert_eq!(message, "e"),
            other => panic!("{other:?}"),
        }
    }
}

#[test]
fn report_invocation_carries_every_token_in_one_call() {
    let tokens = vec![pair("git_branch", "main"), pair("git_state", "MERGING")];
    let call = report_invocation("w1", &tokens);

    assert_eq!(call.program, "herdr");
    assert_eq!(
        call.args,
        vec![
            "workspace",
            "report-metadata",
            "w1",
            "--source",
            "herdr-starship",
            "--token",
            "git_branch=main",
            "--token",
            "git_state=MERGING",
        ]
    );
}

/// A workspace that does not exist makes the command fail, which is an error and no crash.
#[test]
fn report_metadata_nonexistent_workspace_returns_error_not_crash() {
    let call = report_invocation("w-does-not-exist", &vec![pair("git_state", "REBASING")]);
    assert_eq!(call.args[2], "w-does-not-exist");
    let result = report_metadata(Ok(output(false, "", "no such workspace")));

    assert!(matches!(result, Err(AdapterError::Failed(_))));
    assert!(report_metadata(Ok(output(true, "", "noise"))).is_ok());
    assert!(matches!(report_metadata(Err("gone".to_string())), Err(AdapterError::Failed(_))));
}

/// Tokens go out without their control sequences.
#[test]
fn push_tokens_strips_ansi() {
    let modules = vec![module("git_state", "\x1b[1;33mREBASING\x1b[0m")];
    let call = push_tokens("w1", &modules);

    assert_eq!(call.args[5..], ["--token", "git_state=REBASING"]);
}

#[test]
fn login_shell_falls_back_to_bin_sh_when_unset() {
    let result = login_shell(None);

    assert_eq!(result, "/bin/sh");
}

#[test]
fn login_shell_uses_shell_env_var_when_set() {
    let result = login_shell(Some("/usr/bin/zsh"));

    assert_eq!(result, "/usr/bin/zsh");
}

#[test]
fn rc_file_for_shell_knows_zsh_and_bash() {
    assert_eq!(rc_file_for_shell(Some("/h"), "/bin/zsh"), Some("/h/.zshrc".to_string()));
    assert_eq!(rc_file_for_shell(Some("/h"), "bash"), Some("/h/.bash_profile".to_string()));
    assert_eq!(rc_file_for_shell(Some("/h"), "/bin/fish"), None);
    assert_eq!(rc_file_for_shell(None, "/bin/zsh"), None);
}

#[test]
fn cached_path_is_used_only_for_the_same_start_up_file() {
    let contents = render_cached_path(1700000000, "/a:/b");

    assert_eq!(contents, "1700000000\n/a:/b\n");
    assert_eq!(read_cached_path(Some(1700000000), Some(&contents)), Some("/a:/b".to_string()));
    assert_eq!(read_cached_path(Some(1700000001), Some(&contents)), None);
    assert_eq!(read_cached_path(None, Some(&contents)), None);
    assert_eq!(read_cached_path(Some(1), None), None);
    assert_eq!(read_cached_path(Some(1), Some("1\n")), None);
    assert_eq!(read_cached_path(Some(1), Some("x\n/a\n")), None);
    assert_eq!(path_cache_file("/tmp"), "/tmp/herdr-starship-path-cache");
}

/// White space is what Unicode says it is.
#[test]
fn printed_path_is_trimmed() {
    let spaces = "\t\n\u{b}\u{c}\r \u{85}\u{a0}\u{1680}\u{2000}\u{200a}\u{2028}\u{2029}\u{202f}\u{205f}\u{3000}";
    assert_eq!(read_path(&format!("{spaces}/a b{spaces}")).unwrap(), "/a b");
    assert_eq!(read_path("\u{200b}x\u{180e}\u{feff}").unwrap(), "\u{200b}x\u{180e}\u{feff}");
    assert!(matches!(read_path(spaces), Err(PathFailure::EmptyPath)));
    assert!(matches!(read_path(""), Err(PathFailure::EmptyPath)));
}

#[test]
fn printed_path_names_each_failure() {
    assert_eq!(read_printed_path(Ok(output(true, "/fake\n", "noise"))).unwrap(), "/fake");
    assert!(matches!(
        read_printed_path(Ok(output(false, "/fake", ""))),
        Err(PathFailure::ShellFailed)
    ));
    assert!(matches!(
        read_printed_path(Ok(output(true, "   ", ""))),
        Err(PathFailure::EmptyPath)
    ));
    assert!(matches!(
        read_printed_path(Err(AdapterError::Timeout)),
        Err(PathFailure::Adapter(AdapterError::Timeout))
    ));
}

#[test]
fn resolve_login_shell_path_asks_an_unknown_shell_every_time() {
    let login = LoginShell::new(Some("/h"), Some("/opt/fake-shell"));
    match resolve_login_shell_path(&login, PathEvent::Begin) {
        PathAction::Ask(call) => {
            assert_eq!(call.program, "/opt/fake-shell");
            assert_eq!(call.args, vec!["-lic", "printf %s \"$PATH\""]);
        }
        other => panic!("{other:?}"),
    }
    let ran = Ok(output(true, "/fake/resolved/path", ""));
    match resolve_login_shell_path(&login, PathEvent::Asked(ran)) {
        PathAction::Found(path) => assert_eq!(path, "/fake/resolved/path"),
        other => panic!("{other:?}"),
    }
    let ran = Err(AdapterError::Failed("no such file".to_string()));
    assert!(matches!(
        resolve_login_shell_path(&login, PathEvent::Asked(ran)),
        PathAction::GiveUp(PathFailure::Adapter(_))
    ));
    assert_eq!(shell_invocation("/bin/sh").program, "/bin/sh");
}

/// A cached path from after the last change of the start-up file spares the shell.
#[test]
fn resolve_login_shell_path_cache_hit_asks_no_shell() {
    let login = LoginShell::new(Some("/h"), Some("/bin/zsh"));
    match resolve_login_shell_path(&login, PathEvent::Begin) {
        PathAction::LookUp { rc_file } => assert_eq!(rc_file, "/h/.zshrc"),
        other => panic!("{other:?}"),
    }
    let event = PathEvent::LookedUp {
        rc_secs: Some(10),
        cached: Some("10\n/cached/path\n".to_string()),
    };
    match resolve_login_shell_path(&login, event) {
        PathAction::Found(path) => assert_eq!(path, "/cached/path"),
        other => panic!("{other:?}"),
    }
}

/// A stale cache is resolved anew and written again.
#[test]
fn resolve_login_shell_path_cache_miss_rewrites_the_cache() {
    let login = LoginShell::new(Some("/h"), Some("/bin/zsh"));
    let event = PathEvent::LookedUp {
        rc_secs: Some(10),
        cached: Some("9\n/stale/cached/path\n".to_string()),
    };
    assert!(matches!(resolve_login_shell_path(&login, event), PathAction::Ask(_)));
    let ran = Ok(output(true, "/freshly/resolved/path", ""));
    let resolved = match resolve_login_shell_path(&login, PathEvent::Asked(ran)) {
        PathAction::Date { rc_file, resolved } => {
            assert_eq!(rc_file, "/h/.zshrc");
            resolved
        }
        other => panic!("{other:?}"),
    };
    let event = PathEvent::Dated { resolved: resolved.clone(), rc_secs: Some(10) };
    match resolve_login_shell_path(&login, event) {
        PathAction::Store { contents, resolved } => {
            assert_eq!(contents, "10\n/freshly/resolved/path\n");
            assert_eq!(resolved, "/freshly/resolved/path");
        }
        other => panic!("{other:?}"),
    }
    let event = PathEvent::Dated { resolved, rc_secs: None };
    assert!(matches!(resolve_login_shell_path(&login, event), PathAction::Found(_)));
}
