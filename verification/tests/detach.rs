use herdr_starship::command::CommandOutput;
use herdr_starship::config::RefreshMode;
use herdr_starship::detach::{
    decide, is_alive_and_ours, kill_invocation, names_program, own_binary, ps_invocation,
    remove_if_ours, run_loop, self_check_and_teardown, wants_background_process, Action,
    ExistingProcess, SelfCheck, Turn,
};
use herdr_starship::lock::{
    begin, pid_is_alive, render_lock_file, request as lock_request, with_refresh_lock, LockReply,
    LockRequest, LockStage,
};
use herdr_starship::pid_file::{
    extract_field, extract_recorded_binary, extract_recorded_mode, extract_recorded_pid,
    installed_binary_path, is_our_pid_file, mode_str, parse_mode_str, pid_file_path,
    refresh_lock_path, render_pid_file,
};
use herdr_starship::reconcile::{reconcile, request, spawn_invocation, Job, Reply, Request, Stage};

fn output(success: bool, stdout: &str, stderr: &str) -> CommandOutput {
    CommandOutput {
        success,
        stdout: stdout.as_bytes().to_vec(),
        stderr: stderr.as_bytes().to_vec(),
    }
}

fn job(refresh: RefreshMode) -> Job {
    Job {
        refresh,
        binary_path: "/opt/herdr-starship".to_string(),
        interval_seconds: 5,
        config_dir: None,
    }
}

#[test]
fn render_pid_file_includes_pid_marker_and_binary() {
    let result = render_pid_file(1234, "/usr/local/bin/herdr-starship", RefreshMode::Poll);

    assert!(result.contains("pid=1234"));
    assert!(result.contains("marker=HerdrStarshipPollDetached"));
    assert!(result.contains("binary=/usr/local/bin/herdr-starship"));
}

#[test]
fn is_our_pid_file_true_for_our_own_rendered_output() {
    let contents = render_pid_file(1234, "/bin/herdr-starship", RefreshMode::Poll);

    assert!(is_our_pid_file(&contents));
}

/// Same fields, no marker: not ours.
#[test]
fn is_our_pid_file_false_when_marker_missing() {
    let contents = "pid=1234\nbinary=/some/other/tool\n";

    assert!(!is_our_pid_file(contents));
}

#[test]
fn is_our_pid_file_false_for_unrelated_content() {
    assert!(!is_our_pid_file("not a pid file at all"));
}

#[test]
fn extract_recorded_pid_finds_value() {
    let contents = render_pid_file(4321, "/opt/herdr-starship", RefreshMode::Poll);

    assert_eq!(extract_recorded_pid(&contents), Some(4321));
}

#[test]
fn extract_recorded_pid_none_when_absent() {
    assert_eq!(extract_recorded_pid("marker=HerdrStarshipPollDetached\n"), None);
}

#[test]
fn extract_recorded_binary_finds_value() {
    let contents = render_pid_file(4321, "/opt/herdr-starship", RefreshMode::Poll);

    assert_eq!(
        extract_recorded_binary(&contents),
        Some("/opt/herdr-starship".to_string())
    );
}

#[test]
fn extract_recorded_binary_none_when_absent() {
    assert_eq!(extract_recorded_binary("pid=1\n"), None);
}

#[test]
fn decide_poll_and_nothing_installed_installs() {
    let result = decide(RefreshMode::Poll, None);

    assert_eq!(result, Action::Install);
}

#[test]
fn decide_basic_and_our_process_alive_removes() {
    let existing = ExistingProcess {
        is_ours: true,
        alive: true,
        binary_exists: true,
        mode: Some(RefreshMode::Poll),
    };
    let result = decide(RefreshMode::Basic, Some(&existing));

    assert_eq!(result, Action::Remove);
}

/// A file that fails `is_ours` must never be touched, whatever `refresh` is.
#[test]
fn decide_unrelated_pid_file_is_never_touched() {
    let existing = ExistingProcess {
        is_ours: false,
        alive: true,
        binary_exists: true,
        mode: None,
    };

    assert_eq!(decide(RefreshMode::Poll, Some(&existing)), Action::Noop);
    assert_eq!(decide(RefreshMode::Basic, Some(&existing)), Action::Noop);
}

#[test]
fn decide_stale_binary_tears_down_regardless_of_refresh_mode() {
    let existing = ExistingProcess {
        is_ours: true,
        alive: true,
        binary_exists: false,
        mode: Some(RefreshMode::Poll),
    };

    assert_eq!(decide(RefreshMode::Poll, Some(&existing)), Action::Remove);
    assert_eq!(decide(RefreshMode::Basic, Some(&existing)), Action::Remove);
}

#[test]
fn decide_poll_already_alive_is_noop() {
    let existing = ExistingProcess {
        is_ours: true,
        alive: true,
        binary_exists: true,
        mode: Some(RefreshMode::Poll),
    };

    assert_eq!(decide(RefreshMode::Poll, Some(&existing)), Action::Noop);
}

#[test]
fn decide_watch_already_alive_is_noop() {
    let existing = ExistingProcess {
        is_ours: true,
        alive: true,
        binary_exists: true,
        mode: Some(RefreshMode::Watch),
    };

    assert_eq!(decide(RefreshMode::Watch, Some(&existing)), Action::Noop);
}

#[test]
fn decide_basic_and_nothing_installed_is_noop() {
    assert_eq!(decide(RefreshMode::Basic, None), Action::Noop);
}

/// Unlike `launchd`, nothing here restarts a crashed loop on its own.
#[test]
fn decide_dead_process_in_poll_mode_reinstalls() {
    let existing = ExistingProcess {
        is_ours: true,
        alive: false,
        binary_exists: true,
        mode: Some(RefreshMode::Poll),
    };

    assert_eq!(decide(RefreshMode::Poll, Some(&existing)), Action::Install);
}

#[test]
fn decide_dead_process_in_watch_mode_reinstalls() {
    let existing = ExistingProcess {
        is_ours: true,
        alive: false,
        binary_exists: true,
        mode: Some(RefreshMode::Watch),
    };

    assert_eq!(decide(RefreshMode::Watch, Some(&existing)), Action::Install);
}

#[test]
fn decide_dead_process_in_non_poll_mode_is_noop() {
    let existing = ExistingProcess {
        is_ours: true,
        alive: false,
        binary_exists: true,
        mode: Some(RefreshMode::Poll),
    };

    assert_eq!(decide(RefreshMode::Basic, Some(&existing)), Action::Noop);
}

#[test]
fn decide_watch_and_nothing_installed_installs() {
    assert_eq!(decide(RefreshMode::Watch, None), Action::Install);
}

/// A mode switch must finish in one `reconcile` call, not Remove-then-Install over two restarts.
#[test]
fn decide_switches_from_poll_to_watch_while_alive() {
    let existing = ExistingProcess {
        is_ours: true,
        alive: true,
        binary_exists: true,
        mode: Some(RefreshMode::Poll),
    };

    assert_eq!(decide(RefreshMode::Watch, Some(&existing)), Action::Switch);
}

#[test]
fn decide_switches_from_watch_to_poll_while_alive() {
    let existing = ExistingProcess {
        is_ours: true,
        alive: true,
        binary_exists: true,
        mode: Some(RefreshMode::Watch),
    };

    assert_eq!(decide(RefreshMode::Poll, Some(&existing)), Action::Switch);
}

/// An older pid file without `mode` reads as a mismatch and self-heals on the next reconcile.
#[test]
fn decide_switches_when_recorded_mode_unknown() {
    let existing = ExistingProcess {
        is_ours: true,
        alive: true,
        binary_exists: true,
        mode: None,
    };

    assert_eq!(decide(RefreshMode::Poll, Some(&existing)), Action::Switch);
}

#[test]
fn render_pid_file_is_four_lines() {
    assert_eq!(
        render_pid_file(7, "/bin/x", RefreshMode::Watch),
        "pid=7\nmarker=HerdrStarshipPollDetached\nbinary=/bin/x\nmode=watch\n"
    );
}

#[test]
fn extract_recorded_mode_reads_background_modes_only() {
    let contents = render_pid_file(1, "/bin/x", RefreshMode::Watch);
    assert_eq!(extract_recorded_mode(&contents), Some(RefreshMode::Watch));
    let contents = render_pid_file(1, "/bin/x", RefreshMode::Poll);
    assert_eq!(extract_recorded_mode(&contents), Some(RefreshMode::Poll));
    let contents = render_pid_file(1, "/bin/x", RefreshMode::Basic);
    assert_eq!(extract_recorded_mode(&contents), None);
    assert_eq!(extract_recorded_mode("pid=1\n"), None);
}

#[test]
fn mode_words_are_read_back() {
    assert_eq!(mode_str(RefreshMode::Basic), "basic");
    assert_eq!(mode_str(RefreshMode::Poll), "poll");
    assert_eq!(mode_str(RefreshMode::Watch), "watch");
    assert_eq!(parse_mode_str("poll"), Some(RefreshMode::Poll));
    assert_eq!(parse_mode_str("watch"), Some(RefreshMode::Watch));
    assert_eq!(parse_mode_str("basic"), None);
}

/// The first line for a key counts; a carriage return before the line feed does not.
#[test]
fn extract_field_takes_the_first_line() {
    assert_eq!(extract_field("a=1\r\na=2\n", "a"), Some("1".to_string()));
    assert_eq!(extract_field("aa=1\nb=2", "b"), Some("2".to_string()));
    assert_eq!(extract_field("aa=1\n", "a"), None);
}

#[test]
fn extract_recorded_pid_none_when_no_number() {
    assert_eq!(extract_recorded_pid("pid=x\n"), None);
    assert_eq!(extract_recorded_pid("pid=\n"), None);
    assert_eq!(extract_recorded_pid("pid=-1\n"), None);
    assert_eq!(extract_recorded_pid("pid=4294967295\n"), Some(u32::MAX));
    assert_eq!(extract_recorded_pid("pid=4294967296\n"), None);
    assert_eq!(extract_recorded_pid("pid=+12\n"), Some(12));
}

/// A path with a line feed in it, or a carriage return at its end, does not come back whole.
#[test]
fn extract_recorded_binary_loses_line_ends() {
    let contents = render_pid_file(1, "/a\nb", RefreshMode::Poll);
    assert_eq!(extract_recorded_binary(&contents), Some("/a".to_string()));
    let contents = render_pid_file(1, "/a\r", RefreshMode::Poll);
    assert_eq!(extract_recorded_binary(&contents), Some("/a".to_string()));
}

#[test]
fn installed_binary_path_reads_recorded_path_from_our_own_pid_file() {
    let contents = render_pid_file(1, "/opt/herdr-starship", RefreshMode::Poll);
    let result = installed_binary_path(Some(&contents));

    assert_eq!(result, Some("/opt/herdr-starship".to_string()));
}

#[test]
fn installed_binary_path_none_when_pid_file_not_ours() {
    let result = installed_binary_path(Some("pid=1\nbinary=/opt/herdr-starship\n"));

    assert_eq!(result, None);
}

#[test]
fn installed_binary_path_none_when_no_pid_file_exists() {
    let result = installed_binary_path(None);

    assert_eq!(result, None);
}

#[test]
fn pid_file_path_uses_home_state_dir() {
    assert_eq!(
        pid_file_path(Some("/home/u")),
        Some("/home/u/.local/state/herdr/plugins/herdr-starship/poll.pid".to_string())
    );
    assert_eq!(pid_file_path(None), None);
}

#[test]
fn refresh_lock_path_uses_home_state_dir() {
    let result = refresh_lock_path(Some("/tmp/herdr-starship-test-detach-refresh-lock-path-home"));

    assert_eq!(
        result,
        Some(
            "/tmp/herdr-starship-test-detach-refresh-lock-path-home/.local/state/herdr/plugins/herdr-starship/refresh.lock"
                .to_string()
        )
    );
    assert_eq!(refresh_lock_path(None), None);
}

#[test]
fn wants_background_process_for_poll_and_watch() {
    assert!(wants_background_process(RefreshMode::Poll));
    assert!(wants_background_process(RefreshMode::Watch));
    assert!(!wants_background_process(RefreshMode::Basic));
}

#[test]
fn process_calls_name_the_process() {
    let ps = ps_invocation(42);
    assert_eq!(ps.program, "ps");
    assert_eq!(ps.args, vec!["-p", "42", "-o", "args="]);
    let kill = kill_invocation("-TERM", 42);
    assert_eq!(kill.program, "kill");
    assert_eq!(kill.args, vec!["-TERM", "42"]);
}

#[test]
fn is_alive_and_ours_needs_success_and_the_program() {
    let line = "/opt/herdr-starship --poll-loop 5\n";
    assert!(is_alive_and_ours(&Some(output(true, line, "")), "/opt/herdr-starship"));
    assert!(!is_alive_and_ours(&Some(output(false, line, "")), "/opt/herdr-starship"));
    assert!(!is_alive_and_ours(&Some(output(true, "/bin/other\n", "")), "/opt/herdr-starship"));
    assert!(!is_alive_and_ours(&Some(output(true, " \n", "")), ""));
    assert!(!is_alive_and_ours(&None, "/opt/herdr-starship"));
}

#[test]
fn names_program_looks_for_the_path_anywhere() {
    assert!(names_program(" sh /opt/x --watch-loop ", "/opt/x"));
    assert!(!names_program("\u{3000}\t", ""));
    assert!(names_program("a", ""));
}

#[test]
fn self_check_removes_only_our_own_pid_file() {
    let ours = render_pid_file(1, "/x", RefreshMode::Poll);
    let kept = SelfCheck { gone: false, delete_pid_file: false };

    assert_eq!(self_check_and_teardown(true, Some(&ours)), kept);
    assert_eq!(
        self_check_and_teardown(false, Some(&ours)),
        SelfCheck { gone: true, delete_pid_file: true }
    );
    assert_eq!(
        self_check_and_teardown(false, Some("pid=1\n")),
        SelfCheck { gone: true, delete_pid_file: false }
    );
    assert_eq!(
        self_check_and_teardown(false, None),
        SelfCheck { gone: true, delete_pid_file: false }
    );
    assert!(remove_if_ours(Some(&ours)) && !remove_if_ours(None));
}

#[test]
fn own_binary_prefers_the_recorded_path() {
    let ours = render_pid_file(1, "/opt/x", RefreshMode::Poll);

    assert_eq!(own_binary(Some(&ours), Some("/proc/x")), Some("/opt/x".to_string()));
    assert_eq!(own_binary(Some("binary=/opt/x\n"), Some("/proc/x")), Some("/proc/x".to_string()));
    assert_eq!(own_binary(None, Some("/proc/x")), Some("/proc/x".to_string()));
    assert_eq!(own_binary(None, None), None);
}

#[test]
fn run_loop_stops_only_when_the_program_is_gone() {
    let ours = render_pid_file(1, "/opt/x", RefreshMode::Poll);

    assert_eq!(run_loop(Some(true), Some(&ours)), Turn::Tick);
    assert_eq!(run_loop(None, Some(&ours)), Turn::Tick);
    assert_eq!(run_loop(Some(false), Some(&ours)), Turn::Stop { delete_pid_file: true });
    assert_eq!(run_loop(Some(false), None), Turn::Stop { delete_pid_file: false });
}

#[test]
fn spawn_invocation_hands_over_mode_and_config_dir() {
    let mut with_dir = job(RefreshMode::Poll);
    with_dir.config_dir = Some("/cfg".to_string());
    let poll = spawn_invocation(&with_dir);

    assert_eq!(poll.program, "/opt/herdr-starship");
    assert_eq!(poll.args, vec!["--poll-loop", "5"]);
    assert_eq!(poll.env, vec![("HERDR_PLUGIN_CONFIG_DIR".to_string(), "/cfg".to_string())]);
    let watch = spawn_invocation(&job(RefreshMode::Watch));
    assert_eq!(watch.args, vec!["--watch-loop"]);
    assert!(watch.env.is_empty());
}

/// Nothing is recorded: the process is started and recorded.
#[test]
fn reconcile_installs_from_scratch() {
    let job = job(RefreshMode::Poll);
    let stage = Stage::Reading;
    assert!(matches!(request(&job, &stage), Request::ReadPidFile));
    let stage = reconcile(&job, stage, Reply::Contents(None));
    assert!(matches!(request(&job, &stage), Request::MakeStateDir));
    let stage = reconcile(&job, stage, Reply::Finished(true));
    match request(&job, &stage) {
        Request::Spawn(call) => assert_eq!(call.args, vec!["--poll-loop", "5"]),
        other => panic!("{other:?}"),
    }
    let stage = reconcile(&job, stage, Reply::Spawned(Some(77)));
    match request(&job, &stage) {
        Request::WritePidFile(contents) => assert_eq!(
            contents,
            render_pid_file(77, "/opt/herdr-starship", RefreshMode::Poll)
        ),
        other => panic!("{other:?}"),
    }
    let stage = reconcile(&job, stage, Reply::Finished(true));
    assert!(matches!(request(&job, &stage), Request::Stop));
}

/// A switch of modes reads the file again, signals, deletes and starts anew in one go.
#[test]
fn reconcile_switches_modes_in_one_go() {
    let job = job(RefreshMode::Watch);
    let contents = render_pid_file(9, "/opt/old", RefreshMode::Poll);
    let stage = reconcile(&job, Stage::Reading, Reply::Contents(Some(contents.clone())));
    assert!(matches!(request(&job, &stage), Request::PathExists(path) if path == "/opt/old"));
    let stage = reconcile(&job, stage, Reply::Exists(true));
    match request(&job, &stage) {
        Request::Run(call) => assert_eq!(call.args, vec!["-p", "9", "-o", "args="]),
        other => panic!("{other:?}"),
    }
    let ran = Some(output(true, "/opt/old --poll-loop 5\n", ""));
    let stage = reconcile(&job, stage, Reply::Ran(ran));
    assert!(matches!(request(&job, &stage), Request::ReadPidFile));
    let stage = reconcile(&job, stage, Reply::Contents(Some(contents)));
    match request(&job, &stage) {
        Request::Run(call) => assert_eq!(call.args, vec!["-TERM", "9"]),
        other => panic!("{other:?}"),
    }
    let stage = reconcile(&job, stage, Reply::Ran(None));
    assert!(matches!(request(&job, &stage), Request::DeletePidFile));
    let stage = reconcile(&job, stage, Reply::Finished(true));
    assert!(matches!(request(&job, &stage), Request::MakeStateDir));
    let stage = reconcile(&job, stage, Reply::Finished(true));
    assert!(matches!(request(&job, &stage), Request::Spawn(_)));
}

/// A process that runs as recorded is left alone.
#[test]
fn reconcile_leaves_a_running_process_alone() {
    let job = job(RefreshMode::Poll);
    let contents = render_pid_file(9, "/opt/herdr-starship", RefreshMode::Poll);
    let stage = reconcile(&job, Stage::Reading, Reply::Contents(Some(contents)));
    let stage = reconcile(&job, stage, Reply::Exists(true));
    let ran = Some(output(true, "/opt/herdr-starship --poll-loop 5\n", ""));
    let stage = reconcile(&job, stage, Reply::Ran(ran));

    assert!(matches!(stage, Stage::Done));
}

/// The file of another program is looked at and left alone.
#[test]
fn reconcile_never_touches_a_foreign_file() {
    let job = job(RefreshMode::Poll);
    let contents = "pid=9\nbinary=/bin/other\n".to_string();
    let stage = reconcile(&job, Stage::Reading, Reply::Contents(Some(contents)));
    assert!(matches!(request(&job, &stage), Request::PathExists(_)));
    let stage = reconcile(&job, stage, Reply::Exists(true));

    assert!(matches!(request(&job, &stage), Request::Stop));
}

/// If the file changed hands before the removal, nothing is signalled or deleted.
#[test]
fn reconcile_checks_again_before_it_removes() {
    let job = job(RefreshMode::Basic);
    let stage = Stage::Rereading { respawn: false };
    let stage = reconcile(&job, stage, Reply::Contents(Some("pid=9\n".to_string())));
    assert!(matches!(stage, Stage::Done));
    let ours = "marker=HerdrStarshipPollDetached\n".to_string();
    let stage = Stage::Rereading { respawn: false };
    let stage = reconcile(&job, stage, Reply::Contents(Some(ours)));
    assert!(matches!(stage, Stage::Deleting { respawn: false }));
}

/// A reply that nobody asked for changes nothing.
#[test]
fn reconcile_ignores_replies_of_another_kind() {
    let job = job(RefreshMode::Poll);
    let stage = reconcile(&job, Stage::Reading, Reply::Finished(true));
    assert!(matches!(stage, Stage::Reading));
    let stage = reconcile(&job, Stage::MakingDir, Reply::Finished(false));
    assert!(matches!(stage, Stage::Done));
    let stage = reconcile(&job, Stage::Spawning, Reply::Spawned(None));
    assert!(matches!(stage, Stage::Done));
}

/// One process refreshes while the other waits, and then the other way round.
#[test]
fn refresh_lock_makes_the_second_process_wait() {
    let second = with_refresh_lock(LockStage::Creating, LockReply::Created(false));
    assert!(matches!(lock_request(second, 2), LockRequest::Read));
    let second = with_refresh_lock(second, LockReply::Contents(Some(render_lock_file(1))));
    match lock_request(second, 2) {
        LockRequest::Run(call) => assert_eq!(call.args, vec!["-0", "1"]),
        other => panic!("{other:?}"),
    }
    let second = with_refresh_lock(second, LockReply::Ran(Some(output(true, "", ""))));
    assert!(matches!(lock_request(second, 2), LockRequest::Sleep));
    let second = with_refresh_lock(second, LockReply::Finished);
    match lock_request(second, 2) {
        LockRequest::Create(contents) => assert_eq!(contents, "pid=2\n"),
        other => panic!("{other:?}"),
    }
    let second = with_refresh_lock(second, LockReply::Created(true));
    assert!(matches!(lock_request(second, 2), LockRequest::Refresh));
    let second = with_refresh_lock(second, LockReply::Finished);
    assert!(matches!(lock_request(second, 2), LockRequest::Delete));
    let second = with_refresh_lock(second, LockReply::Finished);
    assert!(matches!(lock_request(second, 2), LockRequest::Stop));
}

/// A lock left by a dead process is reclaimed, not waited for.
#[test]
fn refresh_lock_of_a_dead_process_is_reclaimed() {
    let stage = with_refresh_lock(LockStage::Inspecting, LockReply::Contents(Some("pid=5\n".to_string())));
    assert_eq!(stage, LockStage::Probing { pid: 5 });
    let stage = with_refresh_lock(stage, LockReply::Ran(Some(output(false, "", "no such process"))));
    assert_eq!(stage, LockStage::Reclaiming);
    assert_eq!(with_refresh_lock(stage, LockReply::Finished), LockStage::Creating);
    assert!(!pid_is_alive(&None));
}

/// A lock whose holder is not known is waited for.
#[test]
fn refresh_lock_without_a_holder_is_waited_for() {
    let stage = with_refresh_lock(LockStage::Inspecting, LockReply::Contents(Some(String::new())));
    assert_eq!(stage, LockStage::Waiting);
    let stage = with_refresh_lock(LockStage::Inspecting, LockReply::Contents(None));
    assert_eq!(stage, LockStage::Waiting);
}

/// Without a place for a lock, the refresh goes ahead.
#[test]
fn refresh_goes_ahead_without_a_place_for_the_lock() {
    let stage = begin(None);
    assert!(matches!(lock_request(stage, 1), LockRequest::Refresh));
    assert_eq!(with_refresh_lock(stage, LockReply::Finished), LockStage::Done);
    assert_eq!(begin(Some("/x/refresh.lock")), LockStage::Creating);
}

/// One process takes over the lock of a dead one while another waits, and they refresh in turn.
#[test]
fn refresh_lock_left_behind_passes_to_one_process() {
    let dead = || LockReply::Contents(Some(render_lock_file(5)));
    let first = with_refresh_lock(LockStage::Creating, LockReply::Created(false));
    let second = with_refresh_lock(LockStage::Creating, LockReply::Created(false));
    let first = with_refresh_lock(first, dead());
    let first = with_refresh_lock(first, LockReply::Ran(Some(output(false, "", ""))));
    let first = with_refresh_lock(first, LockReply::Finished);
    let first = with_refresh_lock(first, LockReply::Created(true));
    assert_eq!(first, LockStage::Holding);

    let second = with_refresh_lock(second, LockReply::Contents(Some(render_lock_file(1))));
    assert_eq!(second, LockStage::Probing { pid: 1 });
    let second = with_refresh_lock(second, LockReply::Ran(Some(output(true, "", ""))));
    assert_eq!(second, LockStage::Waiting);
}
