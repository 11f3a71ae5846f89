use herdr_starship::command::CommandOutput;
use herdr_starship::detach::Turn;
use herdr_starship::path::{file_name, is_absolute, join, normalize};
use herdr_starship::watch::{
    desired_watch_paths, diff_watch_paths, read_printed_name, resolve_git_paths, rev_parse,
    rev_parse_invocation, run_watch, sync_watcher, watch_step, GitPaths, RepoScan, WatchAction,
    WatchEvent, WatchMode, WatchPaths, WatchReply, WatchStage, Watched,
};

fn printed(text: &str) -> CommandOutput {
    CommandOutput { success: true, stdout: text.as_bytes().to_vec(), stderr: Vec::new() }
}

fn failed() -> CommandOutput {
    CommandOutput { success: false, stdout: b".git\n".to_vec(), stderr: b"fatal".to_vec() }
}

fn scan(repo: &str, dirs: Vec<String>) -> RepoScan {
    let git = printed(".git\n");
    RepoScan {
        git_paths: resolve_git_paths(repo, Some(&git), Some(&git)).unwrap(),
        head_exists: true,
        index_exists: true,
        refs_exists: true,
        dirs,
    }
}

#[test]
fn resolve_git_paths_plain_repo_uses_dot_git_for_everything() {
    let git = printed(".git\n");
    let result = resolve_git_paths("/tmp/repo", Some(&git), Some(&git)).unwrap();

    assert_eq!(result.head, "/tmp/repo/.git/HEAD");
    assert_eq!(result.index, "/tmp/repo/.git/index");
    assert_eq!(result.refs, "/tmp/repo/.git/refs");
}

#[test]
fn resolve_git_paths_linked_worktree_splits_head_from_shared_refs() {
    let own = printed("/base/main/.git/worktrees/wt\n");
    let shared = printed("/base/main/.git\n");
    let result = resolve_git_paths("/base/wt", Some(&own), Some(&shared)).unwrap();

    assert!(
        result.head.starts_with("/base/main/.git/worktrees"),
        "expected a per-worktree HEAD, got {:?}",
        result.head
    );
    assert_eq!(result.refs, "/base/main/.git/refs");
}

#[test]
fn resolve_git_paths_none_when_not_a_repo() {
    let git = printed(".git\n");

    assert_eq!(resolve_git_paths("/tmp", Some(&failed()), Some(&failed())), None);
    assert_eq!(resolve_git_paths("/tmp", Some(&git), None), None);
    assert_eq!(resolve_git_paths("/tmp", Some(&git), Some(&printed(" \n"))), None);
}

#[test]
fn rev_parse_takes_relative_paths_from_the_repo() {
    assert_eq!(rev_parse("/r", Some(&printed(" .git \n"))), Some("/r/.git".to_string()));
    assert_eq!(rev_parse("/r", Some(&printed("/x/.git\n"))), Some("/x/.git".to_string()));
    assert_eq!(rev_parse("/r", None), None);
    assert_eq!(read_printed_name("/r", "\n"), None);
    assert_eq!(read_printed_name("/r", "g\n"), Some("/r/g".to_string()));
    let call = rev_parse_invocation("/r", "--git-dir");
    assert_eq!(call.program, "git");
    assert_eq!(call.args, vec!["-C", "/r", "rev-parse", "--git-dir"]);
}

/// Output that is no UTF-8 is read with replacement characters in it.
#[test]
fn rev_parse_reads_broken_output() {
    let ran = CommandOutput { success: true, stdout: vec![b'a', 0xff, b'\n'], stderr: Vec::new() };

    assert_eq!(rev_parse("/r", Some(&ran)), Some("/r/a\u{fffd}".to_string()));
}

#[test]
fn desired_watch_paths_includes_head_index_refs_for_a_real_repo() {
    let targets = vec![Some(scan("/tmp/repo", vec!["/tmp/repo".to_string()]))];

    let result = desired_watch_paths(&targets);

    assert_eq!(result.get("/tmp/repo/.git/HEAD"), Some(WatchMode::NonRecursive));
    assert_eq!(result.get("/tmp/repo/.git/index"), Some(WatchMode::NonRecursive));
    assert_eq!(result.get("/tmp/repo/.git/refs"), Some(WatchMode::Recursive));
    assert_eq!(result.get("/tmp/repo"), Some(WatchMode::NonRecursive));
}

/// A workspace whose target isn't a git repo contributes nothing, silently.
#[test]
fn desired_watch_paths_skips_non_repo_targets() {
    let result = desired_watch_paths(&vec![None]);

    assert!(result.is_empty());
}

/// Only what is there is watched, and the last word on a path counts.
#[test]
fn desired_watch_paths_skips_missing_files_and_keeps_the_last_mode() {
    let mut repo = scan("/r", vec!["/r/.git/refs/".to_string()]);
    repo.head_exists = false;
    repo.index_exists = false;

    let result = desired_watch_paths(&vec![Some(repo)]);

    assert_eq!(result.get("/r/.git/HEAD"), None);
    assert_eq!(result.get("/r/.git/refs"), Some(WatchMode::NonRecursive));
}

#[test]
fn diff_watch_paths_computes_additions_and_removals() {
    let keep = "/repo/.git/HEAD";
    let stale = "/repo/.git/index";
    let new = "/repo/.git/refs";
    let current = Watched::new().insert(keep).insert(stale);
    let desired = WatchPaths::new()
        .insert(keep, WatchMode::NonRecursive)
        .insert(new, WatchMode::Recursive);

    let (to_add, to_remove) = diff_watch_paths(&current, &desired);

    assert_eq!(to_add, vec![(new.to_string(), WatchMode::Recursive)]);
    assert_eq!(to_remove, vec![stale.to_string()]);
}

#[test]
fn diff_watch_paths_no_change_when_sets_match() {
    let path = "/repo/.git/HEAD";
    let current = Watched::new().insert(path);
    let desired = WatchPaths::new().insert(path, WatchMode::NonRecursive);

    let (to_add, to_remove) = diff_watch_paths(&current, &desired);

    assert!(to_add.is_empty());
    assert!(to_remove.is_empty());
}

/// The watched paths follow the workspaces as they open and close.
#[test]
fn sync_watcher_adds_and_removes_as_targets_change() {
    let desired = desired_watch_paths(&vec![Some(scan("/r", vec!["/r".to_string()]))]);
    let (to_add, to_remove) = diff_watch_paths(&Watched::new(), &desired);
    let added: Vec<(String, bool)> = to_add.into_iter().map(|(path, _)| (path, true)).collect();
    let watched = sync_watcher(Watched::new(), &added, &to_remove);
    assert!(watched.contains("/r/.git/HEAD"));
    let (to_add, to_remove) = diff_watch_paths(&watched, &desired);
    assert!(to_add.is_empty() && to_remove.is_empty());

    let nothing = desired_watch_paths(&vec![]);
    let (to_add, to_remove) = diff_watch_paths(&watched, &nothing);
    assert!(to_add.is_empty());
    let watched = sync_watcher(watched, &vec![], &to_remove);
    assert!(watched.is_empty());
}

/// A path that could not be watched is tried again the next time.
#[test]
fn sync_watcher_tries_a_failed_path_again() {
    let desired = WatchPaths::new().insert("/r", WatchMode::NonRecursive);
    let watched = sync_watcher(Watched::new(), &vec![("/r".to_string(), false)], &vec![]);
    let (to_add, _) = diff_watch_paths(&watched, &desired);

    assert_eq!(to_add, vec![("/r".to_string(), WatchMode::NonRecursive)]);
}

/// Paths that are spelled differently are still one path.
#[test]
fn watched_paths_are_told_apart_by_their_components() {
    let watched = Watched::new().insert("/r//a/./b/");
    assert!(watched.contains("/r/a/b"));
    assert!(!watched.contains("/r/a"));
    assert!(watched.remove("/r/a/b/.").is_empty());
}

#[test]
fn run_watch_ticks_on_changes_only() {
    assert_eq!(run_watch(WatchEvent::Changed), WatchAction::TakeTurn);
    assert_eq!(run_watch(WatchEvent::Quiet), WatchAction::Resync);
    assert_eq!(run_watch(WatchEvent::Closed), WatchAction::Stop);
}

/// A burst of changes is waited out and makes one tick; then the paths are synced again.
#[test]
fn watch_step_makes_one_tick_of_a_burst() {
    let changed = WatchReply::Heard(WatchEvent::Changed);
    let stage = watch_step(WatchStage::Syncing, WatchReply::Synced);
    assert_eq!(stage, WatchStage::Waiting);
    let stage = watch_step(stage, changed);
    assert_eq!(stage, WatchStage::Draining);
    let stage = watch_step(watch_step(stage, changed), changed);
    assert_eq!(stage, WatchStage::Draining);
    let stage = watch_step(stage, WatchReply::Heard(WatchEvent::Quiet));
    assert_eq!(stage, WatchStage::Turning);
    let stage = watch_step(stage, WatchReply::Turned(Turn::Tick));
    assert_eq!(stage, WatchStage::Ticking);
    assert_eq!(watch_step(stage, WatchReply::Ticked), WatchStage::Syncing);
}

#[test]
fn watch_step_resyncs_and_stops() {
    let closed = WatchReply::Heard(WatchEvent::Closed);
    let quiet = WatchReply::Heard(WatchEvent::Quiet);
    let stop = WatchReply::Turned(Turn::Stop { delete_pid_file: true });

    assert_eq!(watch_step(WatchStage::Waiting, quiet), WatchStage::Syncing);
    assert_eq!(watch_step(WatchStage::Waiting, closed), WatchStage::Done);
    assert_eq!(watch_step(WatchStage::Draining, closed), WatchStage::Turning);
    assert_eq!(watch_step(WatchStage::Turning, stop), WatchStage::Done);
    assert_eq!(watch_step(WatchStage::Turning, quiet), WatchStage::Turning);
    assert_eq!(watch_step(WatchStage::Done, WatchReply::Synced), WatchStage::Done);
}

#[test]
fn git_paths_compare_by_their_fields() {
    let paths = |head: &str| GitPaths {
        head: head.to_string(),
        index: "i".to_string(),
        refs: "r".to_string(),
    };

    assert_eq!(paths("h"), paths("h"));
    assert_ne!(paths("h"), paths("x"));
}

#[test]
fn join_puts_one_separator_between() {
    assert_eq!(join("/a", "b"), "/a/b");
    assert_eq!(join("/a/", "b"), "/a/b");
    assert_eq!(join("/a", "/b"), "/b");
    assert_eq!(join("", "b"), "b");
    assert_eq!(join("/a", ""), "/a/");
    assert!(is_absolute("/a") && !is_absolute("a") && !is_absolute(""));
}

#[test]
fn normalize_drops_what_does_not_count() {
    assert_eq!(normalize("/a//b/./c/"), "/a/b/c");
    assert_eq!(normalize("./a"), "./a");
    assert_eq!(normalize("a/.."), "a/..");
    assert_eq!(normalize("//"), "/");
    assert_eq!(normalize("/."), "/");
    assert_eq!(normalize("."), ".");
    assert_eq!(normalize(""), "");
    assert_eq!(normalize(&normalize("x//y/.")), "x/y");
}

#[test]
fn file_name_is_the_last_component() {
    assert_eq!(file_name("/bin/zsh"), Some("zsh".to_string()));
    assert_eq!(file_name("/bin/zsh/."), Some("zsh".to_string()));
    assert_eq!(file_name("zsh//"), Some("zsh".to_string()));
    assert_eq!(file_name("/bin/.."), None);
    assert_eq!(file_name("/"), None);
    assert_eq!(file_name("."), None);
    assert_eq!(file_name(""), None);
}
