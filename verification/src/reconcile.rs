//! Bringing the background process in line with the settings, one outside step at a time.

use crate::cli;
use crate::command::{CommandOutput, Invocation, InvocationView};
use crate::config::RefreshMode;
use crate::detach::{
    self, decide, is_alive_and_ours, kill_invocation, ps_invocation, wants_background_process, Action,
    ExistingProcess,
};
use crate::number::{self, render};
use crate::pid_file::{
    self, extract_recorded_binary, extract_recorded_mode, extract_recorded_pid, is_our_pid_file,
    render_pid_file,
};
use crate::text;
use vstd::prelude::*;

verus! {

/// What the settings ask for, and what a background process is started with.
#[derive(Debug)]
pub struct Job {
    pub refresh: RefreshMode,
    /// The program to run in the background.
    pub binary_path: String,
    pub interval_seconds: u64,
    /// The plugin's configuration directory, if Herdr named one.
    pub config_dir: Option<String>,
}

/// How far the work has come. Each stage but the last waits for one reply.
#[derive(Debug)]
pub enum Stage {
    /// The pid file is being read.
    Reading,
    /// The recorded program is being looked for.
    CheckingBinary { contents: String, binary: String },
    /// The recorded process is being looked for.
    CheckingProcess { contents: String, binary: String, pid: u32, binary_exists: bool },
    /// The pid file is being read again, right before anything is signalled or deleted.
    Rereading { respawn: bool },
    /// The recorded process is being told to stop.
    Signalling { pid: u32, respawn: bool },
    /// The pid file is being deleted.
    Deleting { respawn: bool },
    /// The directory of the pid file is being made.
    MakingDir,
    /// The background process is being started.
    Spawning,
    /// The background process is being recorded.
    Recording { pid: u32 },
    Done,
}

/// The model of a stage.
pub enum StageView {
    Reading,
    CheckingBinary { contents: Seq<char>, binary: Seq<char> },
    CheckingProcess { contents: Seq<char>, binary: Seq<char>, pid: u32, binary_exists: bool },
    Rereading { respawn: bool },
    Signalling { pid: u32, respawn: bool },
    Deleting { respawn: bool },
    MakingDir,
    Spawning,
    Recording { pid: u32 },
    Done,
}

impl View for Stage {
    type V = StageView;

    open spec fn view(&self) -> StageView {
        match *self {
            Stage::Reading => StageView::Reading,
            Stage::CheckingBinary { contents, binary } => StageView::CheckingBinary {
                contents: contents@,
                binary: binary@,
            },
            Stage::CheckingProcess { contents, binary, pid, binary_exists } => {
                StageView::CheckingProcess {
                    contents: contents@,
                    binary: binary@,
                    pid,
                    binary_exists,
                }
            },
            Stage::Rereading { respawn } => StageView::Rereading { respawn },
            Stage::Signalling { pid, respawn } => StageView::Signalling { pid, respawn },
            Stage::Deleting { respawn } => StageView::Deleting { respawn },
            Stage::MakingDir => StageView::MakingDir,
            Stage::Spawning => StageView::Spawning,
            Stage::Recording { pid } => StageView::Recording { pid },
            Stage::Done => StageView::Done,
        }
    }
}

/// What is to be done outside.
#[derive(Debug)]
pub enum Request {
    /// Read the pid file: `Reply::Contents`.
    ReadPidFile,
    /// See whether there is a file at a path: `Reply::Exists`.
    PathExists(String),
    /// Run a command to its end: `Reply::Ran`.
    Run(Invocation),
    /// Delete the pid file: `Reply::Finished`.
    DeletePidFile,
    /// Make the directory of the pid file: `Reply::Finished`.
    MakeStateDir,
    /// Start a command in a process group of its own, without input or output: `Reply::Spawned`.
    Spawn(Invocation),
    /// Write the pid file: `Reply::Finished`.
    WritePidFile(String),
    /// Nothing.
    Stop,
}

/// The model of what is to be done outside.
pub enum RequestView {
    ReadPidFile,
    PathExists(Seq<char>),
    Run(InvocationView),
    DeletePidFile,
    MakeStateDir,
    Spawn(InvocationView),
    WritePidFile(Seq<char>),
    Stop,
}

impl View for Request {
    type V = RequestView;

    open spec fn view(&self) -> RequestView {
        match self {
            Request::ReadPidFile => RequestView::ReadPidFile,
            Request::PathExists(path) => RequestView::PathExists(path@),
            Request::Run(call) => RequestView::Run(call@),
            Request::DeletePidFile => RequestView::DeletePidFile,
            Request::MakeStateDir => RequestView::MakeStateDir,
            Request::Spawn(call) => RequestView::Spawn(call@),
            Request::WritePidFile(contents) => RequestView::WritePidFile(contents@),
            Request::Stop => RequestView::Stop,
        }
    }
}

/// What came of it.
#[derive(Debug)]
pub enum Reply {
    /// What the file holds, if it could be read.
    Contents(Option<String>),
    Exists(bool),
    /// What the command left behind, if it could be run.
    Ran(Option<CommandOutput>),
    /// Whether it worked.
    Finished(bool),
    /// The new process, if it could be started.
    Spawned(Option<u32>),
}

/// The call that starts the background process.
pub open spec fn spawn_call(job: Job) -> InvocationView {
    InvocationView {
        program: job.binary_path@,
        args: match job.refresh {
            RefreshMode::Poll => seq![
                "--poll-loop"@,
                number::digits_of(job.interval_seconds as nat),
            ],
            RefreshMode::Watch => seq!["--watch-loop"@],
            RefreshMode::Basic => seq![],
        },
        env: match job.config_dir {
            Some(dir) => seq![("HERDR_PLUGIN_CONFIG_DIR"@, dir@)],
            None => seq![],
        },
        unset: Seq::empty(),
        dir: None,
    }
}

/// The call that starts the background process.
pub fn spawn_invocation(job: &Job) -> (res: Invocation)
    ensures
        res@ == spawn_call(*job),
{
    let mut cmd = Invocation::new(job.binary_path.as_str());
    match job.refresh {
        RefreshMode::Poll => {
            cmd.arg("--poll-loop");
            cmd.arg(render(job.interval_seconds).as_str());
        },
        RefreshMode::Watch => {
            cmd.arg("--watch-loop");
        },
        RefreshMode::Basic => {},
    }
    if let Some(dir) = &job.config_dir {
        cmd.env("HERDR_PLUGIN_CONFIG_DIR", dir.as_str());
    }
    assert(cmd@.args =~= spawn_call(*job).args);
    assert(cmd@.env =~= spawn_call(*job).env);
    cmd
}

/// What is known of the process that `contents` records.
pub open spec fn recorded(contents: Seq<char>, binary_exists: bool, alive: bool) -> ExistingProcess {
    ExistingProcess {
        is_ours: pid_file::is_ours(contents),
        alive,
        binary_exists,
        mode: pid_file::recorded_mode(contents),
    }
}

/// What is to be done outside at a stage.
pub open spec fn request_at(job: Job, stage: StageView) -> RequestView {
    match stage {
        StageView::Reading => RequestView::ReadPidFile,
        StageView::CheckingBinary { contents, binary } => RequestView::PathExists(binary),
        StageView::CheckingProcess { contents, binary, pid, binary_exists } => RequestView::Run(
            detach::ps_call(pid),
        ),
        StageView::Rereading { respawn } => RequestView::ReadPidFile,
        StageView::Signalling { pid, respawn } => RequestView::Run(
            detach::kill_call("-TERM"@, pid),
        ),
        StageView::Deleting { respawn } => RequestView::DeletePidFile,
        StageView::MakingDir => RequestView::MakeStateDir,
        StageView::Spawning => RequestView::Spawn(spawn_call(job)),
        StageView::Recording { pid } => RequestView::WritePidFile(
            pid_file::pid_file(pid, job.binary_path@, job.refresh),
        ),
        StageView::Done => RequestView::Stop,
    }
}

/// The first stage of what was decided on.
pub open spec fn first_stage(action: Action) -> StageView {
    match action {
        Action::Install => StageView::MakingDir,
        Action::Remove => StageView::Rereading { respawn: false },
        Action::Switch => StageView::Rereading { respawn: true },
        Action::Noop => StageView::Done,
    }
}

/// The stage after the old process is gone.
pub open spec fn after_removal(respawn: bool) -> StageView {
    if respawn {
        StageView::MakingDir
    } else {
        StageView::Done
    }
}

/// The stage after the pid file has been read for the first time.
pub open spec fn after_reading(job: Job, file: Option<Seq<char>>) -> StageView {
    match file {
        Some(contents) => match pid_file::recorded_binary(contents) {
            Some(binary) => StageView::CheckingBinary { contents, binary },
            None => first_stage(
                detach::decision(job.refresh, Some(recorded(contents, false, false))),
            ),
        },
        None => first_stage(detach::decision(job.refresh, None)),
    }
}

/// The stage after the recorded program has been looked for.
pub open spec fn after_checking_binary(
    job: Job,
    contents: Seq<char>,
    binary: Seq<char>,
    binary_exists: bool,
) -> StageView {
    match pid_file::recorded_pid(contents) {
        Some(pid) if pid_file::is_ours(contents) => StageView::CheckingProcess {
            contents,
            binary,
            pid: pid as u32,
            binary_exists,
        },
        _ => first_stage(
            detach::decision(job.refresh, Some(recorded(contents, binary_exists, false))),
        ),
    }
}

/// The stage after the pid file has been read again.
pub open spec fn after_rereading(file: Option<Seq<char>>, respawn: bool) -> StageView {
    match file {
        Some(contents) if pid_file::is_ours(contents) => match pid_file::recorded_pid(contents) {
            Some(pid) => StageView::Signalling { pid: pid as u32, respawn },
            None => StageView::Deleting { respawn },
        },
        _ => after_removal(respawn),
    }
}

/// `reply` is of the kind that `stage` waits for.
pub open spec fn answers(stage: StageView, reply: Reply) -> bool {
    match stage {
        StageView::Reading | StageView::Rereading { .. } => reply is Contents,
        StageView::CheckingBinary { .. } => reply is Exists,
        StageView::CheckingProcess { .. } | StageView::Signalling { .. } => reply is Ran,
        StageView::Deleting { .. } | StageView::MakingDir | StageView::Recording { .. } => {
            reply is Finished
        },
        StageView::Spawning => reply is Spawned,
        StageView::Done => false,
    }
}

/// The stage after `reply`. A reply of another kind than the stage waits for changes nothing.
pub open spec fn next_stage(job: Job, stage: StageView, reply: Reply) -> StageView {
    match (stage, reply) {
        (StageView::Reading, Reply::Contents(file)) => after_reading(job, text::maybe(file)),
        (StageView::CheckingBinary { contents, binary }, Reply::Exists(binary_exists)) => {
            after_checking_binary(job, contents, binary, binary_exists)
        },
        (
            StageView::CheckingProcess { contents, binary, pid, binary_exists },
            Reply::Ran(ran),
        ) => first_stage(
            detach::decision(
                job.refresh,
                Some(recorded(contents, binary_exists, detach::shows(ran, binary))),
            ),
        ),
        (StageView::Rereading { respawn }, Reply::Contents(file)) => after_rereading(
            text::maybe(file),
            respawn,
        ),
        (StageView::Signalling { pid, respawn }, Reply::Ran(_)) => StageView::Deleting { respawn },
        (StageView::Deleting { respawn }, Reply::Finished(_)) => after_removal(respawn),
        (StageView::MakingDir, Reply::Finished(made)) => if made && detach::in_background(
            job.refresh,
        ) {
            StageView::Spawning
        } else {
            StageView::Done
        },
        (StageView::Spawning, Reply::Spawned(Some(pid))) => StageView::Recording { pid },
        (StageView::Spawning, Reply::Spawned(None)) => StageView::Done,
        (StageView::Recording { .. }, Reply::Finished(_)) => StageView::Done,
        _ => stage,
    }
}

/// What is to be done outside at `stage`.
pub fn request(job: &Job, stage: &Stage) -> (res: Request)
    ensures
        res@ == request_at(*job, stage@),
{
    match stage {
        Stage::Reading => Request::ReadPidFile,
        Stage::CheckingBinary { contents: _, binary } => Request::PathExists(binary.clone()),
        Stage::CheckingProcess { contents: _, binary: _, pid, binary_exists: _ } => Request::Run(
            ps_invocation(*pid),
        ),
        Stage::Rereading { respawn: _ } => Request::ReadPidFile,
        Stage::Signalling { pid, respawn: _ } => Request::Run(kill_invocation("-TERM", *pid)),
        Stage::Deleting { respawn: _ } => Request::DeletePidFile,
        Stage::MakingDir => Request::MakeStateDir,
        Stage::Spawning => Request::Spawn(spawn_invocation(job)),
        Stage::Recording { pid } => Request::WritePidFile(
            render_pid_file(*pid, job.binary_path.as_str(), job.refresh),
        ),
        Stage::Done => Request::Stop,
    }
}

/// Decides about the recorded process and goes on to the first stage of what was decided on.
fn act(job: &Job, existing: Option<&ExistingProcess>) -> (res: Stage)
    ensures
        res@ == first_stage(detach::decision(job.refresh, detach::given(existing))),
{
    match decide(job.refresh, existing) {
        Action::Install => Stage::MakingDir,
        Action::Remove => Stage::Rereading { respawn: false },
        Action::Switch => Stage::Rereading { respawn: true },
        Action::Noop => Stage::Done,
    }
}

/// Decides about the process that `contents` records.
fn act_on(job: &Job, contents: &str, binary_exists: bool, alive: bool) -> (res: Stage)
    ensures
        res@ == first_stage(
            detach::decision(job.refresh, Some(recorded(contents@, binary_exists, alive))),
        ),
{
    let existing = ExistingProcess {
        is_ours: is_our_pid_file(contents),
        alive,
        binary_exists,
        mode: extract_recorded_mode(contents),
    };
    act(job, Some(&existing))
}

/// Goes on after the old process is gone.
fn go_on(respawn: bool) -> (res: Stage)
    ensures
        res@ == after_removal(respawn),
{
    if respawn {
        Stage::MakingDir
    } else {
        Stage::Done
    }
}

/// Goes on after the pid file has been read for the first time.
fn survey(job: &Job, file: Option<String>) -> (res: Stage)
    ensures
        res@ == after_reading(*job, text::maybe(file)),
{
    match file {
        Some(contents) => match extract_recorded_binary(contents.as_str()) {
            Some(binary) => Stage::CheckingBinary { contents, binary },
            None => act_on(job, contents.as_str(), false, false),
        },
        None => act(job, None),
    }
}

/// Goes on after the recorded program has been looked for.
fn check_process(job: &Job, contents: String, binary: String, binary_exists: bool) -> (res: Stage)
    ensures
        res@ == after_checking_binary(*job, contents@, binary@, binary_exists),
{
    if is_our_pid_file(contents.as_str()) {
        if let Some(pid) = extract_recorded_pid(contents.as_str()) {
            return Stage::CheckingProcess { contents, binary, pid, binary_exists };
        }
    }
    act_on(job, contents.as_str(), binary_exists, false)
}

/// Stops the recorded process and deletes its record, if the file that was read again is still
/// this plugin's.
fn kill_and_delete(file: Option<String>, respawn: bool) -> (res: Stage)
    ensures
        res@ == after_rereading(text::maybe(file), respawn),
{
    match file {
        Some(contents) => {
            if !is_our_pid_file(contents.as_str()) {
                return go_on(respawn);
            }
            match extract_recorded_pid(contents.as_str()) {
                Some(pid) => Stage::Signalling { pid, respawn },
                None => Stage::Deleting { respawn },
            }
        },
        None => go_on(respawn),
    }
}

/// Takes the reply to the request of `stage` and goes on. The first stage is `Reading`.
pub fn reconcile(job: &Job, stage: Stage, reply: Reply) -> (res: Stage)
    ensures
        res@ == next_stage(*job, stage@, reply),
{
    match (stage, reply) {
        (Stage::Reading, Reply::Contents(file)) => survey(job, file),
        (Stage::CheckingBinary { contents, binary }, Reply::Exists(binary_exists)) => {
            check_process(job, contents, binary, binary_exists)
        },
        (Stage::CheckingProcess { contents, binary, pid: _, binary_exists }, Reply::Ran(ran)) => {
            let alive = is_alive_and_ours(&ran, binary.as_str());
            act_on(job, contents.as_str(), binary_exists, alive)
        },
        (Stage::Rereading { respawn }, Reply::Contents(file)) => kill_and_delete(file, respawn),
        (Stage::Signalling { pid: _, respawn }, Reply::Ran(_)) => Stage::Deleting { respawn },
        (Stage::Deleting { respawn }, Reply::Finished(_)) => go_on(respawn),
        (Stage::MakingDir, Reply::Finished(made)) => {
            if made && wants_background_process(job.refresh) {
                Stage::Spawning
            } else {
                Stage::Done
            }
        },
        (Stage::Spawning, Reply::Spawned(spawned)) => match spawned {
            Some(pid) => Stage::Recording { pid },
            None => Stage::Done,
        },
        (Stage::Recording { pid: _ }, Reply::Finished(_)) => Stage::Done,
        (stage, _) => stage,
    }
}

/// The stage that a row of replies leads to.
pub open spec fn stage_after(job: Job, replies: Seq<Reply>) -> StageView
    decreases replies.len(),
{
    if replies.len() == 0 {
        StageView::Reading
    } else {
        next_stage(job, stage_after(job, replies.drop_last()), replies.last())
    }
}

/// A request that only looks.
pub open spec fn only_looks(request: RequestView) -> bool {
    request is ReadPidFile || request is PathExists || request is Stop
}

proof fn lemma_foreign_file(job: Job, contents: String, replies: Seq<Reply>)
    requires
        replies.len() > 0,
        replies[0] == Reply::Contents(Some(contents)),
        !pid_file::is_ours(contents@),
    ensures
        match stage_after(job, replies) {
            StageView::CheckingBinary { contents: seen, binary } => seen == contents@,
            StageView::Done => true,
            _ => false,
        },
    decreases replies.len(),
{
    let before = replies.drop_last();
    if before.len() > 0 {
        assert(before[0] == replies[0]);
        lemma_foreign_file(job, contents, before);
    } else {
        assert(stage_after(job, before) == StageView::Reading);
    }
}

/// A file that another program wrote in place of the pid file is never touched: whatever the
/// settings are and whatever else comes back, nothing is run, started, deleted or written.
pub proof fn law_foreign_file_is_never_touched(job: Job, contents: String, replies: Seq<Reply>)
    requires
        replies.len() > 0,
        replies[0] == Reply::Contents(Some(contents)),
        !pid_file::is_ours(contents@),
    ensures
        only_looks(request_at(job, stage_after(job, replies))),
{
    lemma_foreign_file(job, contents, replies);
}

/// A pid file of this plugin has been read.
pub open spec fn own_record(reply: Reply) -> bool {
    match reply {
        Reply::Contents(Some(contents)) => pid_file::is_ours(contents@),
        _ => false,
    }
}

/// Only a process and a pid file that were just seen to be this plugin's are signalled and
/// deleted.
pub proof fn law_only_own_process_is_stopped(job: Job, stage: StageView, reply: Reply)
    ensures
        match next_stage(job, stage, reply) {
            StageView::Signalling { pid, respawn } => {
                ||| stage is Signalling
                ||| stage is Rereading && own_record(reply) && pid_file::recorded_pid(
                    reply->Contents_0->0@,
                ) == Some(pid as nat)
            },
            StageView::Deleting { respawn } => {
                ||| stage is Deleting
                ||| stage is Signalling
                ||| stage is Rereading && own_record(reply)
            },
            _ => true,
        },
{
    if let Reply::Contents(Some(contents)) = reply {
        if let Some(pid) = pid_file::recorded_pid(contents@) {
            assert(pid <= u32::MAX);
        }
    }
}

/// How many replies can still come.
pub open spec fn replies_left(stage: StageView) -> nat {
    match stage {
        StageView::Reading => 9,
        StageView::CheckingBinary { .. } => 8,
        StageView::CheckingProcess { .. } => 7,
        StageView::Rereading { .. } => 6,
        StageView::Signalling { .. } => 5,
        StageView::Deleting { .. } => 4,
        StageView::MakingDir => 3,
        StageView::Spawning => 2,
        StageView::Recording { .. } => 1,
        StageView::Done => 0,
    }
}

/// Every reply that a stage waits for brings the work nearer to its end.
pub proof fn law_reconcile_comes_to_an_end(job: Job, stage: StageView, reply: Reply)
    ensures
        answers(stage, reply) ==> replies_left(next_stage(job, stage, reply)) < replies_left(stage),
        !answers(stage, reply) ==> next_stage(job, stage, reply) == stage,
        replies_left(stage) == 0 <==> request_at(job, stage) is Stop,
{
}

/// A process in the wrong mode is stopped and the new one started in one go: once the switch has
/// been decided on, every way leads to the start of the new process.
pub proof fn law_switch_starts_anew(job: Job, stage: StageView, reply: Reply)
    requires
        stage == (StageView::Rereading { respawn: true }) || (stage matches StageView::Signalling {
            respawn: true,
            ..
        }) || stage == (StageView::Deleting { respawn: true }),
        answers(stage, reply),
    ensures
        ({
            let next = next_stage(job, stage, reply);
            ||| next matches StageView::Signalling { respawn: true, .. }
            ||| next == (StageView::Deleting { respawn: true })
            ||| next == StageView::MakingDir
        }),
{
}

/// A background process that runs as it was recorded is left alone: nothing is done until the
/// settings change.
pub proof fn law_running_process_is_left_alone(
    job: Job,
    pid: u32,
    contents: String,
    ran: Option<CommandOutput>,
)
    requires
        detach::in_background(job.refresh),
        contents@ == pid_file::pid_file(pid, job.binary_path@, job.refresh),
        !job.binary_path@.contains('\n'),
        !(job.binary_path@.len() > 0 && job.binary_path@.last() == '\r'),
        detach::shows(ran, job.binary_path@),
    ensures
        ({
            let replies = seq![
                Reply::Contents(Some(contents)),
                Reply::Exists(true),
                Reply::Ran(ran),
            ];
            &&& request_at(job, stage_after(job, replies.take(1))) == RequestView::PathExists(
                job.binary_path@,
            )
            &&& request_at(job, stage_after(job, replies.take(2))) == RequestView::Run(
                detach::ps_call(pid),
            )
            &&& stage_after(job, replies) == StageView::Done
        }),
{
    let binary = job.binary_path@;
    pid_file::law_own_record_is_ours(pid, binary, job.refresh);
    pid_file::law_record_keeps_pid(pid, binary, job.refresh);
    pid_file::law_record_keeps_binary(pid, binary, job.refresh);
    pid_file::law_plain_path_hides_no_mode(binary);
    pid_file::law_record_keeps_mode(pid, binary, job.refresh);
    let replies = seq![Reply::Contents(Some(contents)), Reply::Exists(true), Reply::Ran(ran)];
    assert(replies.take(1).drop_last() =~= Seq::empty());
    assert(stage_after(job, replies.take(1).drop_last()) == StageView::Reading);
    assert(replies.take(2).drop_last() =~= replies.take(1));
    assert(replies.drop_last() =~= replies.take(2));
    assert(stage_after(job, replies.take(1)) == after_reading(job, Some(contents@)));
}

/// Setting the mode back to `basic` stops the running process and removes its pid file.
pub proof fn law_basic_stops_the_process(
    job: Job,
    pid: u32,
    binary: Seq<char>,
    mode: RefreshMode,
    contents: String,
    ran: Option<CommandOutput>,
    killed: Option<CommandOutput>,
    deleted: bool,
)
    requires
        job.refresh == RefreshMode::Basic,
        contents@ == pid_file::pid_file(pid, binary, mode),
        !binary.contains('\n'),
        !(binary.len() > 0 && binary.last() == '\r'),
        detach::shows(ran, binary),
    ensures
        ({
            let replies = seq![
                Reply::Contents(Some(contents)),
                Reply::Exists(true),
                Reply::Ran(ran),
                Reply::Contents(Some(contents)),
                Reply::Ran(killed),
                Reply::Finished(deleted),
            ];
            &&& request_at(job, stage_after(job, replies.take(3))) == RequestView::ReadPidFile
            &&& request_at(job, stage_after(job, replies.take(4))) == RequestView::Run(
                detach::kill_call("-TERM"@, pid),
            )
            &&& request_at(job, stage_after(job, replies.take(5))) == RequestView::DeletePidFile
            &&& stage_after(job, replies) == StageView::Done
        }),
{
    pid_file::law_own_record_is_ours(pid, binary, mode);
    pid_file::law_record_keeps_pid(pid, binary, mode);
    pid_file::law_record_keeps_binary(pid, binary, mode);
    let replies = seq![
        Reply::Contents(Some(contents)),
        Reply::Exists(true),
        Reply::Ran(ran),
        Reply::Contents(Some(contents)),
        Reply::Ran(killed),
        Reply::Finished(deleted),
    ];
    assert(replies.take(1).drop_last() =~= Seq::empty());
    assert(stage_after(job, replies.take(1).drop_last()) == StageView::Reading);
    assert(stage_after(job, replies.take(1)) == after_reading(job, Some(contents@)));
    assert(replies.take(2).drop_last() =~= replies.take(1));
    assert(replies.take(3).drop_last() =~= replies.take(2));
    assert(replies.take(4).drop_last() =~= replies.take(3));
    assert(replies.take(5).drop_last() =~= replies.take(4));
    assert(replies.drop_last() =~= replies.take(5));
    assert(stage_after(job, replies.take(2)) == after_checking_binary(job, contents@, binary, true));
    assert(stage_after(job, replies.take(3)) == (StageView::Rereading { respawn: false }));
    assert(stage_after(job, replies.take(4)) == (StageView::Signalling { pid, respawn: false }));
}

/// With nothing recorded, a background process is started and recorded under its own number.
pub proof fn law_new_process_is_recorded(job: Job, pid: u32, written: bool)
    requires
        detach::in_background(job.refresh),
    ensures
        ({
            let replies = seq![
                Reply::Contents(None),
                Reply::Finished(true),
                Reply::Spawned(Some(pid)),
                Reply::Finished(written),
            ];
            &&& request_at(job, stage_after(job, replies.take(1))) == RequestView::MakeStateDir
            &&& request_at(job, stage_after(job, replies.take(2))) == RequestView::Spawn(
                spawn_call(job),
            )
            &&& request_at(job, stage_after(job, replies.take(3))) == RequestView::WritePidFile(
                pid_file::pid_file(pid, job.binary_path@, job.refresh),
            )
            &&& stage_after(job, replies) == StageView::Done
        }),
{
    let replies = seq![
        Reply::Contents(None),
        Reply::Finished(true),
        Reply::Spawned(Some(pid)),
        Reply::Finished(written),
    ];
    assert(replies.take(1).drop_last() =~= Seq::empty());
    assert(stage_after(job, replies.take(1).drop_last()) == StageView::Reading);
    assert(stage_after(job, replies.take(1)) == after_reading(job, None));
    assert(replies.take(2).drop_last() =~= replies.take(1));
    assert(replies.take(3).drop_last() =~= replies.take(2));
    assert(replies.drop_last() =~= replies.take(3));
}

/// How a process that this plugin recorded is judged: its program and then the process itself are
/// looked for, and what they turn out to be, with the mode that is recorded and the one that is
/// requested, decides what comes next.
pub proof fn law_recorded_process_is_judged(
    job: Job,
    contents: String,
    binary: Seq<char>,
    pid: u32,
    binary_exists: bool,
    ran: Option<CommandOutput>,
)
    requires
        pid_file::is_ours(contents@),
        pid_file::field(contents@, "binary"@) == Some(binary),
        pid_file::recorded_pid(contents@) == Some(pid as nat),
    ensures
        ({
            let wanted = job.refresh == RefreshMode::Poll || job.refresh == RefreshMode::Watch;
            let alive = detach::shows(ran, binary);
            let a = next_stage(job, StageView::Reading, Reply::Contents(Some(contents)));
            let b = next_stage(job, a, Reply::Exists(binary_exists));
            let c = next_stage(job, b, Reply::Ran(ran));
            &&& request_at(job, a) == RequestView::PathExists(binary)
            &&& request_at(job, b) == RequestView::Run(detach::ps_call(pid))
            &&& !binary_exists ==> c == (StageView::Rereading { respawn: false })
            &&& binary_exists && alive && !wanted ==> c == (StageView::Rereading {
                respawn: false,
            })
            &&& binary_exists && alive && wanted ==> c == if pid_file::recorded_mode(contents@)
                == Some(job.refresh) {
                StageView::Done
            } else {
                StageView::Rereading { respawn: true }
            }
            &&& binary_exists && !alive ==> c == if wanted {
                StageView::MakingDir
            } else {
                StageView::Done
            }
        }),
{
}

/// A record of this plugin without a program is removed. One without a process's number is removed
/// if its program is gone, and otherwise counts as dead.
pub proof fn law_incomplete_record_is_judged(job: Job, contents: String, binary_exists: bool)
    requires
        pid_file::is_ours(contents@),
    ensures
        ({
            let wanted = job.refresh == RefreshMode::Poll || job.refresh == RefreshMode::Watch;
            let a = next_stage(job, StageView::Reading, Reply::Contents(Some(contents)));
            let b = next_stage(job, a, Reply::Exists(binary_exists));
            let binary = pid_file::field(contents@, "binary"@);
            &&& binary is None ==> a == (StageView::Rereading { respawn: false })
            &&& binary is Some && pid_file::recorded_pid(contents@) is None ==> b
                == if !binary_exists {
                StageView::Rereading { respawn: false }
            } else if wanted {
                StageView::MakingDir
            } else {
                StageView::Done
            }
        }),
{
}

/// Without a pid file a background process is started exactly if one is wanted.
pub proof fn law_nothing_recorded(job: Job)
    ensures
        next_stage(job, StageView::Reading, Reply::Contents(None)) == if job.refresh
            == RefreshMode::Poll || job.refresh == RefreshMode::Watch {
            StageView::MakingDir
        } else {
            StageView::Done
        },
{
}

/// A removal reads the pid file again. If it is still this plugin's, the process that it names is
/// told to stop, and then the file is deleted, whatever came of that; if it is not, neither happens.
/// After that a new process is started exactly if that was the point of it.
pub proof fn law_removal_goes_through(
    job: Job,
    contents: String,
    pid: u32,
    respawn: bool,
    ran: Option<CommandOutput>,
    deleted: bool,
)
    ensures
        ({
            let start = StageView::Rereading { respawn };
            let end = if respawn {
                StageView::MakingDir
            } else {
                StageView::Done
            };
            let read = next_stage(job, start, Reply::Contents(Some(contents)));
            let killed = next_stage(job, read, Reply::Ran(ran));
            let ours = pid_file::is_ours(contents@);
            &&& request_at(job, start) == RequestView::ReadPidFile
            &&& next_stage(job, start, Reply::Contents(None)) == end
            &&& !ours ==> read == end
            &&& ours && pid_file::recorded_pid(contents@) == Some(pid as nat) ==> {
                &&& request_at(job, read) == RequestView::Run(detach::kill_call("-TERM"@, pid))
                &&& request_at(job, killed) == RequestView::DeletePidFile
                &&& next_stage(job, killed, Reply::Finished(deleted)) == end
            }
            &&& ours && pid_file::recorded_pid(contents@) is None ==> {
                &&& request_at(job, read) == RequestView::DeletePidFile
                &&& next_stage(job, read, Reply::Finished(deleted)) == end
            }
        }),
{
}

/// A background process is started once its directory is there, and recorded under the number that
/// it got, with its program and mode; if either step fails, that is the end of it.
pub proof fn law_start_goes_through(job: Job, pid: u32, written: bool)
    requires
        job.refresh == RefreshMode::Poll || job.refresh == RefreshMode::Watch,
    ensures
        ({
            let made = next_stage(job, StageView::MakingDir, Reply::Finished(true));
            let spawned = next_stage(job, made, Reply::Spawned(Some(pid)));
            &&& request_at(job, StageView::MakingDir) == RequestView::MakeStateDir
            &&& next_stage(job, StageView::MakingDir, Reply::Finished(false)) == StageView::Done
            &&& request_at(job, made) == RequestView::Spawn(spawn_call(job))
            &&& next_stage(job, made, Reply::Spawned(None)) == StageView::Done
            &&& request_at(job, spawned) == RequestView::WritePidFile(
                pid_file::pid_file(pid, job.binary_path@, job.refresh),
            )
            &&& next_stage(job, spawned, Reply::Finished(written)) == StageView::Done
        }),
{
}

/// The background process is the given program, told to poll at the given interval or to watch, with
/// the configuration directory handed on if there is one.
pub proof fn law_process_is_told_its_mode(job: Job)
    ensures
        spawn_call(job).program == job.binary_path@,
        job.refresh == RefreshMode::Poll ==> spawn_call(job).args.len() == 2 && spawn_call(
            job,
        ).args[0] == "--poll-loop"@ && number::parsed(spawn_call(job).args[1]) == Some(
            job.interval_seconds as nat,
        ),
        job.refresh == RefreshMode::Watch ==> spawn_call(job).args == seq!["--watch-loop"@],
        job.config_dir is Some ==> spawn_call(job).env == seq![
            ("HERDR_PLUGIN_CONFIG_DIR"@, job.config_dir->0@),
        ],
        job.config_dir is None ==> spawn_call(job).env.len() == 0,
        spawn_call(job).dir is None,
{
    number::law_render_parses_back(job.interval_seconds as nat);
}

/// A background process that was started does what it was started for.
pub proof fn law_process_understands_its_arguments(job: Job, program: Seq<char>)
    requires
        program != "--tick"@,
        program != "--poll-loop"@,
    ensures
        job.refresh == RefreshMode::Poll ==> cli::asked_for(
            seq![program] + spawn_call(job).args,
            cli::Task::PollLoop(Some(job.interval_seconds)),
        ),
        job.refresh == RefreshMode::Watch ==> cli::asked_for(
            seq![program] + spawn_call(job).args,
            cli::Task::WatchLoop,
        ),
{
    let args = seq![program] + spawn_call(job).args;
    if job.refresh == RefreshMode::Poll {
        cli::law_poll_loop_gets_its_interval(program, job.interval_seconds);
        assert(args =~= seq![
            program,
            "--poll-loop"@,
            number::digits_of(job.interval_seconds as nat),
        ]);
    }
    if job.refresh == RefreshMode::Watch {
        reveal_strlit("--tick");
        reveal_strlit("--poll-loop");
        reveal_strlit("--watch-loop");
        assert("--tick"@[2] != "--watch-loop"@[2]);
        assert("--poll-loop"@[2] != "--watch-loop"@[2]);
        assert(args =~= seq![program, "--watch-loop"@]);
        assert(args[1] == "--watch-loop"@);
        assert(!args.contains("--tick"@));
        assert(!args.contains("--poll-loop"@));
    }
}

} // verus!
