//! The commands that render and report modules: how they are called, and what their output means.

use crate::ansi::{self, strip_ansi};
use crate::command::{self, decode_lossy, CommandOutput, Invocation, InvocationView};
use crate::fitter::{self, Module, ModuleView};
use vstd::prelude::*;

verus! {

/// How long a command may take, in seconds.
pub const TIMEOUT: u64 = 3;

/// How long a login shell may take, in seconds. One with oh-my-zsh, nvm, or p10k starts slower
/// than a single module renders.
pub const SHELL_RESOLVE_TIMEOUT: u64 = 8;

/// How long to wait before looking at a running command again, in milliseconds.
pub const POLL_DELAY: u64 = 20;

/// Why a command gave nothing.
#[derive(Debug)]
pub enum AdapterError {
    Failed(String),
    Timeout,
}

/// The model of an error.
pub enum AdapterErrorView {
    Failed(Seq<char>),
    Timeout,
}

impl View for AdapterError {
    type V = AdapterErrorView;

    open spec fn view(&self) -> AdapterErrorView {
        match self {
            AdapterError::Failed(message) => AdapterErrorView::Failed(message@),
            AdapterError::Timeout => AdapterErrorView::Timeout,
        }
    }
}

impl AdapterErrorView {
    /// The error in words.
    pub open spec fn words(self) -> Seq<char> {
        match self {
            AdapterErrorView::Failed(message) => message,
            AdapterErrorView::Timeout => "timed out"@,
        }
    }
}

impl AdapterError {
    /// The error in words.
    pub fn message(&self) -> (res: String)
        ensures
            res@ == self@.words(),
    {
        match self {
            AdapterError::Failed(message) => message.clone(),
            AdapterError::Timeout => "timed out".to_owned(),
        }
    }
}

/// What happened to a command that is given a time limit.
#[derive(Debug)]
pub enum WaitEvent {
    Started,
    NotStarted(String),
    Exited,
    /// It had not exited when the given time had passed since its start.
    StillRunning { elapsed_nanos: u128 },
    /// Whether it had exited could not be found out.
    Unknown(String),
    Killed,
    Collected(CommandOutput),
    NotCollected(String),
}

/// What to do about a command that is given a time limit.
#[derive(Debug)]
pub enum WaitAction {
    /// See whether it has exited.
    Look,
    /// Sleep, and then see whether it has exited.
    Sleep,
    Kill,
    /// Read what it has written.
    Collect,
    Finish(Result<CommandOutput, AdapterError>),
}

/// What to do after `event`: a command that exits hands over its output, one that runs out of
/// time is killed and timed out, and anything that goes wrong ends the wait with its reason.
pub open spec fn wait_action(event: WaitEvent, timeout_nanos: u128) -> WaitAction {
    match event {
        WaitEvent::Started => WaitAction::Look,
        WaitEvent::Exited => WaitAction::Collect,
        WaitEvent::StillRunning { elapsed_nanos } => if elapsed_nanos < timeout_nanos {
            WaitAction::Sleep
        } else {
            WaitAction::Kill
        },
        WaitEvent::Killed => WaitAction::Finish(Err(AdapterError::Timeout)),
        WaitEvent::Collected(output) => WaitAction::Finish(Ok(output)),
        WaitEvent::NotStarted(message) => WaitAction::Finish(Err(AdapterError::Failed(message))),
        WaitEvent::Unknown(message) => WaitAction::Finish(Err(AdapterError::Failed(message))),
        WaitEvent::NotCollected(message) => WaitAction::Finish(Err(AdapterError::Failed(message))),
    }
}

/// Decides what to do about a command that may take at most `timeout_nanos`.
pub fn run_with_timeout(event: WaitEvent, timeout_nanos: u128) -> (res: WaitAction)
    ensures
        res == wait_action(event, timeout_nanos),
{
    match event {
        WaitEvent::Started => WaitAction::Look,
        WaitEvent::Exited => WaitAction::Collect,
        WaitEvent::StillRunning { elapsed_nanos } => {
            if elapsed_nanos < timeout_nanos {
                WaitAction::Sleep
            } else {
                WaitAction::Kill
            }
        },
        WaitEvent::Killed => WaitAction::Finish(Err(AdapterError::Timeout)),
        WaitEvent::Collected(output) => WaitAction::Finish(Ok(output)),
        WaitEvent::NotStarted(message) => WaitAction::Finish(Err(AdapterError::Failed(message))),
        WaitEvent::Unknown(message) => WaitAction::Finish(Err(AdapterError::Failed(message))),
        WaitEvent::NotCollected(message) => WaitAction::Finish(
            Err(AdapterError::Failed(message)),
        ),
    }
}

/// `starship module`, run in a worktree. Starship goes by the inherited `PWD`, not by the real
/// directory.
pub open spec fn module_call(
    name: Seq<char>,
    worktree: Seq<char>,
    config: Option<&str>,
) -> InvocationView {
    let pwd = seq![("PWD"@, worktree)];
    InvocationView {
        program: "starship"@,
        args: seq!["module"@, name],
        env: match config {
            Some(file) => pwd.push(("STARSHIP_CONFIG"@, file@)),
            None => pwd,
        },
        unset: Seq::empty(),
        dir: Some(worktree),
    }
}

/// The call that renders the module `name` in a worktree.
pub fn module_invocation(name: &str, worktree_path: &str, config_file: Option<&str>) -> (res:
    Invocation)
    ensures
        res@ == module_call(name@, worktree_path@, config_file),
{
    let mut cmd = Invocation::new("starship");
    cmd.arg("module");
    cmd.arg(name);
    cmd.current_dir(worktree_path);
    cmd.env("PWD", worktree_path);
    if let Some(config) = config_file {
        cmd.env("STARSHIP_CONFIG", config);
    }
    proof {
        let call = module_call(name@, worktree_path@, config_file);
        assert(cmd@.args =~= call.args);
        assert(cmd@.env =~= call.env);
    }
    cmd
}

/// The model of what a command gave.
pub open spec fn outcome(res: Result<String, AdapterError>) -> Result<Seq<char>, AdapterErrorView> {
    match res {
        Ok(s) => Ok(s@),
        Err(e) => Err(e@),
    }
}

/// The text that `starship module` gave. It may exit with success and still complain, so anything
/// on standard error counts as a failure.
pub open spec fn module_result(ran: Result<CommandOutput, AdapterError>) -> Result<
    Seq<char>,
    AdapterErrorView,
> {
    match ran {
        Ok(output) => if output.success && output.stderr@.len() == 0 {
            Ok(command::lossy_text(output.stdout@))
        } else {
            Err(AdapterErrorView::Failed(command::lossy_text(output.stderr@)))
        },
        Err(e) => Err(e@),
    }
}

/// The text that `starship prompt` gave, whatever its exit status.
pub open spec fn prompt_result(ran: Result<CommandOutput, AdapterError>) -> Result<
    Seq<char>,
    AdapterErrorView,
> {
    match ran {
        Ok(output) => Ok(command::lossy_text(output.stdout@)),
        Err(e) => Err(e@),
    }
}

/// What the rendering of a module came to.
pub fn invoke_module(ran: Result<CommandOutput, AdapterError>) -> (res: Result<
    String,
    AdapterError,
>)
    ensures
        outcome(res) == module_result(ran),
{
    match ran {
        Ok(output) => {
            if !output.success || output.stderr.len() > 0 {
                return Err(AdapterError::Failed(decode_lossy(output.stderr.as_slice())));
            }
            Ok(decode_lossy(output.stdout.as_slice()))
        },
        Err(e) => Err(e),
    }
}

/// `starship prompt`, as wide as it likes. Without `STARSHIP_SHELL` its output is plain ANSI, not
/// in the markers of a shell.
pub open spec fn prompt_call(repo: Seq<char>, config: Seq<char>) -> InvocationView {
    InvocationView {
        program: "starship"@,
        args: seq!["prompt"@, "--path"@, repo, "--terminal-width"@, "200"@],
        env: seq![("STARSHIP_CONFIG"@, config)],
        unset: seq!["STARSHIP_SHELL"@],
        dir: None,
    }
}

/// The call that renders the whole configured line at once.
pub fn prompt_invocation(repo: &str, config: &str) -> (res: Invocation)
    ensures
        res@ == prompt_call(repo@, config@),
{
    let mut cmd = Invocation::new("starship");
    cmd.arg("prompt");
    cmd.arg("--path");
    cmd.arg(repo);
    cmd.arg("--terminal-width");
    cmd.arg("200");
    cmd.env("STARSHIP_CONFIG", config);
    cmd.env_remove("STARSHIP_SHELL");
    proof {
        let call = prompt_call(repo@, config@);
        assert(cmd@.args =~= call.args);
        assert(cmd@.env =~= call.env);
        assert(cmd@.unset =~= call.unset);
    }
    cmd
}

/// What the rendering of the whole line came to.
pub fn invoke_prompt(ran: Result<CommandOutput, AdapterError>) -> (res: Result<
    String,
    AdapterError,
>)
    ensures
        outcome(res) == prompt_result(ran),
{
    match ran {
        Ok(output) => Ok(decode_lossy(output.stdout.as_slice())),
        Err(e) => Err(e),
    }
}

/// The name under which tokens are reported.
pub const SOURCE: &'static str = "herdr-starship";

/// The arguments that hand over tokens.
pub open spec fn token_args(tokens: Seq<(Seq<char>, Seq<char>)>) -> Seq<Seq<char>>
    decreases tokens.len(),
{
    if tokens.len() == 0 {
        Seq::empty()
    } else {
        token_args(tokens.drop_last()).push("--token"@).push(
            tokens.last().0 + "="@ + tokens.last().1,
        )
    }
}

/// `herdr workspace report-metadata` with all tokens in one call.
pub open spec fn report_call(
    workspace_id: Seq<char>,
    tokens: Seq<(Seq<char>, Seq<char>)>,
) -> InvocationView {
    command::call(
        "herdr"@,
        seq!["workspace"@, "report-metadata"@, workspace_id, "--source"@, SOURCE@] + token_args(
            tokens,
        ),
    )
}

/// The call that reports tokens of a workspace.
pub fn report_invocation(workspace_id: &str, tokens: &Vec<(String, String)>) -> (res: Invocation)
    ensures
        res@ == report_call(workspace_id@, command::pairs(tokens@)),
{
    let mut cmd = Invocation::new("herdr");
    cmd.arg("workspace");
    cmd.arg("report-metadata");
    cmd.arg(workspace_id);
    cmd.arg("--source");
    cmd.arg(SOURCE);
    let ghost all = command::pairs(tokens@);
    let ghost head = seq!["workspace"@, "report-metadata"@, workspace_id@, "--source"@, SOURCE@];
    assert(cmd@.args =~= head + token_args(all.take(0)));
    let mut i: usize = 0;
    while i < tokens.len()
        invariant
            i <= tokens@.len(),
            all == command::pairs(tokens@),
            cmd@ == command::call("herdr"@, head + token_args(all.take(i as int))),
        decreases tokens@.len() - i,
    {
        let ghost before = cmd@.args;
        let mut token = tokens[i].0.clone();
        token.append("=");
        token.append(tokens[i].1.as_str());
        cmd.arg("--token");
        cmd.arg(token.as_str());
        proof {
            assert(all.take(i + 1).drop_last() =~= all.take(i as int));
            assert(all.take(i + 1).last() == (tokens@[i as int].0@, tokens@[i as int].1@));
            assert(cmd@.args =~= head + token_args(all.take(i + 1)));
        }
        i = i + 1;
    }
    assert(all.take(i as int) =~= all);
    cmd
}

/// What a report came to: an error if the command did not run or did not succeed.
pub open spec fn report_result(ran: Result<CommandOutput, String>) -> Result<(), AdapterErrorView> {
    match ran {
        Ok(output) => if output.success {
            Ok(())
        } else {
            Err(AdapterErrorView::Failed(command::lossy_text(output.stderr@)))
        },
        Err(message) => Err(AdapterErrorView::Failed(message@)),
    }
}

/// What a report came to.
pub fn report_metadata(ran: Result<CommandOutput, String>) -> (res: Result<(), AdapterError>)
    ensures
        match (res, report_result(ran)) {
            (Ok(_), Ok(_)) => true,
            (Err(a), Err(b)) => a@ == b,
            _ => false,
        },
{
    match ran {
        Ok(output) => {
            if output.success {
                Ok(())
            } else {
                Err(AdapterError::Failed(decode_lossy(output.stderr.as_slice())))
            }
        },
        Err(message) => Err(AdapterError::Failed(message)),
    }
}

/// The tokens that modules make: each content without its control sequences.
pub open spec fn tokens_of(modules: Seq<ModuleView>) -> Seq<(Seq<char>, Seq<char>)> {
    modules.map_values(|m: ModuleView| (m.name, ansi::visible(m.content)))
}

/// The call that reports modules as tokens of a workspace. Herdr's token store mangles raw ANSI,
/// so none of it goes out.
pub fn push_tokens(workspace_id: &str, modules: &Vec<Module>) -> (res: Invocation)
    ensures
        res@ == report_call(workspace_id@, tokens_of(fitter::views(modules@))),
{
    let mut tokens: Vec<(String, String)> = Vec::new();
    let ghost all = tokens_of(fitter::views(modules@));
    let mut i: usize = 0;
    while i < modules.len()
        invariant
            i <= modules@.len(),
            all == tokens_of(fitter::views(modules@)),
            tokens@.len() == i,
            forall|k: int|
                0 <= k < i ==> #[trigger] all[k] == (tokens@[k].0@, tokens@[k].1@),
        decreases modules@.len() - i,
    {
        let name = modules[i].name.clone();
        let content = strip_ansi(modules[i].content.as_str());
        assert(all[i as int] == (name@, content@));
        tokens.push((name, content));
        i = i + 1;
    }
    assert(command::pairs(tokens@) =~= all);
    report_invocation(workspace_id, &tokens)
}

/// From position `at` on, `args` hands over `token`.
pub open spec fn hands_over(
    args: Seq<Seq<char>>,
    at: int,
    token: (Seq<char>, Seq<char>),
) -> bool {
    0 <= at && at + 1 < args.len() && args[at] == "--token"@ && args[at + 1] == token.0 + "="@
        + token.1
}

proof fn lemma_token_args(tokens: Seq<(Seq<char>, Seq<char>)>, i: int)
    requires
        0 <= i < tokens.len(),
    ensures
        token_args(tokens).len() == 2 * tokens.len(),
        hands_over(token_args(tokens), 2 * i, tokens[i]),
    decreases tokens.len(),
{
    let rest = tokens.drop_last();
    if rest.len() > 0 {
        lemma_token_args(rest, if i < rest.len() {
            i
        } else {
            0
        });
    } else {
        assert(token_args(rest).len() == 0);
    }
    if i < rest.len() {
        assert(rest[i] == tokens[i]);
    }
}

/// One call hands over every token, in order, behind the workspace and the source.
pub proof fn law_report_carries_every_token(
    workspace_id: Seq<char>,
    tokens: Seq<(Seq<char>, Seq<char>)>,
)
    ensures
        report_call(workspace_id, tokens).args.len() == 5 + 2 * tokens.len(),
        report_call(workspace_id, tokens).args[2] == workspace_id,
        report_call(workspace_id, tokens).args[4] == SOURCE@,
        forall|i: int|
            0 <= i < tokens.len() ==> hands_over(
                report_call(workspace_id, tokens).args,
                5 + 2 * i,
                #[trigger] tokens[i],
            ),
{
    let args = report_call(workspace_id, tokens).args;
    if tokens.len() > 0 {
        lemma_token_args(tokens, 0);
    }
    assert forall|i: int| 0 <= i < tokens.len() implies hands_over(
        args,
        5 + 2 * i,
        #[trigger] tokens[i],
    ) by {
        lemma_token_args(tokens, i);
        assert(args[5 + 2 * i] == token_args(tokens)[2 * i]);
        assert(args[5 + 2 * i + 1] == token_args(tokens)[2 * i + 1]);
    }
}

/// A token that goes out holds no control sequence, unless taking the sequences out of the content
/// puts a new one together.
pub proof fn law_pushed_tokens_are_plain(modules: Seq<ModuleView>, i: int)
    requires
        0 <= i < modules.len(),
        !ansi::rejoins(ansi::spans(modules[i].content)),
    ensures
        tokens_of(modules)[i].0 == modules[i].name,
        ansi::is_plain(tokens_of(modules)[i].1),
{
    ansi::law_visible_is_plain(modules[i].content);
}

/// The value of a token is the whole text of its content: for content that is made of well-formed
/// segments, all text segments in order, and nothing of the control sequences.
pub proof fn law_token_holds_all_of_the_text(name: Seq<char>, list: Seq<ansi::SpanView>)
    requires
        ansi::well_formed(list),
    ensures
        tokens_of(seq![ModuleView { name, content: ansi::join(list) }]) == seq![
            (name, ansi::visible_of(list)),
        ],
{
    ansi::law_join_splits_back(list);
    assert(tokens_of(seq![ModuleView { name, content: ansi::join(list) }]) =~= seq![
        (name, ansi::visible_of(list)),
    ]);
}

/// A control sequence in a content is left out of its token, and the text before and after it stays.
/// Content without control sequences goes out as it is.
pub proof fn law_token_loses_control_sequences_only(
    name: Seq<char>,
    front: Seq<char>,
    params: Seq<char>,
    last: char,
    rest: Seq<char>,
)
    requires
        forall|k: int|
            0 <= k < front.len() - 1 ==> !(#[trigger] front[k] == '\x1b' && front[k + 1] == '['),
        forall|i: int| 0 <= i < params.len() ==> !('@' <= #[trigger] params[i] <= '~'),
        '@' <= last <= '~',
    ensures
        ({
            let token = |content: Seq<char>| tokens_of(seq![ModuleView { name, content }])[0];
            &&& token(front) == (name, front)
            &&& token(front + seq!['\x1b', '['] + params + seq![last] + rest) == (
                name,
                front + token(rest).1,
            )
        }),
{
    ansi::law_control_sequence_is_left_out(front, params, last, rest);
    ansi::law_plain_text_is_visible(front);
}

/// Every module makes one token, under its own name, and whatever else is pushed does not matter to
/// it. Its value is as long as its content less the control sequences.
pub proof fn law_tokens_are_made_one_by_one(modules: Seq<ModuleView>, m: ModuleView)
    ensures
        tokens_of(Seq::empty()).len() == 0,
        tokens_of(modules.push(m)) == tokens_of(modules).push(tokens_of(seq![m])[0]),
        tokens_of(seq![m]).len() == 1,
        tokens_of(seq![m])[0].0 == m.name,
        tokens_of(seq![m])[0].1.len() + ansi::total_len(ansi::escapes(m.content))
            == m.content.len(),
{
    assert(tokens_of(modules.push(m)) =~= tokens_of(modules).push(tokens_of(seq![m])[0]));
    ansi::law_no_character_is_lost(m.content);
}

/// A report is a call of `herdr` for one workspace, under the plugin's name, in the environment as
/// it is.
pub proof fn law_report_names_workspace_and_source(
    workspace_id: Seq<char>,
    tokens: Seq<(Seq<char>, Seq<char>)>,
)
    ensures
        ({
            let call = report_call(workspace_id, tokens);
            &&& call.program == "herdr"@
            &&& call.args.take(5) == seq![
                "workspace"@,
                "report-metadata"@,
                workspace_id,
                "--source"@,
                "herdr-starship"@,
            ]
            &&& call.env.len() == 0 && call.unset.len() == 0 && call.dir is None
        }),
{
    assert(report_call(workspace_id, tokens).args.take(5) =~= seq![
        "workspace"@,
        "report-metadata"@,
        workspace_id,
        "--source"@,
        "herdr-starship"@,
    ]);
}

/// A module is rendered in its worktree, both as directory and as `PWD`, and with the given
/// configuration if there is one; nothing else is set.
pub proof fn law_module_is_rendered_in_its_worktree(
    name: Seq<char>,
    worktree: Seq<char>,
    config: &str,
)
    ensures
        ({
            let plain = module_call(name, worktree, None);
            let given = module_call(name, worktree, Some(config));
            &&& plain.program == "starship"@ && given.program == "starship"@
            &&& plain.args == seq!["module"@, name] && given.args == plain.args
            &&& plain.dir == Some(worktree) && given.dir == Some(worktree)
            &&& plain.unset.len() == 0 && given.unset.len() == 0
            &&& plain.env == seq![("PWD"@, worktree)]
            &&& given.env == plain.env + seq![("STARSHIP_CONFIG"@, config@)]
        }),
{
    assert(module_call(name, worktree, Some(config)).env =~= seq![("PWD"@, worktree)] + seq![
        ("STARSHIP_CONFIG"@, config@),
    ]);
}

/// The whole line is rendered for the directory and with the configuration that are given, as plain
/// ANSI.
pub proof fn law_prompt_is_rendered_for_the_directory(repo: Seq<char>, config: Seq<char>)
    ensures
        ({
            let call = prompt_call(repo, config);
            &&& call.program == "starship"@
            &&& call.args.len() == 5 && call.args[0] == "prompt"@
            &&& call.args[1] == "--path"@ && call.args[2] == repo
            &&& call.args[3] == "--terminal-width"@ && call.args[4] == "200"@
            &&& call.env == seq![("STARSHIP_CONFIG"@, config)]
            &&& call.unset == seq!["STARSHIP_SHELL"@]
            &&& call.dir is None
        }),
{
}

/// A module renders exactly if its command ran, succeeded and did not complain; then its content is
/// what it printed. Otherwise the error is what it complained of, or why it did not run.
pub proof fn law_module_renders_only_without_complaint(output: CommandOutput, e: AdapterError)
    ensures
        module_result(Ok(output)) is Ok <==> output.success && output.stderr@.len() == 0,
        module_result(Ok(output)) is Ok ==> module_result(Ok(output))->Ok_0
            == command::lossy_text(output.stdout@),
        module_result(Ok(output)) is Err ==> module_result(Ok(output))->Err_0
            == AdapterErrorView::Failed(command::lossy_text(output.stderr@)),
        module_result(Err(e)) == Err::<Seq<char>, AdapterErrorView>(e@),
{
}

/// The whole line is what its command printed, whether or not it succeeded or complained.
pub proof fn law_prompt_is_whatever_was_printed(a: CommandOutput, b: CommandOutput, e: AdapterError)
    requires
        a.stdout@ == b.stdout@,
    ensures
        prompt_result(Ok(a)) is Ok,
        prompt_result(Ok(a)) == prompt_result(Ok(b)),
        prompt_result(Ok(a))->Ok_0 == command::lossy_text(a.stdout@),
        prompt_result(Err(e)) == Err::<Seq<char>, AdapterErrorView>(e@),
{
}

/// A report succeeds exactly if its command ran and succeeded.
pub proof fn law_report_succeeds_with_its_command(output: CommandOutput, message: String)
    ensures
        report_result(Ok(output)) is Ok <==> output.success,
        report_result(Ok(output)) is Err ==> report_result(Ok(output))->Err_0
            == AdapterErrorView::Failed(command::lossy_text(output.stderr@)),
        report_result(Err(message)) == Err::<(), AdapterErrorView>(
            AdapterErrorView::Failed(message@),
        ),
{
}

/// A command is killed exactly if it still runs when its time is up, and only then it is timed out;
/// its output is handed over exactly if it exited and could be read.
pub proof fn law_only_a_hung_command_times_out(event: WaitEvent, timeout_nanos: u128)
    ensures
        wait_action(event, timeout_nanos) is Kill <==> event is StillRunning
            && event->elapsed_nanos >= timeout_nanos,
        wait_action(event, timeout_nanos) is Sleep <==> event is StillRunning
            && event->elapsed_nanos < timeout_nanos,
        wait_action(event, timeout_nanos) is Collect <==> event is Exited,
        wait_action(event, timeout_nanos) is Look <==> event is Started,
        wait_action(event, timeout_nanos) is Finish && wait_action(
            event,
            timeout_nanos,
        )->Finish_0 is Ok <==> event is Collected,
        event is Collected ==> wait_action(event, timeout_nanos)->Finish_0->Ok_0
            == event->Collected_0,
        event is Killed <==> wait_action(event, timeout_nanos) == WaitAction::Finish(
            Err(AdapterError::Timeout),
        ),
        event matches WaitEvent::NotStarted(message) ==> wait_action(event, timeout_nanos)
            == WaitAction::Finish(Err(AdapterError::Failed(message))),
        event matches WaitEvent::Unknown(message) ==> wait_action(event, timeout_nanos)
            == WaitAction::Finish(Err(AdapterError::Failed(message))),
        event matches WaitEvent::NotCollected(message) ==> wait_action(event, timeout_nanos)
            == WaitAction::Finish(Err(AdapterError::Failed(message))),
{
}

/// A timeout has words of its own; a failure speaks for itself.
pub proof fn law_errors_have_words(message: Seq<char>)
    ensures
        AdapterErrorView::Failed(message).words() == message,
        AdapterErrorView::Timeout.words() == "timed out"@,
{
}

} // verus!
