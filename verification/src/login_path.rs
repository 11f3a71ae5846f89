//! The `PATH` of a login shell, and the file in which it is kept for the next time.

use crate::command::{self, decode_lossy, CommandOutput, Invocation, InvocationView};
use crate::number::{self, parse_u64, render};
use crate::path::{self, file_name, join};
use crate::starship::{AdapterError, AdapterErrorView};
use crate::text::{self, chars_of, lines, trim};
use vstd::prelude::*;

verus! {

/// The login shell: what the environment names, or the standard shell.
pub open spec fn shell_in(var: Option<&str>) -> Seq<char> {
    match var {
        Some(shell) => shell@,
        None => "/bin/sh"@,
    }
}

/// The login shell that the value of `SHELL` names.
pub fn login_shell(var: Option<&str>) -> (res: String)
    ensures
        res@ == shell_in(var),
{
    match var {
        Some(shell) => shell.to_owned(),
        None => "/bin/sh".to_owned(),
    }
}

/// The start-up file of a shell, by the shell's name.
pub open spec fn rc_file_of(home: Option<&str>, shell: Seq<char>) -> Option<Seq<char>> {
    let name = path::file_name_of(shell);
    if name == Some("zsh"@) {
        path::below(home, ".zshrc"@)
    } else if name == Some("bash"@) {
        path::below(home, ".bash_profile"@)
    } else {
        None
    }
}

/// The start-up file of `shell`, for the shells whose start-up file is known.
pub fn rc_file_for_shell(home: Option<&str>, shell: &str) -> (res: Option<String>)
    ensures
        text::maybe(res) == rc_file_of(home, shell@),
{
    match (home, file_name(shell)) {
        (Some(home), Some(name)) => {
            if name.as_str().eq("zsh") {
                Some(join(home, ".zshrc"))
            } else if name.as_str().eq("bash") {
                Some(join(home, ".bash_profile"))
            } else {
                None
            }
        },
        _ => None,
    }
}

/// What the cache file holds for a path that was found when the start-up file was last changed at
/// `rc_secs`.
pub open spec fn cache_entry(rc_secs: u64, found: Seq<char>) -> Seq<char> {
    number::digits_of(rc_secs as nat).push('\n') + found.push('\n')
}

/// The path that the cache file holds, if the start-up file has not been changed since.
pub open spec fn cached_path(rc_secs: Option<u64>, cached: Option<Seq<char>>) -> Option<Seq<char>> {
    match (rc_secs, cached) {
        (Some(secs), Some(contents)) => {
            let all = text::lines_of(contents);
            if all.len() >= 2 && number::parsed(all[0]) == Some(secs as nat) {
                Some(all[1])
            } else {
                None
            }
        },
        _ => None,
    }
}

/// Writes the contents of the cache file.
pub fn render_cached_path(rc_secs: u64, resolved: &str) -> (res: String)
    ensures
        res@ == cache_entry(rc_secs, resolved@),
{
    let mut res = render(rc_secs);
    res.push('\n');
    res.append(resolved);
    res.push('\n');
    assert(res@ =~= cache_entry(rc_secs, resolved@));
    res
}

/// Reads the contents of the cache file. `rc_secs` is when the start-up file was last changed.
pub fn read_cached_path(rc_secs: Option<u64>, cached: Option<&str>) -> (res: Option<String>)
    ensures
        text::maybe(res) == cached_path(
            rc_secs,
            match cached {
                Some(contents) => Some(contents@),
                None => None,
            },
        ),
{
    match (rc_secs, cached) {
        (Some(secs), Some(contents)) => {
            let all = lines(contents);
            assert(text::texts(all@).len() == all@.len());
            if all.len() < 2 {
                return None;
            }
            assert(text::texts(all@)[0] == all@[0]@);
            assert(text::texts(all@)[1] == all@[1]@);
            match parse_u64(all[0].as_str()) {
                Some(cached_secs) => {
                    if cached_secs == secs {
                        Some(all[1].clone())
                    } else {
                        None
                    }
                },
                None => None,
            }
        },
        _ => None,
    }
}

proof fn lemma_cache_lines(rc_secs: u64, found: Seq<char>)
    ensures
        ({
            let all = text::lines_of(cache_entry(rc_secs, found));
            let line = found.take(text::line_len(found) as int);
            &&& all.len() >= 2
            &&& number::parsed(all[0]) == Some(rc_secs as nat)
            &&& all[1] == text::without_cr(line)
        }),
{
    let digits = number::digits_of(rc_secs as nat);
    number::law_render_parses_back(rc_secs as nat);
    assert(!digits.contains('\n')) by {
        assert forall|i: int| 0 <= i < digits.len() implies digits[i] != '\n' by {
            assert(number::is_digit(digits[i]));
        }
    }
    if digits.len() > 0 {
        assert(number::is_digit(digits.last()));
    }
    text::lemma_first_line(digits, found.push('\n'));
    text::lemma_line_len(found);
    let end = text::line_len(found) as int;
    let line = found.take(end);
    let rest = if end == found.len() {
        Seq::empty()
    } else {
        found.skip(end + 1).push('\n')
    };
    assert(found.push('\n') =~= line.push('\n') + rest);
    text::lemma_first_line(line, rest);
    let all = text::lines_of(cache_entry(rc_secs, found));
    assert(all == seq![digits] + (seq![text::without_cr(line)] + text::lines_of(rest)));
    assert(all[0] == digits);
    assert(all[1] == text::without_cr(line));
}

/// The cache gives back the path that was put into it, as long as the start-up file stays as it
/// was, unless a line feed in the path or a carriage return at its end is taken for the end of the
/// line.
pub proof fn law_cache_gives_back_the_path(rc_secs: u64, found: Seq<char>)
    ensures
        cached_path(Some(rc_secs), Some(cache_entry(rc_secs, found))) == Some(found)
            <==> !found.contains('\n') && !(found.len() > 0 && found.last() == '\r'),
{
    lemma_cache_lines(rc_secs, found);
    text::lemma_line_len(found);
    let end = text::line_len(found) as int;
    if end == found.len() {
        assert(found.take(end) =~= found);
        assert(!found.contains('\n'));
    } else {
        assert(found[end] == '\n');
    }
}

/// A path that was found before the start-up file was changed is not used any more.
pub proof fn law_stale_cache_is_not_used(then: u64, now: u64, found: Seq<char>)
    requires
        then != now,
    ensures
        cached_path(Some(now), Some(cache_entry(then, found))) is None,
{
    lemma_cache_lines(then, found);
}

/// Where the cache stands.
pub fn path_cache_file(temp_dir: &str) -> (res: String)
    ensures
        res@ == path::joined(temp_dir@, "herdr-starship-path-cache"@),
{
    join(temp_dir, "herdr-starship-path-cache")
}

/// A call of the shell that prints its `PATH`. It is `-lic`, not `-lc`, so that what `.zshrc`
/// exports counts too; `printf` adds no line feed.
pub open spec fn shell_call(shell: Seq<char>) -> InvocationView {
    command::call(shell, seq!["-lic"@, "printf %s \"$PATH\""@])
}

/// The call that asks the shell for its `PATH`.
pub fn shell_invocation(shell: &str) -> (res: Invocation)
    ensures
        res@ == shell_call(shell@),
{
    let mut cmd = Invocation::new(shell);
    cmd.arg("-lic");
    cmd.arg("printf %s \"$PATH\"");
    assert(cmd@.args =~= shell_call(shell@).args);
    cmd
}

/// Why a shell gave no path.
#[derive(Debug)]
pub enum PathFailure {
    Adapter(AdapterError),
    ShellFailed,
    EmptyPath,
}

/// The model of such a reason.
pub enum PathFailureView {
    Adapter(AdapterErrorView),
    ShellFailed,
    EmptyPath,
}

impl View for PathFailure {
    type V = PathFailureView;

    open spec fn view(&self) -> PathFailureView {
        match self {
            PathFailure::Adapter(e) => PathFailureView::Adapter(e@),
            PathFailure::ShellFailed => PathFailureView::ShellFailed,
            PathFailure::EmptyPath => PathFailureView::EmptyPath,
        }
    }
}

/// The path in what a shell printed.
pub open spec fn path_in(printed: Seq<char>) -> Result<Seq<char>, PathFailureView> {
    let found = text::trimmed(printed);
    if found.len() == 0 {
        Err(PathFailureView::EmptyPath)
    } else {
        Ok(found)
    }
}

/// The model of a path, or of why there is none.
pub open spec fn path_outcome(res: Result<String, PathFailure>) -> Result<
    Seq<char>,
    PathFailureView,
> {
    match res {
        Ok(found) => Ok(found@),
        Err(why) => Err(why@),
    }
}

/// The path in what a shell printed: all of it but the white space at either end.
pub fn read_path(printed: &str) -> (res: Result<String, PathFailure>)
    ensures
        path_outcome(res) == path_in(printed@),
{
    let found = trim(printed);
    if chars_of(found.as_str()).len() == 0 {
        return Err(PathFailure::EmptyPath);
    }
    Ok(found)
}

/// The path that a shell gave.
pub open spec fn printed_path(ran: Result<CommandOutput, AdapterError>) -> Result<
    Seq<char>,
    PathFailureView,
> {
    match ran {
        Ok(output) => if output.success {
            path_in(command::lossy_text(output.stdout@))
        } else {
            Err(PathFailureView::ShellFailed)
        },
        Err(e) => Err(PathFailureView::Adapter(e@)),
    }
}

/// The path that a shell gave, or why it gave none.
pub fn read_printed_path(ran: Result<CommandOutput, AdapterError>) -> (res: Result<
    String,
    PathFailure,
>)
    ensures
        path_outcome(res) == printed_path(ran),
{
    match ran {
        Ok(output) => {
            if !output.success {
                return Err(PathFailure::ShellFailed);
            }
            let printed = decode_lossy(output.stdout.as_slice());
            read_path(printed.as_str())
        },
        Err(e) => Err(PathFailure::Adapter(e)),
    }
}

/// The shell to ask, and its start-up file.
#[derive(Debug)]
pub struct LoginShell {
    pub shell: String,
    pub rc_file: Option<String>,
}

impl LoginShell {
    /// The shell that `SHELL` names, for the home directory that `HOME` names.
    pub fn new(home: Option<&str>, shell_var: Option<&str>) -> (res: LoginShell)
        ensures
            res.shell@ == shell_in(shell_var),
            text::maybe(res.rc_file) == rc_file_of(home, shell_in(shell_var)),
    {
        let shell = login_shell(shell_var);
        let rc_file = rc_file_for_shell(home, shell.as_str());
        LoginShell { shell, rc_file }
    }
}

/// What happened while the path is looked for.
#[derive(Debug)]
pub enum PathEvent {
    Begin,
    /// When the start-up file was last changed, and what the cache file holds.
    LookedUp { rc_secs: Option<u64>, cached: Option<String> },
    /// What came of asking the shell.
    Asked(Result<CommandOutput, AdapterError>),
    /// When the start-up file was last changed, now that the shell has given `resolved`.
    Dated { resolved: String, rc_secs: Option<u64> },
}

/// What to do next while the path is looked for.
#[derive(Debug)]
pub enum PathAction {
    /// Find out when `rc_file` was last changed and what the cache file holds.
    LookUp { rc_file: String },
    /// Ask the shell.
    Ask(Invocation),
    /// Find out when `rc_file` was last changed.
    Date { rc_file: String, resolved: String },
    /// Write the cache file. The path is `resolved` whether or not that works.
    Store { contents: String, resolved: String },
    Found(String),
    GiveUp(PathFailure),
}

/// The model of what to do next.
pub enum PathActionView {
    LookUp { rc_file: Seq<char> },
    Ask(InvocationView),
    Date { rc_file: Seq<char>, resolved: Seq<char> },
    Store { contents: Seq<char>, resolved: Seq<char> },
    Found(Seq<char>),
    GiveUp(PathFailureView),
}

impl View for PathAction {
    type V = PathActionView;

    open spec fn view(&self) -> PathActionView {
        match self {
            PathAction::LookUp { rc_file } => PathActionView::LookUp { rc_file: rc_file@ },
            PathAction::Ask(call) => PathActionView::Ask(call@),
            PathAction::Date { rc_file, resolved } => PathActionView::Date {
                rc_file: rc_file@,
                resolved: resolved@,
            },
            PathAction::Store { contents, resolved } => PathActionView::Store {
                contents: contents@,
                resolved: resolved@,
            },
            PathAction::Found(found) => PathActionView::Found(found@),
            PathAction::GiveUp(why) => PathActionView::GiveUp(why@),
        }
    }
}

/// What to do after `event`. A shell with a known start-up file is asked only if the cache holds
/// no path from after that file was last changed, and what it then says goes into the cache. Any
/// other shell is asked every time.
pub open spec fn path_action(login: LoginShell, event: PathEvent) -> PathActionView {
    match (event, login.rc_file) {
        (PathEvent::Begin, Some(rc_file)) => PathActionView::LookUp { rc_file: rc_file@ },
        (PathEvent::Begin, None) => PathActionView::Ask(shell_call(login.shell@)),
        (PathEvent::LookedUp { rc_secs, cached }, _) => match cached_path(
            rc_secs,
            text::maybe(cached),
        ) {
            Some(found) => PathActionView::Found(found),
            None => PathActionView::Ask(shell_call(login.shell@)),
        },
        (PathEvent::Asked(ran), rc_file) => match (printed_path(ran), rc_file) {
            (Ok(found), Some(rc_file)) => PathActionView::Date {
                rc_file: rc_file@,
                resolved: found,
            },
            (Ok(found), None) => PathActionView::Found(found),
            (Err(why), _) => PathActionView::GiveUp(why),
        },
        (PathEvent::Dated { resolved, rc_secs: Some(rc_secs) }, _) => PathActionView::Store {
            contents: cache_entry(rc_secs, resolved@),
            resolved: resolved@,
        },
        (PathEvent::Dated { resolved, rc_secs: None }, _) => PathActionView::Found(resolved@),
    }
}

/// Decides how to go on looking for the `PATH` of the login shell.
pub fn resolve_login_shell_path(login: &LoginShell, event: PathEvent) -> (res: PathAction)
    ensures
        res@ == path_action(*login, event),
{
    match event {
        PathEvent::Begin => match &login.rc_file {
            Some(rc_file) => PathAction::LookUp { rc_file: rc_file.clone() },
            None => PathAction::Ask(shell_invocation(login.shell.as_str())),
        },
        PathEvent::LookedUp { rc_secs, cached } => {
            let found = match &cached {
                Some(contents) => read_cached_path(rc_secs, Some(contents.as_str())),
                None => None,
            };
            match found {
                Some(found) => PathAction::Found(found),
                None => PathAction::Ask(shell_invocation(login.shell.as_str())),
            }
        },
        PathEvent::Asked(ran) => match read_printed_path(ran) {
            Ok(found) => match &login.rc_file {
                Some(rc_file) => PathAction::Date { rc_file: rc_file.clone(), resolved: found },
                None => PathAction::Found(found),
            },
            Err(why) => PathAction::GiveUp(why),
        },
        PathEvent::Dated { resolved, rc_secs } => match rc_secs {
            Some(secs) => PathAction::Store {
                contents: render_cached_path(secs, resolved.as_str()),
                resolved,
            },
            None => PathAction::Found(resolved),
        },
    }
}

/// A path that was stored for a start-up file that has not been changed since is found in the
/// cache, and the shell is not asked.
pub proof fn law_stored_path_is_found_without_the_shell(
    login: LoginShell,
    resolved: String,
    rc_secs: u64,
    cached: String,
)
    requires
        !resolved@.contains('\n'),
        !(resolved@.len() > 0 && resolved@.last() == '\r'),
        path_action(login, PathEvent::Dated { resolved, rc_secs: Some(rc_secs) })
            == (PathActionView::Store { contents: cached@, resolved: resolved@ }),
    ensures
        path_action(login, PathEvent::LookedUp { rc_secs: Some(rc_secs), cached: Some(cached) })
            == PathActionView::Found(resolved@),
{
    law_cache_gives_back_the_path(rc_secs, resolved@);
}

/// The shell is the one that the environment names, or else the standard one, and it is asked with
/// its start-up files read.
pub proof fn law_shell_of_the_environment_is_asked(shell: &str)
    ensures
        shell_in(Some(shell)) == shell@,
        shell_in(None) == "/bin/sh"@,
        shell_call(shell@).program == shell@,
        shell_call(shell@).args == seq!["-lic"@, "printf %s \"$PATH\""@],
{
}

/// The start-up file goes by the last component of the shell's path: there is one for `zsh` and one
/// for `bash`, both below the home directory, and none for any other shell.
pub proof fn law_start_up_file_goes_by_the_shell(home: &str, front: Seq<char>, name: Seq<char>)
    requires
        home@.len() > 0,
        home@.last() != '/',
        name.len() > 0,
        !name.contains('/'),
        name != seq!['.'],
        name != seq!['.', '.'],
    ensures
        ({
            let shell = front + seq!['/'] + name;
            &&& rc_file_of(None, shell) is None
            &&& rc_file_of(Some(home), shell) == rc_file_of(Some(home), name)
            &&& name == "zsh"@ ==> rc_file_of(Some(home), shell) == Some(home@ + "/.zshrc"@)
            &&& name == "bash"@ ==> rc_file_of(Some(home), shell) == Some(
                home@ + "/.bash_profile"@,
            )
            &&& name != "zsh"@ && name != "bash"@ ==> rc_file_of(Some(home), shell) is None
        }),
{
    path::law_file_name_is_the_last_component(front, name);
    reveal_strlit("zsh");
    reveal_strlit("bash");
    assert("zsh"@.len() != "bash"@.len());
    reveal_strlit(".zshrc");
    reveal_strlit("/.zshrc");
    reveal_strlit(".bash_profile");
    reveal_strlit("/.bash_profile");
    assert(home@ + seq!['/'] + ".zshrc"@ =~= home@ + "/.zshrc"@);
    assert(home@ + seq!['/'] + ".bash_profile"@ =~= home@ + "/.bash_profile"@);
}

/// What a shell prints is its path, white space at the ends aside, if it succeeded and printed
/// anything else; every other outcome is told apart.
pub proof fn law_printed_path_needs_success(
    output: CommandOutput,
    blank: Seq<char>,
    found: Seq<char>,
    end: Seq<char>,
    e: AdapterError,
)
    requires
        forall|i: int| 0 <= i < blank.len() ==> text::is_white_space(#[trigger] blank[i]),
        forall|i: int| 0 <= i < end.len() ==> text::is_white_space(#[trigger] end[i]),
        found.len() > 0 ==> !text::is_white_space(found[0]) && !text::is_white_space(found.last()),
        command::lossy_text(output.stdout@) == blank + found + end,
    ensures
        output.success && found.len() > 0 ==> printed_path(Ok(output)) == Ok::<
            Seq<char>,
            PathFailureView,
        >(found),
        output.success && found.len() == 0 ==> printed_path(Ok(output)) == Err::<
            Seq<char>,
            PathFailureView,
        >(PathFailureView::EmptyPath),
        !output.success ==> printed_path(Ok(output)) == Err::<Seq<char>, PathFailureView>(
            PathFailureView::ShellFailed,
        ),
        printed_path(Err(e)) == Err::<Seq<char>, PathFailureView>(PathFailureView::Adapter(e@)),
{
    text::law_trimmed_loses_its_ends_only(blank, found, end);
}

/// A cache is used exactly if its first line is the time at which the start-up file was last
/// changed; then the path is its second line, whatever follows.
pub proof fn law_cache_is_used_for_its_time_only(
    secs: u64,
    first: Seq<char>,
    second: Seq<char>,
    rest: Seq<char>,
)
    requires
        !first.contains('\n'),
        !second.contains('\n'),
        first.len() > 0 ==> first.last() != '\r',
        second.len() > 0 ==> second.last() != '\r',
    ensures
        ({
            let cache = first + seq!['\n'] + second + seq!['\n'] + rest;
            &&& number::parsed(first) == Some(secs as nat) ==> cached_path(Some(secs), Some(cache))
                == Some(second)
            &&& number::parsed(first) != Some(secs as nat) ==> cached_path(Some(secs), Some(cache))
                is None
            &&& cached_path(None, Some(cache)) is None
            &&& cached_path(Some(secs), Some(first)) is None
            &&& cached_path(Some(secs), None) is None
        }),
{
    let tail = second + seq!['\n'] + rest;
    let cache = first + seq!['\n'] + second + seq!['\n'] + rest;
    assert(cache =~= first + seq!['\n'] + tail);
    text::law_lines_end_in_line_feeds(first, tail);
    text::law_lines_end_in_line_feeds(second, rest);
    let all = text::lines_of(cache);
    assert(all == seq![first] + (seq![second] + text::lines_of(rest)));
    assert(all[0] == first && all[1] == second);
}

/// The shell is asked exactly at the beginning, if its start-up file is not known, and after a look
/// at the cache that gave nothing; and a path is found in the cache or from the shell, no other way.
pub proof fn law_shell_is_asked_only_without_a_cached_path(login: LoginShell, event: PathEvent)
    ensures
        path_action(login, event) is Ask <==> {
            ||| event is Begin && login.rc_file is None
            ||| event is LookedUp && cached_path(
                event->LookedUp_rc_secs,
                text::maybe(event->LookedUp_cached),
            ) is None
        },
        path_action(login, event) is Ask ==> path_action(login, event)->Ask_0.program
            == login.shell@,
        path_action(login, event) is LookUp <==> event is Begin && login.rc_file is Some,
        path_action(login, event) is LookUp ==> path_action(login, event)->LookUp_rc_file
            == login.rc_file->0@,
        event is LookedUp && cached_path(
            event->LookedUp_rc_secs,
            text::maybe(event->LookedUp_cached),
        ) is Some ==> path_action(login, event) == PathActionView::Found(
            cached_path(event->LookedUp_rc_secs, text::maybe(event->LookedUp_cached))->0,
        ),
        path_action(login, event) is GiveUp <==> event is Asked && printed_path(event->Asked_0)
            is Err,
{
}

/// What the shell printed is the answer: at once if its start-up file is not known, and otherwise
/// after it has been put into the cache under the time of that file, if the file has one.
pub proof fn law_answer_of_the_shell_is_kept(
    login: LoginShell,
    ran: Result<CommandOutput, AdapterError>,
    resolved: String,
    secs: u64,
)
    ensures
        printed_path(ran) is Ok && login.rc_file is None ==> path_action(
            login,
            PathEvent::Asked(ran),
        ) == PathActionView::Found(printed_path(ran)->Ok_0),
        printed_path(ran) is Ok && login.rc_file is Some ==> path_action(
            login,
            PathEvent::Asked(ran),
        ) == (PathActionView::Date {
            rc_file: login.rc_file->0@,
            resolved: printed_path(ran)->Ok_0,
        }),
        path_action(login, PathEvent::Dated { resolved, rc_secs: None }) == PathActionView::Found(
            resolved@,
        ),
        path_action(login, PathEvent::Dated { resolved, rc_secs: Some(secs) }) is Store,
        path_action(
            login,
            PathEvent::Dated { resolved, rc_secs: Some(secs) },
        )->Store_resolved == resolved@,
        path_action(
            login,
            PathEvent::Dated { resolved, rc_secs: Some(secs) },
        )->Store_contents == number::digits_of(secs as nat) + seq!['\n'] + resolved@ + seq!['\n'],
        printed_path(ran) is Err ==> path_action(login, PathEvent::Asked(ran))
            == PathActionView::GiveUp(printed_path(ran)->Err_0),
{
    assert(cache_entry(secs, resolved@) =~= number::digits_of(secs as nat) + seq!['\n'] + resolved@
        + seq!['\n']);
}

} // verus!
