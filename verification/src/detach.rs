//! The background process: when to start it, when to stop it, and who may refresh.

use crate::command::{self, decode_lossy, CommandOutput, Invocation, InvocationView};
use crate::config::RefreshMode;
use crate::number::{self, render};
use crate::pid_file::{self, installed_binary_path, is_our_pid_file};
use crate::text::{self, chars_of, contains, trim};
use vstd::prelude::*;

verus! {

/// What to do about the background process.
#[derive(Debug, PartialEq, Eq)]
pub enum Action {
    Install,
    Remove,
    /// If alive in the other mode (`poll` or `watch`), stop it and start it anew at once.
    Switch,
    Noop,
}

/// What is known of the recorded process.
pub struct ExistingProcess {
    pub is_ours: bool,
    pub alive: bool,
    pub binary_exists: bool,
    pub mode: Option<RefreshMode>,
}

/// A mode that runs in the background.
pub open spec fn in_background(refresh: RefreshMode) -> bool {
    refresh != RefreshMode::Basic
}

/// Whether `refresh` is a mode that runs in the background.
pub fn wants_background_process(refresh: RefreshMode) -> (res: bool)
    ensures
        res == in_background(refresh),
{
    matches!(refresh, RefreshMode::Poll | RefreshMode::Watch)
}

/// What the requested mode asks for, given what is recorded.
pub open spec fn decision(refresh: RefreshMode, existing: Option<ExistingProcess>) -> Action {
    match existing {
        None => if in_background(refresh) {
            Action::Install
        } else {
            Action::Noop
        },
        Some(p) => if !p.is_ours {
            Action::Noop
        } else if !p.binary_exists {
            Action::Remove
        } else if p.alive {
            if !in_background(refresh) {
                Action::Remove
            } else if p.mode == Some(refresh) {
                Action::Noop
            } else {
                Action::Switch
            }
        } else if in_background(refresh) {
            Action::Install
        } else {
            Action::Noop
        },
    }
}

/// The recorded process, if one is given.
pub open spec fn given(existing: Option<&ExistingProcess>) -> Option<ExistingProcess> {
    match existing {
        Some(p) => Some(*p),
        None => None,
    }
}

/// Decides how the background process is brought in line with the requested mode.
pub fn decide(refresh: RefreshMode, existing: Option<&ExistingProcess>) -> (res: Action)
    ensures
        res == decision(refresh, given(existing)),
{
    let wanted = wants_background_process(refresh);
    match existing {
        None => {
            if wanted {
                Action::Install
            } else {
                Action::Noop
            }
        },
        Some(p) => {
            if !p.is_ours {
                return Action::Noop;
            }
            if !p.binary_exists {
                return Action::Remove;
            }
            if p.alive {
                if !wanted {
                    return Action::Remove;
                }
                match p.mode {
                    Some(mode) => {
                        if mode == refresh {
                            Action::Noop
                        } else {
                            Action::Switch
                        }
                    },
                    None => Action::Switch,
                }
            } else if wanted {
                Action::Install
            } else {
                Action::Noop
            }
        },
    }
}

/// `ps` on one process, showing only its command line.
pub open spec fn ps_call(pid: u32) -> InvocationView {
    command::call("ps"@, seq!["-p"@, number::digits_of(pid as nat), "-o"@, "args="@])
}

/// The call that shows the command line of a process.
pub fn ps_invocation(pid: u32) -> (res: Invocation)
    ensures
        res@ == ps_call(pid),
{
    let mut cmd = Invocation::new("ps");
    cmd.arg("-p");
    cmd.arg(render(pid as u64).as_str());
    cmd.arg("-o");
    cmd.arg("args=");
    assert(cmd@.args =~= ps_call(pid).args);
    cmd
}

/// A signal to one process.
pub open spec fn kill_call(signal: Seq<char>, pid: u32) -> InvocationView {
    command::call("kill"@, seq![signal, number::digits_of(pid as nat)])
}

/// The call that sends a signal to a process.
pub fn kill_invocation(signal: &str, pid: u32) -> (res: Invocation)
    ensures
        res@ == kill_call(signal@, pid),
{
    let mut cmd = Invocation::new("kill");
    cmd.arg(signal);
    cmd.arg(render(pid as u64).as_str());
    assert(cmd@.args =~= kill_call(signal@, pid).args);
    cmd
}

/// A command line that is not blank and names a program.
pub open spec fn names(command_line: Seq<char>, program: Seq<char>) -> bool {
    let args = text::trimmed(command_line);
    args.len() > 0 && text::contains_text(args, program)
}

/// `ps` found a process whose command line names the expected program.
pub open spec fn shows(ran: Option<CommandOutput>, expected: Seq<char>) -> bool {
    match ran {
        Some(output) => output.success && names(command::lossy_text(output.stdout@), expected),
        None => false,
    }
}

/// Whether a command line is not blank and names `program`.
pub fn names_program(command_line: &str, program: &str) -> (res: bool)
    ensures
        res == names(command_line@, program@),
{
    let args = trim(command_line);
    chars_of(args.as_str()).len() > 0 && contains(args.as_str(), program)
}

/// Whether the recorded process is alive and runs the expected program, by what `ps` says of it.
pub fn is_alive_and_ours(ran: &Option<CommandOutput>, expected_binary: &str) -> (res: bool)
    ensures
        res == shows(*ran, expected_binary@),
{
    match ran {
        Some(output) => {
            if !output.success {
                return false;
            }
            let printed = decode_lossy(output.stdout.as_slice());
            names_program(printed.as_str(), expected_binary)
        },
        None => false,
    }
}

/// A pid file that may be deleted.
pub open spec fn removable(file: Option<&str>) -> bool {
    match file {
        Some(contents) => pid_file::is_ours(contents@),
        None => false,
    }
}

/// Whether the pid file is to be deleted: only if it is this plugin's. The loop asks this right
/// before it exits, so nothing is signalled.
pub fn remove_if_ours(file: Option<&str>) -> (res: bool)
    ensures
        res == removable(file),
{
    match file {
        Some(contents) => is_our_pid_file(contents),
        None => false,
    }
}

/// The program that runs in the background: the recorded one, or else the running one.
pub open spec fn own_program(file: Option<&str>, current_exe: Option<&str>) -> Option<Seq<char>> {
    match pid_file::installed_binary(file) {
        Some(binary) => Some(binary),
        None => match current_exe {
            Some(exe) => Some(exe@),
            None => None,
        },
    }
}

/// The program that runs in the background. The pid file has the path it was started by; the
/// running program is only the answer where there is no such record.
pub fn own_binary(file: Option<&str>, current_exe: Option<&str>) -> (res: Option<String>)
    ensures
        text::maybe(res) == own_program(file, current_exe),
{
    match installed_binary_path(file) {
        Some(binary) => Some(binary),
        None => match current_exe {
            Some(exe) => Some(exe.to_owned()),
            None => None,
        },
    }
}

/// What the background process finds out about itself.
#[derive(Debug, Clone, Copy, PartialEq, Eq, Structural)]
pub struct SelfCheck {
    /// The program is gone: the process must end.
    pub gone: bool,
    /// The pid file must be deleted.
    pub delete_pid_file: bool,
}

/// A program that is gone takes its own pid file with it, and no other file.
pub open spec fn self_check(binary_exists: bool, file: Option<&str>) -> SelfCheck {
    SelfCheck { gone: !binary_exists, delete_pid_file: !binary_exists && removable(file) }
}

/// Whether the background process must end, and take its pid file with it. Herdr has no hook for
/// the removal of a plugin; this is the only way it is noticed.
pub fn self_check_and_teardown(binary_exists: bool, pid_file: Option<&str>) -> (res: SelfCheck)
    ensures
        res == self_check(binary_exists, pid_file),
{
    if binary_exists {
        return SelfCheck { gone: false, delete_pid_file: false };
    }
    SelfCheck { gone: true, delete_pid_file: remove_if_ours(pid_file) }
}

/// One turn of the background process.
#[derive(Debug, Clone, Copy, PartialEq, Eq, Structural)]
pub enum Turn {
    /// Refresh every open workspace.
    Tick,
    /// End, and delete the pid file if asked to.
    Stop { delete_pid_file: bool },
}

/// A turn ends the process exactly if its program is known and gone.
pub open spec fn turn(binary_exists: Option<bool>, file: Option<&str>) -> Turn {
    if binary_exists == Some(false) {
        Turn::Stop { delete_pid_file: removable(file) }
    } else {
        Turn::Tick
    }
}

/// Decides about one turn of the background process. `binary_exists` tells whether its program is
/// still there, if it is known at all.
pub fn run_loop(binary_exists: Option<bool>, pid_file: Option<&str>) -> (res: Turn)
    ensures
        res == turn(binary_exists, pid_file),
{
    match binary_exists {
        Some(exists) => {
            let check = self_check_and_teardown(exists, pid_file);
            if check.gone {
                Turn::Stop { delete_pid_file: check.delete_pid_file }
            } else {
                Turn::Tick
            }
        },
        None => Turn::Tick,
    }
}

/// A file that another program wrote in place of the pid file leads to nothing, whatever mode is
/// requested.
pub proof fn law_foreign_record_means_nothing_to_do(refresh: RefreshMode, process: ExistingProcess)
    requires
        !process.is_ours,
    ensures
        decision(refresh, Some(process)) == Action::Noop,
{
}

/// A record of a program that is gone is removed, whatever mode is requested.
pub proof fn law_stale_record_is_removed(refresh: RefreshMode, process: ExistingProcess)
    requires
        process.is_ours,
        !process.binary_exists,
    ensures
        decision(refresh, Some(process)) == Action::Remove,
{
}

/// What is decided on settles matters: once it has been done, there is nothing left to do. Only a
/// stale record is different, because a background process may be wanted in its place.
pub proof fn law_decision_settles(
    refresh: RefreshMode,
    before: Option<ExistingProcess>,
    after: ExistingProcess,
)
    requires
        after.is_ours,
        after.alive,
        after.binary_exists,
        after.mode == Some(refresh),
    ensures
        decision(refresh, before) is Install || decision(refresh, before) is Switch ==> decision(
            refresh,
            Some(after),
        ) == Action::Noop,
        decision(refresh, before) is Remove && before->0.binary_exists ==> decision(refresh, None)
            == Action::Noop,
{
}

/// When each action is taken, whatever else is recorded: a background process is started exactly if
/// its mode is requested and there is no record, or a record of this plugin whose program exists
/// and whose process is dead, in whatever mode that was.
pub proof fn law_install_exactly_when_a_process_is_missing(
    refresh: RefreshMode,
    existing: Option<ExistingProcess>,
)
    ensures
        decision(refresh, existing) == Action::Install <==> (refresh == RefreshMode::Poll || refresh
            == RefreshMode::Watch) && (existing is None || (existing->0.is_ours
            && existing->0.binary_exists && !existing->0.alive)),
{
}

/// A process is removed exactly if it is recorded as this plugin's and either its program is gone,
/// or it is alive and no background mode is requested.
pub proof fn law_remove_exactly_when_a_process_is_not_wanted(
    refresh: RefreshMode,
    existing: Option<ExistingProcess>,
)
    ensures
        decision(refresh, existing) == Action::Remove <==> existing is Some && existing->0.is_ours
            && (!existing->0.binary_exists || (existing->0.alive && refresh
            == RefreshMode::Basic)),
{
}

/// A process is replaced exactly if it is this plugin's, can run, is alive, and a background mode
/// other than the recorded one is requested.
pub proof fn law_switch_exactly_when_the_mode_differs(
    refresh: RefreshMode,
    existing: Option<ExistingProcess>,
)
    ensures
        decision(refresh, existing) == Action::Switch <==> existing is Some && existing->0.is_ours
            && existing->0.binary_exists && existing->0.alive && (refresh == RefreshMode::Poll
            || refresh == RefreshMode::Watch) && existing->0.mode != Some(refresh),
{
}

/// Once a background mode has been requested, this plugin's record is left alone only if its process
/// is alive in that mode.
pub proof fn law_background_mode_ends_with_a_live_process(
    refresh: RefreshMode,
    process: ExistingProcess,
)
    requires
        refresh == RefreshMode::Poll || refresh == RefreshMode::Watch,
        process.is_ours,
        process.binary_exists,
    ensures
        decision(refresh, Some(process)) == Action::Noop <==> process.alive && process.mode == Some(
            refresh,
        ),
        decision(refresh, Some(process)) != Action::Remove,
{
}

/// A process counts as alive exactly if `ps` succeeded and printed a command line with the program
/// in it, white space at the ends aside.
pub proof fn law_alive_means_ps_names_the_program(
    output: CommandOutput,
    blank: Seq<char>,
    front: Seq<char>,
    program: Seq<char>,
    rest: Seq<char>,
    end: Seq<char>,
)
    requires
        forall|i: int| 0 <= i < blank.len() ==> text::is_white_space(#[trigger] blank[i]),
        forall|i: int| 0 <= i < end.len() ==> text::is_white_space(#[trigger] end[i]),
        (front + program + rest).len() > 0,
        !text::is_white_space((front + program + rest)[0]),
        !text::is_white_space((front + program + rest).last()),
        command::lossy_text(output.stdout@) == blank + (front + program + rest) + end,
    ensures
        shows(Some(output), program) <==> output.success,
        !shows(None, program),
{
    let line = front + program + rest;
    text::law_trimmed_loses_its_ends_only(blank, line, end);
    text::law_contains_means_stands_within(line, program, front, rest);
}

/// A command line without the program in it, and a blank one, are not alive.
pub proof fn law_other_command_lines_are_not_ours(
    output: CommandOutput,
    blank: Seq<char>,
    line: Seq<char>,
    program: Seq<char>,
    end: Seq<char>,
)
    requires
        forall|i: int| 0 <= i < blank.len() ==> text::is_white_space(#[trigger] blank[i]),
        forall|i: int| 0 <= i < end.len() ==> text::is_white_space(#[trigger] end[i]),
        line.len() > 0 ==> !text::is_white_space(line[0]) && !text::is_white_space(line.last()),
        command::lossy_text(output.stdout@) == blank + line + end,
        line.len() == 0 || !(exists|a: Seq<char>, b: Seq<char>| line == #[trigger] (a + program
            + b)),
    ensures
        !shows(Some(output), program),
{
    text::law_trimmed_loses_its_ends_only(blank, line, end);
    if line.len() > 0 {
        text::law_contains_means_stands_within(line, program, Seq::empty(), Seq::empty());
    }
}

/// The process ends exactly if its program is known and gone, and takes with it exactly a pid file
/// that is this plugin's.
pub proof fn law_process_ends_with_its_program(binary_exists: Option<bool>, file: Option<&str>)
    ensures
        turn(binary_exists, file) is Stop <==> binary_exists == Some(false),
        turn(binary_exists, file) == (Turn::Stop { delete_pid_file: true }) <==> binary_exists
            == Some(false) && file is Some && pid_file::is_ours(file->0@),
        self_check(false, file).gone && !self_check(true, file).gone,
        !self_check(true, file).delete_pid_file,
        self_check(false, file).delete_pid_file <==> file is Some && pid_file::is_ours(file->0@),
{
}

/// The recorded program counts before the running one, and only a record of this plugin counts.
pub proof fn law_recorded_program_comes_first(
    file: Option<&str>,
    current_exe: Option<&str>,
    exe: &str,
)
    ensures
        file is Some && pid_file::is_ours(file->0@) && pid_file::field(file->0@, "binary"@) is Some
            ==> own_program(file, current_exe) == pid_file::field(file->0@, "binary"@),
        file is None || !pid_file::is_ours(file->0@) ==> own_program(file, Some(exe)) == Some(exe@)
            && own_program(file, None) is None,
{
}

/// The calls that look for a process and that signal it name it by its number.
pub proof fn law_process_calls_name_the_process(pid: u32, signal: Seq<char>)
    ensures
        number::parsed(ps_call(pid).args[1]) == Some(pid as nat),
        ps_call(pid).program == "ps"@,
        ps_call(pid).args.len() == 4,
        ps_call(pid).args[0] == "-p"@,
        ps_call(pid).args[2] == "-o"@,
        ps_call(pid).args[3] == "args="@,
        kill_call(signal, pid).program == "kill"@,
        kill_call(signal, pid).args.len() == 2,
        kill_call(signal, pid).args[0] == signal,
        number::parsed(kill_call(signal, pid).args[1]) == Some(pid as nat),
{
    number::law_render_parses_back(pid as nat);
}

/// Polling and watching run in the background, and nothing else does.
pub proof fn law_poll_and_watch_run_in_the_background(refresh: RefreshMode)
    ensures
        in_background(refresh) <==> refresh == RefreshMode::Poll || refresh == RefreshMode::Watch,
{
}

} // verus!
