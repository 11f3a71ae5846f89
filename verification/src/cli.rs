//! The command line.

use crate::number::{self, parse_u64, parse_usize};
use crate::text;
use vstd::prelude::*;

verus! {

/// The columns to fit to if nothing names another width.
pub const DEFAULT_BUDGET: usize = 26;

/// The number in an argument, if there is such an argument and it is a number up to `max`.
pub open spec fn number_at(args: Seq<Seq<char>>, at: int, max: nat) -> Option<nat> {
    if 0 <= at < args.len() {
        number::parsed_up_to(args[at], max)
    } else {
        None
    }
}

/// The columns to fit to: what the command line says, or else the settings, or else the default.
pub open spec fn budget(args: Seq<Seq<char>>, config_width: Option<usize>) -> nat {
    match (number_at(args, 1, usize::MAX as nat), config_width) {
        (Some(n), _) => n,
        (None, Some(n)) => n as nat,
        (None, None) => DEFAULT_BUDGET as nat,
    }
}

/// The columns to fit to. An argument always wins over the settings.
pub fn parse_budget(args: &Vec<String>, config_width: Option<usize>) -> (res: usize)
    ensures
        res == budget(text::texts(args@), config_width),
{
    if args.len() > 1 {
        assert(text::texts(args@)[1] == args@[1]@);
        if let Some(n) = parse_usize(args[1].as_str()) {
            return n;
        }
    }
    match config_width {
        Some(n) => n,
        None => DEFAULT_BUDGET,
    }
}

/// Whether `flag` is among the arguments.
pub fn wants(args: &Vec<String>, flag: &str) -> (res: bool)
    ensures
        res == text::texts(args@).contains(flag@),
{
    position(args, flag).is_some()
}

/// The first of the arguments that is `flag`.
pub open spec fn first_flag(args: Seq<Seq<char>>, flag: Seq<char>) -> Option<nat>
    decreases args.len(),
{
    if args.len() == 0 {
        None
    } else if args[0] == flag {
        Some(0)
    } else {
        match first_flag(args.skip(1), flag) {
            Some(i) => Some(1 + i),
            None => None,
        }
    }
}

/// Where `flag` first stands among the arguments.
fn position(args: &Vec<String>, flag: &str) -> (res: Option<usize>)
    ensures
        match (res, first_flag(text::texts(args@), flag@)) {
            (Some(i), Some(k)) => i == k && i < args@.len() && text::texts(args@).contains(flag@),
            (None, None) => !text::texts(args@).contains(flag@),
            _ => false,
        },
{
    let ghost all = text::texts(args@);
    let mut i: usize = 0;
    assert(all.skip(0) =~= all);
    while i < args.len()
        invariant
            i <= args@.len(),
            all == text::texts(args@),
            forall|k: int| 0 <= k < i ==> #[trigger] all[k] != flag@,
            match (first_flag(all, flag@), first_flag(all.skip(i as int), flag@)) {
                (Some(a), Some(b)) => a == i + b,
                (None, None) => true,
                _ => false,
            },
        decreases args@.len() - i,
    {
        assert(all.skip(i as int)[0] == args@[i as int]@);
        assert(all.skip(i as int).skip(1) =~= all.skip(i + 1));
        if args[i].as_str().eq(flag) {
            assert(all[i as int] == flag@);
            return Some(i);
        }
        i = i + 1;
    }
    None
}

/// The number behind the first `--poll-loop`.
pub open spec fn interval(args: Seq<Seq<char>>) -> Option<nat> {
    match first_flag(args, "--poll-loop"@) {
        Some(at) => number_at(args, (at + 1) as int, u64::MAX as nat),
        None => None,
    }
}

/// The interval of the polling loop, in seconds. It is always handed over on the command line; the
/// loop never reads the settings again.
pub fn poll_loop_interval(args: &Vec<String>) -> (res: Option<u64>)
    ensures
        match (res, interval(text::texts(args@))) {
            (Some(a), Some(b)) => a == b,
            (None, None) => true,
            _ => false,
        },
{
    let total: usize = args.len();
    match position(args, "--poll-loop") {
        Some(at) => {
            if at + 1 < total {
                assert(text::texts(args@)[at + 1] == args@[at + 1]@);
                parse_u64(args[at + 1].as_str())
            } else {
                None
            }
        },
        None => None,
    }
}

/// What the command line asks for.
#[derive(Debug, Clone, Copy, PartialEq, Eq, Structural)]
pub enum Task {
    /// Refresh every open workspace once.
    Tick,
    /// Refresh again and again, after so many seconds each. Without a number there is nothing to
    /// do.
    PollLoop(Option<u64>),
    /// Refresh when files change.
    WatchLoop,
    /// Show the modules of one directory, after a look at the background process and before the
    /// tokens are pushed, if asked to.
    Show { reconcile: bool, push: bool },
}

/// A task is what the command line asks for: the first of the three flags that stand for a task of
/// their own, or else to show the modules.
pub open spec fn asked_for(args: Seq<Seq<char>>, task: Task) -> bool {
    if args.contains("--tick"@) {
        task == Task::Tick
    } else if args.contains("--poll-loop"@) {
        match (task, interval(args)) {
            (Task::PollLoop(Some(a)), Some(b)) => a == b,
            (Task::PollLoop(None), None) => true,
            _ => false,
        }
    } else if args.contains("--watch-loop"@) {
        task == Task::WatchLoop
    } else {
        task == (Task::Show {
            reconcile: args.contains("--reconcile"@),
            push: args.contains("--push"@),
        })
    }
}

/// Reads the command line.
pub fn task_of(args: &Vec<String>) -> (res: Task)
    ensures
        asked_for(text::texts(args@), res),
{
    if wants(args, "--tick") {
        Task::Tick
    } else if wants(args, "--poll-loop") {
        Task::PollLoop(poll_loop_interval(args))
    } else if wants(args, "--watch-loop") {
        Task::WatchLoop
    } else {
        Task::Show { reconcile: wants(args, "--reconcile"), push: wants(args, "--push") }
    }
}

/// The arguments with which a polling loop is started in the background tell it to poll, with the
/// same interval.
pub proof fn law_poll_loop_gets_its_interval(program: Seq<char>, seconds: u64)
    requires
        program != "--tick"@,
        program != "--poll-loop"@,
    ensures
        asked_for(
            seq![program, "--poll-loop"@, number::digits_of(seconds as nat)],
            Task::PollLoop(Some(seconds)),
        ),
{
    let digits = number::digits_of(seconds as nat);
    let args = seq![program, "--poll-loop"@, digits];
    reveal_strlit("--tick");
    reveal_strlit("--poll-loop");
    number::law_render_parses_back(seconds as nat);
    assert(digits.len() > 0 ==> number::is_digit(digits[0]));
    assert("--tick"@[0] == '-');
    assert("--tick"@ != "--poll-loop"@) by {
        assert("--tick"@[2] != "--poll-loop"@[2]);
    }
    assert(args[1] == "--poll-loop"@);
    assert(!args.contains("--tick"@));
    assert(args.skip(1)[0] == "--poll-loop"@);
    assert(first_flag(args.skip(1), "--poll-loop"@) == Some(0nat));
    assert(first_flag(args, "--poll-loop"@) == Some(1nat));
}

/// A number in the first argument always is the width, whatever the settings say; without one the
/// settings count, and without those it is 26 columns.
pub proof fn law_argument_comes_before_settings(args: Seq<Seq<char>>, n: usize, config_width: usize)
    ensures
        args.len() > 1 && args[1] == number::digits_of(n as nat) ==> budget(args, None) == n
            && budget(args, Some(config_width)) == n,
        args.len() <= 1 || number::parsed(args[1]) is None || number::parsed(args[1])->0
            > usize::MAX ==> budget(args, Some(config_width)) == config_width && budget(args, None)
            == 26,
        args.len() > 1 && number::parsed(args[1]) is Some && number::parsed(args[1])->0
            <= usize::MAX ==> budget(args, Some(config_width)) == number::parsed(args[1])->0,
{
    number::law_render_parses_back(n as nat);
}

/// The first of the arguments that is a flag is one that is, with none before it.
pub proof fn law_first_flag_is_the_first(args: Seq<Seq<char>>, flag: Seq<char>)
    ensures
        match first_flag(args, flag) {
            Some(n) => n < args.len() && args[n as int] == flag && forall|k: int|
                0 <= k < n ==> #[trigger] args[k] != flag,
            None => !args.contains(flag),
        },
    decreases args.len(),
{
    if args.len() > 0 && args[0] != flag {
        let rest = args.skip(1);
        law_first_flag_is_the_first(rest, flag);
        assert(forall|k: int| 0 <= k < rest.len() ==> #[trigger] rest[k] == args[k + 1]);
        match first_flag(rest, flag) {
            Some(m) => {
                assert forall|k: int| 0 <= k < m + 1 implies #[trigger] args[k] != flag by {
                    if k > 0 {
                        assert(args[k] == rest[k - 1]);
                    }
                }
            },
            None => {
                if args.contains(flag) {
                    let k = choose|k: int| 0 <= k < args.len() && args[k] == flag;
                    assert(rest[k - 1] == flag);
                }
            },
        }
    }
}

/// The interval is the number right behind the first `--poll-loop`, if it is one.
pub proof fn law_interval_stands_behind_its_flag(args: Seq<Seq<char>>, at: int)
    requires
        0 <= at < args.len(),
        args[at] == "--poll-loop"@,
        forall|k: int| 0 <= k < at ==> #[trigger] args[k] != "--poll-loop"@,
    ensures
        at + 1 >= args.len() ==> interval(args) is None,
        at + 1 < args.len() && number::parsed(args[at + 1]) is Some && number::parsed(
            args[at + 1],
        )->0 <= u64::MAX ==> interval(args) == number::parsed(args[at + 1]),
        at + 1 < args.len() && (number::parsed(args[at + 1]) is None || number::parsed(
            args[at + 1],
        )->0 > u64::MAX) ==> interval(args) is None,
{
    law_first_flag_is_the_first(args, "--poll-loop"@);
    let n = first_flag(args, "--poll-loop"@);
    assert(args.contains(args[at]));
    if n->0 < at {
        assert(args[n->0 as int] != "--poll-loop"@);
    }
}

/// What a command line asks for: one tick comes before everything else, then polling, then watching,
/// and without any of them the modules are shown.
pub proof fn law_tasks_come_in_order(args: Seq<Seq<char>>, task: Task)
    requires
        asked_for(args, task),
    ensures
        task is Tick <==> args.contains("--tick"@),
        task is PollLoop <==> !args.contains("--tick"@) && args.contains("--poll-loop"@),
        task is WatchLoop <==> !args.contains("--tick"@) && !args.contains("--poll-loop"@)
            && args.contains("--watch-loop"@),
        task matches Task::Show { reconcile, push } ==> reconcile == args.contains("--reconcile"@)
            && push == args.contains("--push"@),
        task matches Task::PollLoop(Some(n)) ==> interval(args) == Some(n as nat),
        task matches Task::PollLoop(None) ==> interval(args) is None,
{
}

} // verus!
