//! The lock around a refresh, so that ticks and pushes come one after the other.

use crate::command::{CommandOutput, Invocation, InvocationView};
use crate::detach::{self, kill_invocation};
use crate::number::{self, render};
use crate::pid_file::{self, extract_recorded_pid};
use crate::text;
use vstd::prelude::*;

verus! {

/// How long to wait for another process before trying again, in milliseconds.
pub const LOCK_RETRY_DELAY: u64 = 50;

/// How far a refresh has come. Each stage but the last waits for one reply.
#[derive(Debug, Clone, Copy, PartialEq, Eq, Structural)]
pub enum LockStage {
    /// The lock file is being created.
    Creating,
    /// The lock file of another process is being read.
    Inspecting,
    /// The process that holds the lock is being looked for.
    Probing { pid: u32 },
    /// The lock file of a process that is gone is being deleted.
    Reclaiming,
    /// Another process is being waited for.
    Waiting,
    /// The refresh is running, under the lock.
    Holding,
    /// The lock file is being deleted.
    Releasing,
    /// The refresh is running without a lock, because there is no place for one.
    Unlocked,
    Done,
}

/// What is to be done outside.
#[derive(Debug)]
pub enum LockRequest {
    /// Create the lock file, unless there is one, and write this to it: `LockReply::Created`.
    Create(String),
    /// Read the lock file: `LockReply::Contents`.
    Read,
    /// Run a command to its end: `LockReply::Ran`.
    Run(Invocation),
    /// Delete the lock file: `LockReply::Finished`.
    Delete,
    /// Sleep for a while: `LockReply::Finished`.
    Sleep,
    /// Refresh: `LockReply::Finished`.
    Refresh,
    /// Nothing.
    Stop,
}

/// The model of what is to be done outside.
pub enum LockRequestView {
    Create(Seq<char>),
    Read,
    Run(InvocationView),
    Delete,
    Sleep,
    Refresh,
    Stop,
}

impl View for LockRequest {
    type V = LockRequestView;

    open spec fn view(&self) -> LockRequestView {
        match self {
            LockRequest::Create(contents) => LockRequestView::Create(contents@),
            LockRequest::Read => LockRequestView::Read,
            LockRequest::Run(call) => LockRequestView::Run(call@),
            LockRequest::Delete => LockRequestView::Delete,
            LockRequest::Sleep => LockRequestView::Sleep,
            LockRequest::Refresh => LockRequestView::Refresh,
            LockRequest::Stop => LockRequestView::Stop,
        }
    }
}

/// What came of it.
#[derive(Debug)]
pub enum LockReply {
    /// Whether the lock file was created.
    Created(bool),
    /// What the file holds, if it could be read.
    Contents(Option<String>),
    /// What the command left behind, if it could be run.
    Ran(Option<CommandOutput>),
    Finished,
}

/// What the lock file of the process `pid` holds.
pub open spec fn lock_file(pid: u32) -> Seq<char> {
    pid_file::field_line("pid"@, number::digits_of(pid as nat))
}

/// What the lock file of the process `pid` holds.
pub fn render_lock_file(pid: u32) -> (res: String)
    ensures
        res@ == lock_file(pid),
{
    let mut res = "pid".to_owned();
    res.append("=");
    res.append(render(pid as u64).as_str());
    res.push('\n');
    res
}

/// A process that can be signalled is alive.
pub open spec fn is_alive(ran: Option<CommandOutput>) -> bool {
    match ran {
        Some(output) => output.success,
        None => false,
    }
}

/// Whether a process is alive, by what came of sending it no signal at all.
pub fn pid_is_alive(ran: &Option<CommandOutput>) -> (res: bool)
    ensures
        res == is_alive(*ran),
{
    match ran {
        Some(output) => output.success,
        None => false,
    }
}

/// The first stage: without a place for a lock file, the refresh goes ahead at once.
pub open spec fn first_stage(lock_path: Option<&str>) -> LockStage {
    match lock_path {
        Some(_) => LockStage::Creating,
        None => LockStage::Unlocked,
    }
}

/// The first stage of a refresh whose lock file stands at `lock_path`.
pub fn begin(lock_path: Option<&str>) -> (res: LockStage)
    ensures
        res == first_stage(lock_path),
{
    match lock_path {
        Some(_) => LockStage::Creating,
        None => LockStage::Unlocked,
    }
}

/// What is to be done outside at a stage.
pub open spec fn request_at(stage: LockStage, own_pid: u32) -> LockRequestView {
    match stage {
        LockStage::Creating => LockRequestView::Create(lock_file(own_pid)),
        LockStage::Inspecting => LockRequestView::Read,
        LockStage::Probing { pid } => LockRequestView::Run(detach::kill_call("-0"@, pid)),
        LockStage::Reclaiming | LockStage::Releasing => LockRequestView::Delete,
        LockStage::Waiting => LockRequestView::Sleep,
        LockStage::Holding | LockStage::Unlocked => LockRequestView::Refresh,
        LockStage::Done => LockRequestView::Stop,
    }
}

/// The stage after the lock file of another process has been read.
pub open spec fn after_inspecting(file: Option<Seq<char>>) -> LockStage {
    match file {
        Some(contents) => match pid_file::recorded_pid(contents) {
            Some(pid) => LockStage::Probing { pid: pid as u32 },
            None => LockStage::Waiting,
        },
        None => LockStage::Waiting,
    }
}

/// The stage after `reply`. A reply of another kind than the stage waits for changes nothing.
pub open spec fn next_stage(stage: LockStage, reply: LockReply) -> LockStage {
    match (stage, reply) {
        (LockStage::Creating, LockReply::Created(created)) => if created {
            LockStage::Holding
        } else {
            LockStage::Inspecting
        },
        (LockStage::Inspecting, LockReply::Contents(file)) => after_inspecting(text::maybe(file)),
        (LockStage::Probing { pid }, LockReply::Ran(ran)) => if is_alive(ran) {
            LockStage::Waiting
        } else {
            LockStage::Reclaiming
        },
        (LockStage::Reclaiming, LockReply::Finished) => LockStage::Creating,
        (LockStage::Waiting, LockReply::Finished) => LockStage::Creating,
        (LockStage::Holding, LockReply::Finished) => LockStage::Releasing,
        (LockStage::Releasing, LockReply::Finished) => LockStage::Done,
        (LockStage::Unlocked, LockReply::Finished) => LockStage::Done,
        _ => stage,
    }
}

/// What is to be done outside at `stage`, for the process `own_pid`.
pub fn request(stage: LockStage, own_pid: u32) -> (res: LockRequest)
    ensures
        res@ == request_at(stage, own_pid),
{
    match stage {
        LockStage::Creating => LockRequest::Create(render_lock_file(own_pid)),
        LockStage::Inspecting => LockRequest::Read,
        LockStage::Probing { pid } => LockRequest::Run(kill_invocation("-0", pid)),
        LockStage::Reclaiming => LockRequest::Delete,
        LockStage::Releasing => LockRequest::Delete,
        LockStage::Waiting => LockRequest::Sleep,
        LockStage::Holding => LockRequest::Refresh,
        LockStage::Unlocked => LockRequest::Refresh,
        LockStage::Done => LockRequest::Stop,
    }
}

/// Takes the reply to the request of `stage` and goes on.
pub fn with_refresh_lock(stage: LockStage, reply: LockReply) -> (res: LockStage)
    ensures
        res == next_stage(stage, reply),
{
    match (stage, reply) {
        (LockStage::Creating, LockReply::Created(created)) => {
            if created {
                LockStage::Holding
            } else {
                LockStage::Inspecting
            }
        },
        (LockStage::Inspecting, LockReply::Contents(file)) => match file {
            Some(contents) => match extract_recorded_pid(contents.as_str()) {
                Some(pid) => LockStage::Probing { pid },
                None => LockStage::Waiting,
            },
            None => LockStage::Waiting,
        },
        (LockStage::Probing { pid: _ }, LockReply::Ran(ran)) => {
            if pid_is_alive(&ran) {
                LockStage::Waiting
            } else {
                LockStage::Reclaiming
            }
        },
        (LockStage::Reclaiming, LockReply::Finished) => LockStage::Creating,
        (LockStage::Waiting, LockReply::Finished) => LockStage::Creating,
        (LockStage::Holding, LockReply::Finished) => LockStage::Releasing,
        (LockStage::Releasing, LockReply::Finished) => LockStage::Done,
        (LockStage::Unlocked, LockReply::Finished) => LockStage::Done,
        (stage, _) => stage,
    }
}

/// Whoever finds a lock file looks for the process that wrote it.
pub proof fn law_lock_file_names_its_holder(pid: u32, contents: String)
    requires
        contents@ == lock_file(pid),
    ensures
        next_stage(LockStage::Inspecting, LockReply::Contents(Some(contents)))
            == (LockStage::Probing { pid }),
{
    pid_file::law_single_pid_line_is_read_back(pid);
}

/// A lock is taken away only from a process that was looked for and not found, and a refresh runs
/// under the lock only once the lock file has been created.
pub proof fn law_live_lock_is_respected(stage: LockStage, reply: LockReply)
    ensures
        next_stage(stage, reply) is Reclaiming && !(stage is Reclaiming) ==> stage is Probing
            && reply is Ran && !is_alive(reply->Ran_0),
        next_stage(stage, reply) is Holding && !(stage is Holding) ==> stage is Creating && reply
            == LockReply::Created(true),
        next_stage(stage, reply) is Unlocked ==> stage is Unlocked,
{
}

/// A lock that a process left behind when it died is deleted, and creating it is tried again at
/// once.
pub proof fn law_dead_holder_does_not_block(
    pid: u32,
    contents: String,
    ran: Option<CommandOutput>,
)
    requires
        contents@ == lock_file(pid),
        !is_alive(ran),
    ensures
        ({
            let probing = next_stage(LockStage::Inspecting, LockReply::Contents(Some(contents)));
            let reclaiming = next_stage(probing, LockReply::Ran(ran));
            &&& request_at(reclaiming, pid) is Delete
            &&& next_stage(reclaiming, LockReply::Finished) == LockStage::Creating
        }),
{
    law_lock_file_names_its_holder(pid, contents);
}

/// The process at `stage` has created the lock file and not yet deleted it.
pub open spec fn holds_lock(stage: LockStage) -> bool {
    stage is Holding || stage is Releasing
}

/// Whom the lock file belongs to.
pub enum Holder {
    /// There is no lock file.
    Nobody,
    /// One of the processes that use the lock.
    Member(int),
    /// A process that died and left the lock file behind.
    Gone,
}

/// Several live processes that use the lock, each with its number and stage, and perhaps the lock
/// file of one that died.
pub struct LockUsers {
    pub pids: Seq<u32>,
    pub stages: Seq<LockStage>,
    pub holder: Holder,
    /// The number of the process that died.
    pub gone: u32,
}

impl LockUsers {
    /// Process `i` has read the lock file of the process that died, and has not deleted it yet.
    pub open spec fn reclaims(self, i: int) -> bool {
        0 <= i < self.stages.len() && (self.stages[i] is Reclaiming || self.stages[i]
            == (LockStage::Probing { pid: self.gone }))
    }

    /// The process that the lock file belongs to, and no other, holds the lock. At most one of them
    /// is after a lock file that was left behind, and that file is still there.
    pub open spec fn exclusive(self) -> bool {
        &&& self.pids.len() == self.stages.len()
        &&& !self.pids.contains(self.gone)
        &&& forall|i: int|
            0 <= i < self.stages.len() ==> {
                &&& holds_lock(#[trigger] self.stages[i]) <==> self.holder == Holder::Member(i)
                &&& !(self.stages[i] is Unlocked)
                &&& self.stages[i] matches LockStage::Probing { pid } ==> pid == self.gone
                    || self.pids.contains(pid)
            }
        &&& forall|i: int| #[trigger] self.reclaims(i) ==> self.holder is Gone
        &&& forall|i: int, j: int| #[trigger]
            self.reclaims(i) && #[trigger] self.reclaims(j) ==> i == j
    }

    /// The process `pid` is the one that the lock file names.
    pub open spec fn is_holder(self, pid: nat) -> bool {
        match self.holder {
            Holder::Nobody => false,
            Holder::Member(k) => 0 <= k < self.pids.len() && self.pids[k] == pid,
            Holder::Gone => self.gone == pid,
        }
    }

    /// `reply` is what process `i` gets to hear: the lock file can be created exactly if there is
    /// none, whatever number can be read from it is its holder's, and exactly the live processes
    /// are found.
    pub open spec fn truthful(self, i: int, reply: LockReply) -> bool {
        match (self.stages[i], reply) {
            (LockStage::Creating, LockReply::Created(created)) => created
                == (self.holder is Nobody),
            (LockStage::Inspecting, LockReply::Contents(Some(contents))) => {
                match pid_file::recorded_pid(contents@) {
                    Some(pid) => self.is_holder(pid),
                    None => true,
                }
            },
            (LockStage::Probing { pid }, LockReply::Ran(ran)) => is_alive(ran)
                == self.pids.contains(pid),
            _ => true,
        }
    }

    /// Whom the lock file belongs to once process `i` has had its reply.
    pub open spec fn holder_after(self, i: int, reply: LockReply) -> Holder {
        match (self.stages[i], reply) {
            (LockStage::Creating, LockReply::Created(true)) => Holder::Member(i),
            (LockStage::Releasing, LockReply::Finished) => Holder::Nobody,
            (LockStage::Reclaiming, LockReply::Finished) => Holder::Nobody,
            _ => self.holder,
        }
    }

    /// The processes once process `i` has had its reply.
    pub open spec fn after(self, i: int, reply: LockReply) -> LockUsers {
        LockUsers {
            stages: self.stages.update(i, next_stage(self.stages[i], reply)),
            holder: self.holder_after(i, reply),
            ..self
        }
    }

    /// The processes after a row of steps, each of one process and with the reply to it.
    pub open spec fn after_all(self, steps: Seq<(int, LockReply)>) -> LockUsers
        decreases steps.len(),
    {
        if steps.len() == 0 {
            self
        } else {
            self.after_all(steps.drop_last()).after(steps.last().0, steps.last().1)
        }
    }

    /// A step that can happen while no two processes are after the same lock file that was left
    /// behind.
    pub open spec fn possible(self, i: int, reply: LockReply) -> bool {
        &&& 0 <= i < self.stages.len()
        &&& self.truthful(i, reply)
        &&& self.after(i, reply).reclaims(i) ==> forall|j: int| #[trigger] self.reclaims(j) ==> j == i
    }

    /// Every one of a row of steps can happen in its turn.
    pub open spec fn all_possible(self, steps: Seq<(int, LockReply)>) -> bool
        decreases steps.len(),
    {
        steps.len() == 0 || (self.all_possible(steps.drop_last()) && self.after_all(
            steps.drop_last(),
        ).possible(steps.last().0, steps.last().1))
    }
}

/// A step of one process leaves the lock with one process at a time, also while one of them takes
/// over a lock file that a process left behind when it died.
pub proof fn law_step_keeps_the_lock_exclusive(users: LockUsers, i: int, reply: LockReply)
    requires
        users.exclusive(),
        users.possible(i, reply),
    ensures
        users.after(i, reply).exclusive(),
{
    let next = users.after(i, reply);
    let stage = users.stages[i];
    assert(holds_lock(stage) <==> users.holder == Holder::Member(i));
    if stage is Reclaiming {
        assert(users.reclaims(i));
    }
    if let (LockStage::Inspecting, LockReply::Contents(Some(contents))) = (stage, reply) {
        if let Some(pid) = pid_file::recorded_pid(contents@) {
            assert(pid <= u32::MAX);
            if let Holder::Member(k) = users.holder {
                assert(users.pids[k] == pid);
                assert(users.pids.contains(users.pids[k]));
            }
        }
    }
    assert forall|k: int| 0 <= k < next.stages.len() implies {
        &&& holds_lock(#[trigger] next.stages[k]) <==> next.holder == Holder::Member(k)
        &&& !(next.stages[k] is Unlocked)
        &&& next.stages[k] matches LockStage::Probing { pid } ==> pid == next.gone
            || next.pids.contains(pid)
    } by {
        assert(holds_lock(users.stages[k]) <==> users.holder == Holder::Member(k));
    }
    assert forall|k: int| #[trigger] next.reclaims(k) implies next.holder is Gone by {
        if k != i {
            assert(users.reclaims(k));
            if stage is Reclaiming {
                assert(users.reclaims(i));
            }
        } else if stage is Probing {
            assert(users.reclaims(i));
        }
    }
    assert forall|a: int, b: int| #[trigger]
        next.reclaims(a) && #[trigger] next.reclaims(b) implies a == b by {
        if a != i {
            assert(users.reclaims(a));
        }
        if b != i {
            assert(users.reclaims(b));
        }
    }
}

/// Refreshes never overlap: however the steps of any number of live processes interleave, no two
/// of them refresh at a time. That holds too if the lock file was left behind by a process that
/// died, as long as no two of them are after that file at once.
pub proof fn law_refreshes_never_overlap(
    users: LockUsers,
    steps: Seq<(int, LockReply)>,
    a: int,
    b: int,
)
    requires
        users.exclusive(),
        users.all_possible(steps),
        0 <= a < users.stages.len(),
        0 <= b < users.stages.len(),
        users.after_all(steps).stages[a] is Holding,
        users.after_all(steps).stages[b] is Holding,
    ensures
        a == b,
{
    lemma_steps_keep_the_lock_exclusive(users, steps);
    let now = users.after_all(steps);
    assert(holds_lock(now.stages[a]));
    assert(holds_lock(now.stages[b]));
}

proof fn lemma_steps_keep_the_lock_exclusive(users: LockUsers, steps: Seq<(int, LockReply)>)
    requires
        users.exclusive(),
        users.all_possible(steps),
    ensures
        users.after_all(steps).exclusive(),
        users.after_all(steps).stages.len() == users.stages.len(),
    decreases steps.len(),
{
    if steps.len() > 0 {
        let before = steps.drop_last();
        lemma_steps_keep_the_lock_exclusive(users, before);
        law_step_keeps_the_lock_exclusive(
            users.after_all(before),
            steps.last().0,
            steps.last().1,
        );
    }
}

/// Processes that have only just begun hold no lock, whether or not a lock file was left behind.
pub proof fn law_lock_starts_free(users: LockUsers)
    requires
        users.pids.len() == users.stages.len(),
        !users.pids.contains(users.gone),
        !(users.holder is Member),
        forall|i: int| 0 <= i < users.stages.len() ==> #[trigger] users.stages[i] is Creating,
    ensures
        users.exclusive(),
{
}

/// Live processes among which no lock file was left behind never go after one, so that every step
/// is possible.
pub proof fn law_live_lock_is_never_reclaimed(users: LockUsers, i: int, reply: LockReply)
    requires
        users.exclusive(),
        !(users.holder is Gone),
        0 <= i < users.stages.len(),
        users.truthful(i, reply),
    ensures
        users.possible(i, reply),
        !(users.after(i, reply).holder is Gone),
{
    assert(!users.reclaims(i));
    if let Holder::Member(k) = users.holder {
        if 0 <= k < users.pids.len() {
            assert(users.pids.contains(users.pids[k]));
        }
    }
    assert(!users.after(i, reply).reclaims(i));
}

/// A lock that is free is taken at once: the lock file is written with the number of the process,
/// the refresh runs, and the file is deleted.
pub proof fn law_free_lock_is_taken_and_given_back(path: &str, own_pid: u32)
    ensures
        ({
            let start = first_stage(Some(path));
            let held = next_stage(start, LockReply::Created(true));
            let done = next_stage(held, LockReply::Finished);
            let end = next_stage(done, LockReply::Finished);
            &&& request_at(start, own_pid) is Create
            &&& request_at(start, own_pid)->Create_0 == "pid="@ + number::digits_of(
                own_pid as nat,
            ) + seq!['\n']
            &&& request_at(held, own_pid) is Refresh
            &&& request_at(done, own_pid) is Delete
            &&& request_at(end, own_pid) is Stop
        }),
{
    reveal_strlit("pid");
    reveal_strlit("=");
    reveal_strlit("pid=");
    assert(lock_file(own_pid) =~= "pid="@ + number::digits_of(own_pid as nat) + seq!['\n']);
}

/// A lock that is held is waited for: its file is read and its holder looked for; if it is alive, or
/// the file names nobody, the process sleeps and then tries again.
pub proof fn law_held_lock_is_waited_for(
    own_pid: u32,
    pid: u32,
    contents: String,
    ran: Option<CommandOutput>,
)
    ensures
        ({
            let busy = next_stage(LockStage::Creating, LockReply::Created(false));
            let read = next_stage(busy, LockReply::Contents(Some(contents)));
            &&& request_at(busy, own_pid) is Read
            &&& next_stage(busy, LockReply::Contents(None)) == LockStage::Waiting
            &&& pid_file::recorded_pid(contents@) is None ==> read == LockStage::Waiting
            &&& pid_file::recorded_pid(contents@) == Some(pid as nat) ==> request_at(read, own_pid)
                == LockRequestView::Run(detach::kill_call("-0"@, pid))
            &&& pid_file::recorded_pid(contents@) == Some(pid as nat) ==> next_stage(
                read,
                LockReply::Ran(ran),
            ) == if ran is Some && ran->0.success {
                LockStage::Waiting
            } else {
                LockStage::Reclaiming
            }
            &&& request_at(LockStage::Waiting, own_pid) is Sleep
            &&& next_stage(LockStage::Waiting, LockReply::Finished) == LockStage::Creating
            &&& request_at(LockStage::Reclaiming, own_pid) is Delete
            &&& next_stage(LockStage::Reclaiming, LockReply::Finished) == LockStage::Creating
        }),
{
}

/// Without a place for a lock file the refresh runs once, and no file is touched.
pub proof fn law_refresh_without_a_place_for_the_lock(own_pid: u32)
    ensures
        ({
            let start = first_stage(None);
            &&& request_at(start, own_pid) is Refresh
            &&& request_at(next_stage(start, LockReply::Finished), own_pid) is Stop
        }),
{
}

/// A reply that a stage does not wait for changes nothing.
pub proof fn law_unasked_replies_change_nothing(stage: LockStage, reply: LockReply)
    requires
        match stage {
            LockStage::Creating => !(reply is Created),
            LockStage::Inspecting => !(reply is Contents),
            LockStage::Probing { .. } => !(reply is Ran),
            LockStage::Done => true,
            _ => !(reply is Finished),
        },
    ensures
        next_stage(stage, reply) == stage,
{
}

} // verus!
