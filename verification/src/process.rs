//! Waiting for the running application to exit, and ending it where it does
//! not: which processes are looked at, how long they are waited for, and
//! which of them are terminated.
//!
//! The caller lists the processes, looks whether they still run, sleeps and
//! terminates; the functions here decide.

use crate::text::same_text;
use crate::winpath::{file_name, file_name_of};
use vstd::prelude::*;

verus! {

/// How often the processes are looked at before the wait is given up.
pub const MAX_POLLS: u32 = 60;

/// The pause between two looks, in milliseconds.
pub const POLL_INTERVAL_MS: u64 = 500;

/// A process that the system lists.
#[derive(Debug)]
pub struct RunningProcess {
    pub name: String,
    pub id: u32,
}

/// What a process is: the base name of its executable and its identifier.
pub ghost struct ProcessView {
    pub name: Seq<char>,
    pub id: u32,
}

impl View for RunningProcess {
    type V = ProcessView;

    open spec fn view(&self) -> ProcessView {
        ProcessView { name: self.name@, id: self.id }
    }
}

/// What the processes of `v` are, in order.
pub open spec fn process_views(v: Seq<RunningProcess>) -> Seq<ProcessView> {
    Seq::new(v.len(), |i: int| v[i]@)
}

/// Why the wait could not begin.
#[derive(Clone, Copy, Debug, PartialEq, Eq, Structural)]
pub enum WaitError {
    /// The path of the executable has no file name.
    NoFileName,
}

impl WaitError {
    /// The message of the error.
    pub fn message(&self) -> (s: String)
        ensures
            s@ == "Could not get process file name"@,
    {
        "Could not get process file name".to_owned()
    }
}

/// Those of `all` whose name is `name`, in order.
pub open spec fn named(all: Seq<ProcessView>, name: Seq<char>) -> Seq<ProcessView>
    decreases all.len(),
{
    if all.len() == 0 {
        Seq::empty()
    } else if all.last().name == name {
        named(all.drop_last(), name).push(all.last())
    } else {
        named(all.drop_last(), name)
    }
}

/// The processes to wait for: those of `all` that bear the file name of
/// `path`. Only the names are compared here; whether a process runs the
/// very file at `path` is looked at before it is terminated.
pub fn target_processes(path: &str, all: &Vec<RunningProcess>) -> (r: Result<
    Vec<RunningProcess>,
    WaitError,
>)
    ensures
        match file_name_of(path@) {
            Some(name) => r matches Ok(targets) && process_views(targets@) == named(
                process_views(all@),
                name,
            ),
            None => r == Err::<Vec<RunningProcess>, WaitError>(WaitError::NoFileName),
        },
{
    let name = match file_name(path) {
        Some(name) => name,
        None => {
            return Err(WaitError::NoFileName);
        },
    };
    let mut targets: Vec<RunningProcess> = Vec::new();
    let mut i: usize = 0;
    while i < all.len()
        invariant
            i <= all@.len(),
            process_views(targets@) == named(process_views(all@).take(i as int), name@),
        decreases all@.len() - i,
    {
        let ghost done = process_views(all@).take(i as int);
        let ghost next = process_views(all@).take(i + 1);
        proof {
            assert(next.drop_last() =~= done);
            assert(next.last() == all@[i as int]@);
        }
        if same_text(all[i].name.as_str(), name.as_str()) {
            let found = RunningProcess { name: all[i].name.clone(), id: all[i].id };
            proof {
                assert(process_views(targets@.push(found)) =~= process_views(targets@).push(
                    found@,
                ));
            }
            targets.push(found);
        }
        i = i + 1;
    }
    proof {
        assert(process_views(all@).take(i as int) =~= process_views(all@));
    }
    Ok(targets)
}

/// Where the wait for the processes stands.
#[derive(Clone, Copy, Debug, PartialEq, Eq, Structural)]
pub enum WaitState {
    /// The processes have been looked at so many times and some still ran.
    Waiting { polls: u32 },
    /// No process is left: all of them have exited by themselves.
    NaturallyExited,
    /// The wait is over and some process still runs: it is to be
    /// terminated.
    Escalate,
    /// What still ran has been terminated, or was left alone because it is
    /// another program or out of reach.
    Killed,
    /// A process could not be terminated.
    GaveUp,
}

/// What has happened during the wait.
#[derive(Clone, Copy, Debug, PartialEq, Eq, Structural)]
pub enum WaitEvent {
    /// So many of the processes still run.
    Polled { running: usize },
    /// Whether the attempts to terminate what still runs have succeeded.
    Terminated(bool),
}

/// What the caller does next.
#[derive(Clone, Copy, Debug, PartialEq, Eq, Structural)]
pub enum WaitAction {
    /// Sleep for so many milliseconds, then look which processes still run.
    Poll { after_millis: u64 },
    /// Terminate the processes that still run, under the retry policy.
    Terminate,
    /// Return success.
    Succeed,
    /// Return the error of the last attempt to terminate.
    Fail,
    /// Nothing: the event does not belong to the state.
    Ignore,
}

/// The state in which the wait begins, and what the caller does first.
/// Without a process to wait for there is nothing to do.
pub open spec fn first(targets: nat) -> (WaitState, WaitAction) {
    if targets == 0 {
        (WaitState::NaturallyExited, WaitAction::Succeed)
    } else {
        (WaitState::Waiting { polls: 0 }, WaitAction::Poll { after_millis: 0 })
    }
}

/// The state that follows `state` on `event`, and what the caller does
/// next. The processes are looked at up to 60 times, half a second apart.
pub open spec fn next(state: WaitState, event: WaitEvent) -> (WaitState, WaitAction) {
    match (state, event) {
        (WaitState::Waiting { polls }, WaitEvent::Polled { running }) => if running == 0 {
            (WaitState::NaturallyExited, WaitAction::Succeed)
        } else if polls + 1 >= MAX_POLLS {
            (WaitState::Escalate, WaitAction::Terminate)
        } else {
            (
                WaitState::Waiting { polls: (polls + 1) as u32 },
                WaitAction::Poll { after_millis: POLL_INTERVAL_MS },
            )
        },
        (WaitState::Escalate, WaitEvent::Terminated(done)) => if done {
            (WaitState::Killed, WaitAction::Succeed)
        } else {
            (WaitState::GaveUp, WaitAction::Fail)
        },
        _ => (state, WaitAction::Ignore),
    }
}

/// The wait for the processes of one executable.
pub struct WaitOrKill {
    state: WaitState,
}

impl WaitOrKill {
    /// Where the wait stands.
    pub closed spec fn state_of(&self) -> WaitState {
        self.state
    }

    /// The wait for `targets` processes.
    pub fn new(targets: usize) -> (r: (WaitOrKill, WaitAction))
        ensures
            (r.0.state_of(), r.1) == first(targets as nat),
    {
        if targets == 0 {
            (WaitOrKill { state: WaitState::NaturallyExited }, WaitAction::Succeed)
        } else {
            (
                WaitOrKill { state: WaitState::Waiting { polls: 0 } },
                WaitAction::Poll { after_millis: 0 },
            )
        }
    }

    /// Where the wait stands.
    pub fn state(&self) -> (state: WaitState)
        ensures
            state == self.state_of(),
    {
        self.state
    }

    /// Takes note of `event` and says what the caller does next.
    pub fn step(&mut self, event: WaitEvent) -> (action: WaitAction)
        ensures
            (final(self).state_of(), action) == next(old(self).state_of(), event),
    {
        match (self.state, event) {
            (WaitState::Waiting { polls }, WaitEvent::Polled { running }) => {
                if running == 0 {
                    self.state = WaitState::NaturallyExited;
                    WaitAction::Succeed
                } else if polls >= MAX_POLLS - 1 {
                    self.state = WaitState::Escalate;
                    WaitAction::Terminate
                } else {
                    self.state = WaitState::Waiting { polls: polls + 1 };
                    WaitAction::Poll { after_millis: POLL_INTERVAL_MS }
                }
            },
            (WaitState::Escalate, WaitEvent::Terminated(done)) => {
                if done {
                    self.state = WaitState::Killed;
                    WaitAction::Succeed
                } else {
                    self.state = WaitState::GaveUp;
                    WaitAction::Fail
                }
            },
            _ => WaitAction::Ignore,
        }
    }
}

/// What the caller has found out about a process that still runs.
#[derive(Debug)]
pub enum ProcessProbe {
    /// The process could not be opened for want of permission.
    AccessDenied,
    /// The process could not be opened for another reason.
    OpenFailed,
    /// The path of the executable of the process could not be had.
    PathUnknown,
    /// The process runs the executable at this path.
    Runs(String),
}

/// Why a process could not be dealt with.
#[derive(Clone, Copy, Debug, PartialEq, Eq, Structural)]
pub enum KillError {
    /// The process could not be opened.
    Open,
    /// The path of the executable of the process could not be had.
    FileName,
    /// The process could not be terminated.
    Terminate,
}

/// What is done with a process that still runs.
#[derive(Clone, Copy, Debug, PartialEq, Eq, Structural)]
pub enum KillDecision {
    /// Leave it alone: this counts as a success.
    Skip,
    /// Terminate it, and do not wait for it to be gone.
    Terminate,
    /// Report this error.
    Fail(KillError),
}

/// What is done with a process of which `probe` is known, where the
/// executable to replace is at `path`: a process out of reach is left alone,
/// and so is one that runs another file of the same name; only a process
/// that runs exactly the file at `path` is terminated.
pub open spec fn decision_of(probe: ProcessProbe, path: Seq<char>) -> KillDecision {
    match probe {
        ProcessProbe::AccessDenied => KillDecision::Skip,
        ProcessProbe::OpenFailed => KillDecision::Fail(KillError::Open),
        ProcessProbe::PathUnknown => KillDecision::Fail(KillError::FileName),
        ProcessProbe::Runs(running) => if running@ == path {
            KillDecision::Terminate
        } else {
            KillDecision::Skip
        },
    }
}

/// The text that the message of the error begins with; the caller adds
/// what the system said.
pub open spec fn kill_error_text(error: KillError) -> Seq<char> {
    match error {
        KillError::Open => "Failed to open process: "@,
        KillError::FileName => "Failed to get process file name: "@,
        KillError::Terminate => "Failed to kill process"@,
    }
}

impl KillError {
    /// The text that the message of the error begins with.
    pub fn message(&self) -> (s: String)
        ensures
            s@ == kill_error_text(*self),
    {
        match self {
            KillError::Open => "Failed to open process: ".to_owned(),
            KillError::FileName => "Failed to get process file name: ".to_owned(),
            KillError::Terminate => "Failed to kill process".to_owned(),
        }
    }
}

/// Decides what is done with a process of which `probe` is known.
pub fn kill_process_if(probe: &ProcessProbe, path: &str) -> (decision: KillDecision)
    ensures
        decision == decision_of(*probe, path@),
{
    match probe {
        ProcessProbe::AccessDenied => KillDecision::Skip,
        ProcessProbe::OpenFailed => KillDecision::Fail(KillError::Open),
        ProcessProbe::PathUnknown => KillDecision::Fail(KillError::FileName),
        ProcessProbe::Runs(running) => {
            if same_text(running.as_str(), path) {
                KillDecision::Terminate
            } else {
                KillDecision::Skip
            }
        },
    }
}

/// The index of the first `true` of `failed`, or `None` where it has none.
pub open spec fn first_true(failed: Seq<bool>) -> Option<int>
    decreases failed.len(),
{
    if failed.len() == 0 {
        None
    } else if failed[0] {
        Some(0)
    } else {
        match first_true(failed.skip(1)) {
            Some(i) => Some(i + 1),
            None => None,
        }
    }
}

/// The outcome of one attempt to terminate all that still runs, where
/// `failed` says of each process whether dealing with it has failed: the
/// index of the first failure, whose error the attempt reports, or `None`
/// where the attempt has succeeded.
pub fn first_failure(failed: &Vec<bool>) -> (r: Option<usize>)
    ensures
        match first_true(failed@) {
            Some(i) => r == Some(i as usize),
            None => r is None,
        },
{
    let mut i: usize = 0;
    proof {
        assert(failed@.skip(0) =~= failed@);
    }
    while i < failed.len()
        invariant
            i <= failed@.len(),
            first_true(failed@) == match first_true(failed@.skip(i as int)) {
                Some(k) => Some(k + i),
                None => None,
            },
        decreases failed@.len() - i,
    {
        if failed[i] {
            return Some(i);
        }
        proof {
            assert(failed@.skip(i as int).skip(1) =~= failed@.skip(i + 1));
        }
        i = i + 1;
    }
    None
}

/// The wait ends without a single look where no process bears the name.
pub proof fn lemma_no_process_no_wait()
    ensures
        first(0) == (WaitState::NaturallyExited, WaitAction::Succeed),
{
}

/// The state after `polls` looks that each found a process running.
pub open spec fn after_polls(polls: nat) -> WaitState
    decreases polls,
{
    if polls == 0 {
        WaitState::Waiting { polls: 0 }
    } else {
        next(after_polls((polls - 1) as nat), WaitEvent::Polled { running: 1 }).0
    }
}

/// The wait is given up with the 60th look that finds a process running,
/// not before.
pub proof fn lemma_wait_is_bounded(polls: nat)
    requires
        polls <= MAX_POLLS,
    ensures
        polls < MAX_POLLS ==> after_polls(polls) == (WaitState::Waiting { polls: polls as u32 }),
        polls == MAX_POLLS ==> after_polls(polls) == WaitState::Escalate,
    decreases polls,
{
    if polls > 0 {
        lemma_wait_is_bounded((polls - 1) as nat);
    }
}

} // verus!
