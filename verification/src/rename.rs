//! The three-way rename that puts a new file in the place of one that may
//! be in use: the current file moves aside to the old name, the new file
//! moves to the current name, and a failure of the second move brings the
//! old file back.
//!
//! The protocol is a state machine. Its caller looks at the file system and
//! renames; the machine says which of these comes next.

use vstd::prelude::*;

verus! {

/// One of the three names that the protocol rotates.
#[derive(Clone, Copy, Debug, PartialEq, Eq, Structural)]
pub enum Slot {
    /// The name under which the file is used.
    Current,
    /// The name under which the new file waits.
    New,
    /// The name under which the replaced file is kept.
    Old,
}

/// Why the protocol has failed.
#[derive(Clone, Copy, Debug, PartialEq, Eq, Structural)]
pub enum RenameError {
    /// The current file could not be moved aside; nothing has changed.
    CurrentToOld,
    /// The new file could not be moved into place.
    NewToCurrent,
}

/// Where the protocol stands.
#[derive(Clone, Copy, Debug, PartialEq, Eq, Structural)]
pub enum RenameState {
    /// Nothing has been looked at.
    Start,
    /// The current file is being moved aside.
    MovingAside,
    /// The new file is being moved into place.
    Promoting,
    /// The new file could not be moved into place; it is being found out
    /// whether an old file can be brought back.
    CheckingOld,
    /// The old file is being brought back.
    RollingBack,
    /// The protocol has ended.
    Done,
}

/// What the caller has found out or done.
#[derive(Clone, Copy, Debug, PartialEq, Eq, Structural)]
pub enum RenameEvent {
    /// Which of the new and the current file exist.
    Found { new_exists: bool, current_exists: bool },
    /// Whether the rename that was asked for has succeeded.
    Renamed(bool),
    /// Whether the old file exists.
    OldFound(bool),
}

/// What the caller does next.
#[derive(Clone, Copy, Debug, PartialEq, Eq, Structural)]
pub enum RenameAction {
    /// Find out which of the new and the current file exist.
    Look,
    /// Rename the file at the first name to the second.
    Rename { from: Slot, to: Slot },
    /// Find out whether the old file exists.
    LookForOld,
    /// Return success.
    Succeed,
    /// Return this error.
    Fail(RenameError),
    /// Nothing: the event does not belong to the state.
    Ignore,
}

/// The state that follows `state` on `event`, and what the caller does
/// next.
pub open spec fn next(state: RenameState, event: RenameEvent) -> (RenameState, RenameAction) {
    match (state, event) {
        (RenameState::Start, RenameEvent::Found { new_exists, current_exists }) => if !new_exists {
            (RenameState::Done, RenameAction::Succeed)
        } else if current_exists {
            (RenameState::MovingAside, RenameAction::Rename { from: Slot::Current, to: Slot::Old })
        } else {
            (RenameState::Promoting, RenameAction::Rename { from: Slot::New, to: Slot::Current })
        },
        (RenameState::MovingAside, RenameEvent::Renamed(done)) => if done {
            (RenameState::Promoting, RenameAction::Rename { from: Slot::New, to: Slot::Current })
        } else {
            (RenameState::Done, RenameAction::Fail(RenameError::CurrentToOld))
        },
        (RenameState::Promoting, RenameEvent::Renamed(done)) => if done {
            (RenameState::Done, RenameAction::Succeed)
        } else {
            (RenameState::CheckingOld, RenameAction::LookForOld)
        },
        (RenameState::CheckingOld, RenameEvent::OldFound(old_exists)) => if old_exists {
            (RenameState::RollingBack, RenameAction::Rename { from: Slot::Old, to: Slot::Current })
        } else {
            (RenameState::Done, RenameAction::Fail(RenameError::NewToCurrent))
        },
        (RenameState::RollingBack, RenameEvent::Renamed(_)) => (
            RenameState::Done,
            RenameAction::Fail(RenameError::NewToCurrent),
        ),
        _ => (state, RenameAction::Ignore),
    }
}

/// The text that the message of the error begins with; the caller adds
/// what the system said.
pub open spec fn error_text(error: RenameError) -> Seq<char> {
    match error {
        RenameError::CurrentToOld => "Failed to rename current to old: "@,
        RenameError::NewToCurrent => "Failed to rename new to current: "@,
    }
}

impl RenameError {
    /// The text that the message of the error begins with.
    pub fn message(&self) -> (s: String)
        ensures
            s@ == error_text(*self),
    {
        match self {
            RenameError::CurrentToOld => "Failed to rename current to old: ".to_owned(),
            RenameError::NewToCurrent => "Failed to rename new to current: ".to_owned(),
        }
    }
}

/// The three-way rename of one file.
pub struct ThreeWayRename {
    state: RenameState,
}

impl ThreeWayRename {
    /// Where the protocol stands.
    pub closed spec fn state_of(&self) -> RenameState {
        self.state
    }

    /// The protocol at its start: the caller looks first.
    pub fn new() -> (r: (ThreeWayRename, RenameAction))
        ensures
            r.0.state_of() == RenameState::Start,
            r.1 == RenameAction::Look,
    {
        (ThreeWayRename { state: RenameState::Start }, RenameAction::Look)
    }

    /// Where the protocol stands.
    pub fn state(&self) -> (state: RenameState)
        ensures
            state == self.state_of(),
    {
        self.state
    }

    /// Takes note of `event` and says what the caller does next.
    pub fn step(&mut self, event: RenameEvent) -> (action: RenameAction)
        ensures
            (final(self).state_of(), action) == next(old(self).state_of(), event),
    {
        match (self.state, event) {
            (RenameState::Start, RenameEvent::Found { new_exists, current_exists }) => {
                if !new_exists {
                    self.state = RenameState::Done;
                    RenameAction::Succeed
                } else if current_exists {
                    self.state = RenameState::MovingAside;
                    RenameAction::Rename { from: Slot::Current, to: Slot::Old }
                } else {
                    self.state = RenameState::Promoting;
                    RenameAction::Rename { from: Slot::New, to: Slot::Current }
                }
            },
            (RenameState::MovingAside, RenameEvent::Renamed(done)) => {
                if done {
                    self.state = RenameState::Promoting;
                    RenameAction::Rename { from: Slot::New, to: Slot::Current }
                } else {
                    self.state = RenameState::Done;
                    RenameAction::Fail(RenameError::CurrentToOld)
                }
            },
            (RenameState::Promoting, RenameEvent::Renamed(done)) => {
                if done {
                    self.state = RenameState::Done;
                    RenameAction::Succeed
                } else {
                    self.state = RenameState::CheckingOld;
                    RenameAction::LookForOld
                }
            },
            (RenameState::CheckingOld, RenameEvent::OldFound(old_exists)) => {
                if old_exists {
                    self.state = RenameState::RollingBack;
                    RenameAction::Rename { from: Slot::Old, to: Slot::Current }
                } else {
                    self.state = RenameState::Done;
                    RenameAction::Fail(RenameError::NewToCurrent)
                }
            },
            (RenameState::RollingBack, RenameEvent::Renamed(_)) => {
                self.state = RenameState::Done;
                RenameAction::Fail(RenameError::NewToCurrent)
            },
            _ => RenameAction::Ignore,
        }
    }
}

/// The files of a directory: what each name holds.
pub type Files = Map<Slot, Seq<u8>>;

/// The files after a rename that has succeeded: the target holds what the
/// source held, and the source is gone. A rename of a file that is not
/// there changes nothing.
pub open spec fn renamed(files: Files, from: Slot, to: Slot) -> Files {
    if files.dom().contains(from) {
        files.remove(from).insert(to, files[from])
    } else {
        files
    }
}

/// Whether the rename with the number `at` succeeds, where `outcomes` says
/// so of the first renames and every later one succeeds.
pub open spec fn succeeds(outcomes: Seq<bool>, at: nat) -> bool {
    at >= outcomes.len() || outcomes[at as int]
}

/// What the caller finds when it does what `action` asks on `files`, where
/// `done` says whether a rename succeeds; and the files after that.
pub open spec fn perform(files: Files, action: RenameAction, done: bool) -> (
    Files,
    Option<RenameEvent>,
) {
    match action {
        RenameAction::Look => (
            files,
            Some(
                RenameEvent::Found {
                    new_exists: files.dom().contains(Slot::New),
                    current_exists: files.dom().contains(Slot::Current),
                },
            ),
        ),
        RenameAction::Rename { from, to } => (
            if done {
                renamed(files, from, to)
            } else {
                files
            },
            Some(RenameEvent::Renamed(done)),
        ),
        RenameAction::LookForOld => (
            files,
            Some(RenameEvent::OldFound(files.dom().contains(Slot::Old))),
        ),
        _ => (files, None),
    }
}

/// The count of renames after `action` has been done.
pub open spec fn renames_after(renames: nat, action: RenameAction) -> nat {
    match action {
        RenameAction::Rename { from, to } => renames + 1,
        _ => renames,
    }
}

/// The files and the result after the protocol has run on `files` for at
/// most `steps` steps from `state`, with `action` to be done next, after
/// `renames` renames, of which `outcomes` says which succeed. The result is
/// `None` while the protocol has not ended.
pub open spec fn run(
    files: Files,
    state: RenameState,
    action: RenameAction,
    outcomes: Seq<bool>,
    renames: nat,
    steps: nat,
) -> (Files, Option<Result<(), RenameError>>)
    decreases steps,
{
    match action {
        RenameAction::Succeed => (files, Some(Ok(()))),
        RenameAction::Fail(error) => (files, Some(Err(error))),
        _ => if steps == 0 {
            (files, None)
        } else {
            match perform(files, action, succeeds(outcomes, renames)) {
                (after, Some(event)) => {
                    let (state, next_action) = next(state, event);
                    run(
                        after,
                        state,
                        next_action,
                        outcomes,
                        renames_after(renames, action),
                        (steps - 1) as nat,
                    )
                },
                (after, None) => (after, None),
            }
        },
    }
}

/// The protocol from its start, where `outcomes` says which renames
/// succeed. Five steps are as many as it ever takes.
pub open spec fn three_way_rename_with(files: Files, outcomes: Seq<bool>) -> (
    Files,
    Option<Result<(), RenameError>>,
) {
    run(files, RenameState::Start, RenameAction::Look, outcomes, 0, 5)
}

/// The protocol from its start, with every rename succeeding.
pub open spec fn three_way_rename(files: Files) -> (Files, Option<Result<(), RenameError>>) {
    three_way_rename_with(files, Seq::empty())
}

/// Where the current and the new file exist, the protocol succeeds: the
/// current name holds what the new file held, the old name holds what the
/// current file held, and the new name is gone.
pub proof fn lemma_rotates(files: Files)
    requires
        files.dom().contains(Slot::Current),
        files.dom().contains(Slot::New),
    ensures
        three_way_rename(files).1 == Some(Ok::<(), RenameError>(())),
        three_way_rename(files).0.dom().contains(Slot::Current),
        three_way_rename(files).0[Slot::Current] == files[Slot::New],
        three_way_rename(files).0.dom().contains(Slot::Old),
        three_way_rename(files).0[Slot::Old] == files[Slot::Current],
        !three_way_rename(files).0.dom().contains(Slot::New),
{
    reveal_with_fuel(run, 6);
}

/// Where only the new file exists, the protocol succeeds: the current name
/// holds what the new file held, the new name is gone, and no old file is
/// made.
pub proof fn lemma_promotes(files: Files)
    requires
        !files.dom().contains(Slot::Current),
        files.dom().contains(Slot::New),
    ensures
        three_way_rename(files).1 == Some(Ok::<(), RenameError>(())),
        three_way_rename(files).0.dom().contains(Slot::Current),
        three_way_rename(files).0[Slot::Current] == files[Slot::New],
        !three_way_rename(files).0.dom().contains(Slot::New),
        three_way_rename(files).0.dom().contains(Slot::Old) == files.dom().contains(Slot::Old),
        files.dom().contains(Slot::Old) ==> three_way_rename(files).0[Slot::Old]
            == files[Slot::Old],
{
    reveal_with_fuel(run, 6);
}

/// Where no new file exists, the protocol succeeds and no file changes.
pub proof fn lemma_nothing_to_do(files: Files)
    requires
        !files.dom().contains(Slot::New),
    ensures
        three_way_rename(files) == (files, Some(Ok::<(), RenameError>(()))),
{
    reveal_with_fuel(run, 6);
}

/// Where the current file cannot be moved aside, the protocol fails and no
/// file has changed.
pub proof fn lemma_no_progress_no_change(files: Files)
    requires
        files.dom().contains(Slot::Current),
        files.dom().contains(Slot::New),
    ensures
        three_way_rename_with(files, seq![false]) == (
            files,
            Some(Err::<(), RenameError>(RenameError::CurrentToOld)),
        ),
{
    reveal_with_fuel(run, 6);
}

/// Where the new file cannot be moved into place after the current file
/// has moved aside, the old file is brought back: the protocol fails, the
/// current and the new name hold what they held, and the old name is free
/// again.
pub proof fn lemma_rollback_restores(files: Files)
    requires
        files.dom().contains(Slot::Current),
        files.dom().contains(Slot::New),
    ensures
        three_way_rename_with(files, seq![true, false, true]).1 == Some(
            Err::<(), RenameError>(RenameError::NewToCurrent),
        ),
        three_way_rename_with(files, seq![true, false, true]).0 == files.remove(Slot::Old),
{
    reveal_with_fuel(run, 6);
    let after = three_way_rename_with(files, seq![true, false, true]).0;
    assert(after =~= files.remove(Slot::Old));
}

} // verus!
