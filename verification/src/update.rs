//! The update transaction: which of the two ways of updating is taken, the
//! files that change their names and in which order, what a failure of each
//! step means, and what is cleared away in the end.
//!
//! The caller looks at the file system and performs the steps; the
//! functions here say which steps there are.

use crate::layout::{
    entry_views, join, joined, manifest_name, manifest_of, names_where, new_name, old_name,
    rotates, rotating_names, DirEntry, EntryKind, EntryView, BIN_DIR, NEW_PREFIX, OLD_PREFIX,
    UNINSTALL_LOG,
};
use crate::text::texts;
use vstd::prelude::*;

verus! {

/// The way in which an update is applied.
#[derive(Clone, Copy, Debug, PartialEq, Eq, Structural)]
pub enum Strategy {
    /// The new files wait beside the ones they replace, and each changes
    /// places with its predecessor.
    ThreeWayRename,
    /// The new version waits in a directory of its own: the installed one
    /// is deleted, and the new one moves in.
    LegacyMove,
}

/// The way in which the update is applied: by renames where a new
/// executable waits beside the installed one, else by the legacy move.
pub fn select_strategy(new_executable_waits: bool) -> (s: Strategy)
    ensures
        new_executable_waits ==> s == Strategy::ThreeWayRename,
        !new_executable_waits ==> s == Strategy::LegacyMove,
{
    if new_executable_waits {
        Strategy::ThreeWayRename
    } else {
        Strategy::LegacyMove
    }
}

/// What a file that changes places is to the application.
#[derive(Clone, Copy, Debug, PartialEq, Eq, Structural)]
pub enum Role {
    /// A launcher in the directory `bin`.
    Launcher,
    /// The main executable.
    Executable,
    /// The manifest of the product.
    Manifest,
}

/// What follows the failure of a step.
#[derive(Clone, Copy, Debug, PartialEq, Eq, Structural)]
pub enum OnFailure {
    /// The update is given up, and the failure is its result.
    Abort,
    /// The failure is noted, and the update goes on.
    Continue,
}

/// One file that changes places, with the three paths that it rotates
/// through.
#[derive(Debug)]
pub struct RenameItem {
    pub role: Role,
    /// The path under which the file is used.
    pub current: String,
    /// The path under which the replaced file is kept.
    pub aside: String,
    /// The path under which the new file waits.
    pub staged: String,
}

/// What an item holds.
pub ghost struct ItemView {
    pub role: Role,
    pub current: Seq<char>,
    pub aside: Seq<char>,
    pub staged: Seq<char>,
}

impl View for RenameItem {
    type V = ItemView;

    open spec fn view(&self) -> ItemView {
        ItemView {
            role: self.role,
            current: self.current@,
            aside: self.aside@,
            staged: self.staged@,
        }
    }
}

/// What the items of `v` hold, in order.
pub open spec fn item_views(v: Seq<RenameItem>) -> Seq<ItemView> {
    Seq::new(v.len(), |i: int| v[i]@)
}

/// The item for the file `name` of the directory `dir`: it is kept as
/// `old_` and waits as `new_` with its name, in the same directory.
pub open spec fn item_of(role: Role, dir: Seq<char>, name: Seq<char>) -> ItemView {
    ItemView {
        role,
        current: joined(dir, name),
        aside: joined(dir, OLD_PREFIX@ + name),
        staged: joined(dir, NEW_PREFIX@ + name),
    }
}

/// The items for the files `names` of the directory `dir`, in order.
pub open spec fn items_of(role: Role, dir: Seq<char>, names: Seq<Seq<char>>) -> Seq<ItemView> {
    Seq::new(names.len(), |i: int| item_of(role, dir, names[i]))
}

/// The files that change places in an update of the installation at `root`
/// whose executable is `exe_name`, in the order in which they do: the
/// launchers that `bin` lists, then the executable, then the manifest.
pub open spec fn rename_plan(root: Seq<char>, exe_name: Seq<char>, bin: Seq<EntryView>) -> Seq<
    ItemView,
> {
    items_of(Role::Launcher, joined(root, BIN_DIR@), names_where(bin, rotates())) + seq![
        item_of(Role::Executable, root, exe_name),
        item_of(Role::Manifest, root, manifest_of(exe_name)),
    ]
}

/// What follows where the rename of a file in this role fails: only the
/// main executable is indispensable.
pub open spec fn rename_failure(role: Role) -> OnFailure {
    match role {
        Role::Executable => OnFailure::Abort,
        _ => OnFailure::Continue,
    }
}

/// The item for the file `name` of the directory `dir`.
pub fn rename_item(role: Role, dir: &str, name: &str) -> (item: RenameItem)
    ensures
        item@ == item_of(role, dir@, name@),
{
    let aside = old_name(name);
    let staged = new_name(name);
    RenameItem {
        role,
        current: join(dir, name),
        aside: join(dir, aside.as_str()),
        staged: join(dir, staged.as_str()),
    }
}

/// The files that change places, in the order in which they do. `bin`
/// lists the directory of the launchers, and is empty where there is none.
pub fn rename_items(root: &str, exe_name: &str, bin: &Vec<DirEntry>) -> (items: Vec<RenameItem>)
    ensures
        item_views(items@) == rename_plan(root@, exe_name@, entry_views(bin@)),
{
    let bin_dir = join(root, BIN_DIR);
    let names = rotating_names(bin);
    let ghost launchers = items_of(Role::Launcher, bin_dir@, texts(names@));
    let mut items: Vec<RenameItem> = Vec::new();
    let mut i: usize = 0;
    while i < names.len()
        invariant
            i <= names@.len(),
            launchers == items_of(Role::Launcher, bin_dir@, texts(names@)),
            item_views(items@) == launchers.take(i as int),
        decreases names@.len() - i,
    {
        let item = rename_item(Role::Launcher, bin_dir.as_str(), names[i].as_str());
        proof {
            assert(texts(names@)[i as int] == names@[i as int]@);
            assert(launchers[i as int] == item@);
            assert(item_views(items@.push(item)) =~= item_views(items@).push(item@));
            assert(launchers.take(i as int).push(item@) =~= launchers.take(i + 1));
        }
        items.push(item);
        i = i + 1;
    }
    let executable = rename_item(Role::Executable, root, exe_name);
    let manifest = manifest_name(exe_name);
    let manifest_item = rename_item(Role::Manifest, root, manifest.as_str());
    proof {
        assert(launchers.take(launchers.len() as int) =~= launchers);
        assert(item_views(items@.push(executable).push(manifest_item)) =~= launchers + seq![
            executable@,
            manifest_item@,
        ]);
    }
    items.push(executable);
    items.push(manifest_item);
    items
}

/// What follows where the rename of a file in this role fails.
pub fn on_rename_failure(role: Role) -> (f: OnFailure)
    ensures
        f == rename_failure(role),
{
    match role {
        Role::Executable => OnFailure::Abort,
        _ => OnFailure::Continue,
    }
}

/// What is cleared away once the files have changed places and the
/// application has stopped.
#[derive(Debug)]
pub enum Cleanup {
    /// All of the root but what belongs to the version in the directory
    /// with this name.
    RemoveFiles(String),
    /// The libraries that the former layout has left in the root.
    DllFiles,
}

/// What is cleared away: with a version to preserve, all that does not
/// belong to it; without one, the libraries of the former layout.
pub fn cleanup_for(commit: Option<&str>) -> (c: Cleanup)
    ensures
        match commit {
            Some(commit) => c matches Cleanup::RemoveFiles(name) && name@ == commit@,
            None => c matches Cleanup::DllFiles,
        },
{
    match commit {
        Some(commit) => Cleanup::RemoveFiles(commit.to_owned()),
        None => Cleanup::DllFiles,
    }
}

/// A step of the update by renames.
#[derive(Clone, Copy, Debug, PartialEq, Eq, Structural)]
pub enum Step {
    /// The launchers change places.
    RenameLaunchers,
    /// The main executable changes places.
    RenameExecutable,
    /// The manifest changes places.
    RenameManifest,
    /// The running application is waited for, and stopped where it stays.
    StopApplication,
    /// What does not belong to the new version is removed.
    RemoveFiles,
    /// The libraries of the former layout are removed.
    CleanupDlls,
    /// The update is complete.
    Complete,
}

/// What the user is told while a step is under way.
pub open spec fn status_of(step: Step) -> Seq<char> {
    match step {
        Step::RenameLaunchers => "Renaming files under bin folder..."@,
        Step::RenameExecutable => "Renaming main executable..."@,
        Step::RenameManifest => "Renaming manifest file..."@,
        Step::StopApplication => "Attempting to stop current running application..."@,
        Step::RemoveFiles => "Cleaning up old files..."@,
        Step::CleanupDlls => "Cleaning up DLL files..."@,
        Step::Complete => "Update completed successfully!"@,
    }
}

/// What follows where a step fails: the update cannot go on without the
/// new executable in place, nor while the application runs; every other
/// failure is noted only.
pub open spec fn step_failure(step: Step) -> OnFailure {
    match step {
        Step::RenameExecutable => OnFailure::Abort,
        Step::StopApplication => OnFailure::Abort,
        _ => OnFailure::Continue,
    }
}

/// The step that follows `step`, or `None` after the last one. With a
/// version to preserve the update ends by removing what does not belong to
/// it, else by removing the libraries of the former layout.
pub open spec fn step_after(step: Step, preserves_commit: bool) -> Option<Step> {
    match step {
        Step::RenameLaunchers => Some(Step::RenameExecutable),
        Step::RenameExecutable => Some(Step::RenameManifest),
        Step::RenameManifest => Some(Step::StopApplication),
        Step::StopApplication => if preserves_commit {
            Some(Step::RemoveFiles)
        } else {
            Some(Step::CleanupDlls)
        },
        Step::RemoveFiles => Some(Step::Complete),
        Step::CleanupDlls => Some(Step::Complete),
        Step::Complete => None,
    }
}

/// What the user is told while a step is under way.
pub fn status_text(step: Step) -> (s: String)
    ensures
        s@ == status_of(step),
{
    match step {
        Step::RenameLaunchers => "Renaming files under bin folder...".to_owned(),
        Step::RenameExecutable => "Renaming main executable...".to_owned(),
        Step::RenameManifest => "Renaming manifest file...".to_owned(),
        Step::StopApplication => "Attempting to stop current running application...".to_owned(),
        Step::RemoveFiles => "Cleaning up old files...".to_owned(),
        Step::CleanupDlls => "Cleaning up DLL files...".to_owned(),
        Step::Complete => "Update completed successfully!".to_owned(),
    }
}

/// What follows where a step fails.
pub fn on_step_failure(step: Step) -> (f: OnFailure)
    ensures
        f == step_failure(step),
{
    match step {
        Step::RenameExecutable => OnFailure::Abort,
        Step::StopApplication => OnFailure::Abort,
        _ => OnFailure::Continue,
    }
}

/// The step that follows `step`, or `None` after the last one.
pub fn next_step(step: Step, preserves_commit: bool) -> (next: Option<Step>)
    ensures
        next == step_after(step, preserves_commit),
{
    match step {
        Step::RenameLaunchers => Some(Step::RenameExecutable),
        Step::RenameExecutable => Some(Step::RenameManifest),
        Step::RenameManifest => Some(Step::StopApplication),
        Step::StopApplication => {
            if preserves_commit {
                Some(Step::RemoveFiles)
            } else {
                Some(Step::CleanupDlls)
            }
        },
        Step::RemoveFiles => Some(Step::Complete),
        Step::CleanupDlls => Some(Step::Complete),
        Step::Complete => None,
    }
}

/// Where an update by renames stands.
#[derive(Clone, Copy, Debug, PartialEq, Eq, Structural)]
pub enum UpdateState {
    /// This step is to be done or under way.
    Running(Step),
    /// Every step is done; the failures on the way were none that matter.
    Succeeded,
    /// This step has failed, and the update has ended with its failure.
    Failed(Step),
}

/// What the caller of an update by renames does next.
#[derive(Clone, Copy, Debug, PartialEq, Eq, Structural)]
pub enum UpdateAction {
    /// Do this step and report whether it succeeded.
    Run(Step),
    /// Return success.
    Succeed,
    /// Return the failure of this step.
    Fail(Step),
    /// Nothing: the update has ended.
    Ignore,
}

/// The state that follows `state` once the step under way has ended, where
/// `done` says whether it succeeded; and what the caller does next. A step
/// whose failure does not matter is followed by the next step either way.
pub open spec fn update_next(state: UpdateState, done: bool, preserves_commit: bool) -> (
    UpdateState,
    UpdateAction,
) {
    match state {
        UpdateState::Running(step) => if !done && step_failure(step) == OnFailure::Abort {
            (UpdateState::Failed(step), UpdateAction::Fail(step))
        } else {
            match step_after(step, preserves_commit) {
                Some(next) => (UpdateState::Running(next), UpdateAction::Run(next)),
                None => (UpdateState::Succeeded, UpdateAction::Succeed),
            }
        },
        _ => (state, UpdateAction::Ignore),
    }
}

/// The state in which an update by renames ends after at most `steps`
/// steps from `state`, where `succeeds` says of each step whether it
/// succeeds.
pub open spec fn update_run(
    state: UpdateState,
    succeeds: spec_fn(Step) -> bool,
    preserves_commit: bool,
    steps: nat,
) -> UpdateState
    decreases steps,
{
    match state {
        UpdateState::Running(step) => if steps == 0 {
            state
        } else {
            update_run(
                update_next(state, succeeds(step), preserves_commit).0,
                succeeds,
                preserves_commit,
                (steps - 1) as nat,
            )
        },
        _ => state,
    }
}

/// The state in which an update by renames ends. Six steps are as many as
/// it takes.
pub open spec fn update_outcome(succeeds: spec_fn(Step) -> bool, preserves_commit: bool)
    -> UpdateState {
    update_run(UpdateState::Running(Step::RenameLaunchers), succeeds, preserves_commit, 6)
}

/// An update by renames.
pub struct Update {
    preserves_commit: bool,
    state: UpdateState,
}

impl Update {
    /// Where the update stands.
    pub closed spec fn state_of(&self) -> UpdateState {
        self.state
    }

    /// Whether a version is preserved when the update clears up.
    pub closed spec fn preserves(&self) -> bool {
        self.preserves_commit
    }

    /// An update at its start: the launchers change places first.
    pub fn new(preserves_commit: bool) -> (r: (Update, UpdateAction))
        ensures
            r.0.state_of() == UpdateState::Running(Step::RenameLaunchers),
            r.0.preserves() == preserves_commit,
            r.1 == UpdateAction::Run(Step::RenameLaunchers),
    {
        (
            Update { preserves_commit, state: UpdateState::Running(Step::RenameLaunchers) },
            UpdateAction::Run(Step::RenameLaunchers),
        )
    }

    /// Where the update stands.
    pub fn state(&self) -> (state: UpdateState)
        ensures
            state == self.state_of(),
    {
        self.state
    }

    /// Takes note that the step under way has ended, with success or
    /// without, and says what the caller does next.
    pub fn step(&mut self, done: bool) -> (action: UpdateAction)
        ensures
            final(self).preserves() == old(self).preserves(),
            (final(self).state_of(), action) == update_next(
                old(self).state_of(),
                done,
                old(self).preserves(),
            ),
    {
        match self.state {
            UpdateState::Running(step) => {
                if !done && on_step_failure(step) == OnFailure::Abort {
                    self.state = UpdateState::Failed(step);
                    UpdateAction::Fail(step)
                } else {
                    match next_step(step, self.preserves_commit) {
                        Some(next) => {
                            self.state = UpdateState::Running(next);
                            UpdateAction::Run(next)
                        },
                        None => {
                            self.state = UpdateState::Succeeded;
                            UpdateAction::Succeed
                        },
                    }
                }
            },
            _ => UpdateAction::Ignore,
        }
    }
}

/// An update by renames fails only where the main executable cannot change
/// places or the running application cannot be stopped, and then with the
/// first of these failures; whatever else fails, it succeeds.
pub proof fn lemma_update_outcome(succeeds: spec_fn(Step) -> bool, preserves_commit: bool)
    ensures
        update_outcome(succeeds, preserves_commit) == if !succeeds(Step::RenameExecutable) {
            UpdateState::Failed(Step::RenameExecutable)
        } else if !succeeds(Step::StopApplication) {
            UpdateState::Failed(Step::StopApplication)
        } else {
            UpdateState::Succeeded
        },
{
    reveal_with_fuel(update_run, 7);
}

/// A step of the legacy update.
#[derive(Clone, Copy, Debug, PartialEq, Eq, Structural)]
pub enum LegacyStep {
    /// It is made sure that the directory that holds the update is there,
    /// before anything is touched.
    CheckStaging,
    /// The files of the installed version are deleted, and the directories
    /// of the root are removed.
    DeleteExisting,
    /// The entries of the directory that holds the update move into the
    /// root.
    Promote,
    /// The directory that held the update is removed.
    RemoveStaging,
    /// The uninstall log is patched for the paths that have moved.
    PatchLog,
}

/// What is wrong with the place where the update should be.
#[derive(Clone, Copy, Debug, PartialEq, Eq, Structural)]
pub enum StagingError {
    /// Nothing is there.
    Missing,
    /// What is there is no directory.
    NotADirectory,
}

/// The text of the message of the error.
pub open spec fn staging_error_text(error: StagingError) -> Seq<char> {
    match error {
        StagingError::Missing => "Update folder is missing"@,
        StagingError::NotADirectory => "Update folder is not a directory"@,
    }
}

impl StagingError {
    /// The message of the error.
    pub fn message(&self) -> (s: String)
        ensures
            s@ == staging_error_text(*self),
    {
        match self {
            StagingError::Missing => "Update folder is missing".to_owned(),
            StagingError::NotADirectory => "Update folder is not a directory".to_owned(),
        }
    }
}

/// What the check of the place where the update should be gives, where
/// `staging` says what is there, if anything: only a directory will do.
pub open spec fn staging_check(staging: Option<EntryKind>) -> Result<(), StagingError> {
    match staging {
        None => Err(StagingError::Missing),
        Some(EntryKind::Dir) => Ok(()),
        Some(_) => Err(StagingError::NotADirectory),
    }
}

/// Makes sure that the update is there to move in: `staging` says what
/// is at the place of the directory that should hold it, if anything. The
/// legacy update begins with this check and touches nothing where it fails.
pub fn check_staging(staging: Option<EntryKind>) -> (r: Result<(), StagingError>)
    ensures
        r is Ok <==> staging == Some(EntryKind::Dir),
        r == staging_check(staging),
{
    match staging {
        None => Err(StagingError::Missing),
        Some(EntryKind::Dir) => Ok(()),
        Some(_) => Err(StagingError::NotADirectory),
    }
}

/// What follows where a step of the legacy update fails: a log that cannot
/// be patched must not fail the update; every other failure ends it.
pub open spec fn legacy_failure(step: LegacyStep) -> OnFailure {
    match step {
        LegacyStep::PatchLog => OnFailure::Continue,
        _ => OnFailure::Abort,
    }
}

/// The step that follows `step` of the legacy update, or `None` after the
/// last one.
pub open spec fn legacy_step_after(step: LegacyStep) -> Option<LegacyStep> {
    match step {
        LegacyStep::CheckStaging => Some(LegacyStep::DeleteExisting),
        LegacyStep::DeleteExisting => Some(LegacyStep::Promote),
        LegacyStep::Promote => Some(LegacyStep::RemoveStaging),
        LegacyStep::RemoveStaging => Some(LegacyStep::PatchLog),
        LegacyStep::PatchLog => None,
    }
}

/// What follows where a step of the legacy update fails.
pub fn on_legacy_failure(step: LegacyStep) -> (f: OnFailure)
    ensures
        f == legacy_failure(step),
{
    match step {
        LegacyStep::PatchLog => OnFailure::Continue,
        _ => OnFailure::Abort,
    }
}

/// The step that follows `step` of the legacy update, or `None` after the
/// last one.
pub fn next_legacy_step(step: LegacyStep) -> (next: Option<LegacyStep>)
    ensures
        next == legacy_step_after(step),
{
    match step {
        LegacyStep::CheckStaging => Some(LegacyStep::DeleteExisting),
        LegacyStep::DeleteExisting => Some(LegacyStep::Promote),
        LegacyStep::Promote => Some(LegacyStep::RemoveStaging),
        LegacyStep::RemoveStaging => Some(LegacyStep::PatchLog),
        LegacyStep::PatchLog => None,
    }
}

/// Where a legacy update stands.
#[derive(Clone, Copy, Debug, PartialEq, Eq, Structural)]
pub enum LegacyState {
    /// This step is to be done or under way.
    Running(LegacyStep),
    /// Every step is done; the log may or may not have been patched.
    Succeeded,
    /// This step has failed, and the update has ended with its failure.
    Failed(LegacyStep),
}

/// What the caller of a legacy update does next.
#[derive(Clone, Copy, Debug, PartialEq, Eq, Structural)]
pub enum LegacyAction {
    /// Do this step and report whether it succeeded.
    Run(LegacyStep),
    /// Return success.
    Succeed,
    /// Return the failure of this step.
    Fail(LegacyStep),
    /// Nothing: the update has ended.
    Ignore,
}

/// The state that follows `state` once the step under way has ended, where
/// `done` says whether it succeeded; and what the caller does next.
pub open spec fn legacy_next(state: LegacyState, done: bool) -> (LegacyState, LegacyAction) {
    match state {
        LegacyState::Running(step) => if !done && legacy_failure(step) == OnFailure::Abort {
            (LegacyState::Failed(step), LegacyAction::Fail(step))
        } else {
            match legacy_step_after(step) {
                Some(next) => (LegacyState::Running(next), LegacyAction::Run(next)),
                None => (LegacyState::Succeeded, LegacyAction::Succeed),
            }
        },
        _ => (state, LegacyAction::Ignore),
    }
}

/// The state in which a legacy update ends after at most `steps` steps
/// from `state`, where `succeeds` says of each step whether it succeeds.
pub open spec fn legacy_run(state: LegacyState, succeeds: spec_fn(LegacyStep) -> bool, steps: nat)
    -> LegacyState
    decreases steps,
{
    match state {
        LegacyState::Running(step) => if steps == 0 {
            state
        } else {
            legacy_run(legacy_next(state, succeeds(step)).0, succeeds, (steps - 1) as nat)
        },
        _ => state,
    }
}

/// The state in which a legacy update ends. Five steps are as many as it
/// takes.
pub open spec fn legacy_outcome(succeeds: spec_fn(LegacyStep) -> bool) -> LegacyState {
    legacy_run(LegacyState::Running(LegacyStep::CheckStaging), succeeds, 5)
}

/// A legacy update.
pub struct LegacyUpdate {
    state: LegacyState,
}

impl LegacyUpdate {
    /// Where the update stands.
    pub closed spec fn state_of(&self) -> LegacyState {
        self.state
    }

    /// An update at its start: the place of the update is checked first.
    pub fn new() -> (r: (LegacyUpdate, LegacyAction))
        ensures
            r.0.state_of() == LegacyState::Running(LegacyStep::CheckStaging),
            r.1 == LegacyAction::Run(LegacyStep::CheckStaging),
    {
        (
            LegacyUpdate { state: LegacyState::Running(LegacyStep::CheckStaging) },
            LegacyAction::Run(LegacyStep::CheckStaging),
        )
    }

    /// Where the update stands.
    pub fn state(&self) -> (state: LegacyState)
        ensures
            state == self.state_of(),
    {
        self.state
    }

    /// Takes note that the step under way has ended, with success or
    /// without, and says what the caller does next.
    pub fn step(&mut self, done: bool) -> (action: LegacyAction)
        ensures
            (final(self).state_of(), action) == legacy_next(old(self).state_of(), done),
    {
        match self.state {
            LegacyState::Running(step) => {
                if !done && on_legacy_failure(step) == OnFailure::Abort {
                    self.state = LegacyState::Failed(step);
                    LegacyAction::Fail(step)
                } else {
                    match next_legacy_step(step) {
                        Some(next) => {
                            self.state = LegacyState::Running(next);
                            LegacyAction::Run(next)
                        },
                        None => {
                            self.state = LegacyState::Succeeded;
                            LegacyAction::Succeed
                        },
                    }
                }
            },
            _ => LegacyAction::Ignore,
        }
    }
}

/// A legacy update fails only where the update cannot move in, and then
/// with the first step that fails: the check of its place, the deletion of
/// the installed version, the move, or the removal of the emptied
/// directory. Where all of these succeed the update succeeds, whether or
/// not the log could be patched.
pub proof fn lemma_legacy_outcome(succeeds: spec_fn(LegacyStep) -> bool)
    ensures
        legacy_outcome(succeeds) == if !succeeds(LegacyStep::CheckStaging) {
            LegacyState::Failed(LegacyStep::CheckStaging)
        } else if !succeeds(LegacyStep::DeleteExisting) {
            LegacyState::Failed(LegacyStep::DeleteExisting)
        } else if !succeeds(LegacyStep::Promote) {
            LegacyState::Failed(LegacyStep::Promote)
        } else if !succeeds(LegacyStep::RemoveStaging) {
            LegacyState::Failed(LegacyStep::RemoveStaging)
        } else {
            LegacyState::Succeeded
        },
{
    reveal_with_fuel(legacy_run, 6);
}

/// Where the place of the update is missing or no directory, the legacy
/// update ends at once: the caller is told to return the failure, and no
/// step that touches a file is asked for.
pub proof fn lemma_missing_staging_touches_nothing(staging: Option<EntryKind>)
    requires
        staging != Some(EntryKind::Dir),
    ensures
        staging_check(staging) is Err,
        legacy_next(LegacyState::Running(LegacyStep::CheckStaging), staging_check(staging) is Ok)
            == (
            LegacyState::Failed(LegacyStep::CheckStaging),
            LegacyAction::Fail(LegacyStep::CheckStaging),
        ),
{
}

/// One entry of the staged update that moves into the installation
/// directory.
#[derive(Debug)]
pub struct Promotion {
    pub from: String,
    pub to: String,
}

/// What a promotion holds.
pub ghost struct PromotionView {
    pub from: Seq<char>,
    pub to: Seq<char>,
}

impl View for Promotion {
    type V = PromotionView;

    open spec fn view(&self) -> PromotionView {
        PromotionView { from: self.from@, to: self.to@ }
    }
}

/// What the promotions of `v` hold, in order.
pub open spec fn promotion_views(v: Seq<Promotion>) -> Seq<PromotionView> {
    Seq::new(v.len(), |i: int| v[i]@)
}

/// The moves that bring the update into the installation at `root`: every
/// entry of its directory `update_folder` moves to the root under its own
/// name.
pub open spec fn promotion_plan(
    root: Seq<char>,
    update_folder: Seq<char>,
    staged: Seq<EntryView>,
) -> Seq<PromotionView> {
    Seq::new(
        staged.len(),
        |i: int|
            PromotionView {
                from: joined(joined(root, update_folder), staged[i].name),
                to: joined(root, staged[i].name),
            },
    )
}

/// The moves that bring the update into the installation, in the order of
/// `staged`, which lists the directory that holds the update. That this
/// directory is there is made sure before, by `check_staging`, as the first
/// step of the update.
pub fn move_update(root: &str, update_folder: &str, staged: &Vec<DirEntry>) -> (moves: Vec<
    Promotion,
>)
    ensures
        promotion_views(moves@) == promotion_plan(root@, update_folder@, entry_views(staged@)),
{
    let update_path = join(root, update_folder);
    let ghost plan = promotion_plan(root@, update_folder@, entry_views(staged@));
    let mut moves: Vec<Promotion> = Vec::new();
    let mut i: usize = 0;
    while i < staged.len()
        invariant
            i <= staged@.len(),
            update_path@ == joined(root@, update_folder@),
            plan == promotion_plan(root@, update_folder@, entry_views(staged@)),
            promotion_views(moves@) == plan.take(i as int),
        decreases staged@.len() - i,
    {
        let name = staged[i].name.as_str();
        let step = Promotion { from: join(update_path.as_str(), name), to: join(root, name) };
        proof {
            assert(entry_views(staged@)[i as int] == staged@[i as int]@);
            assert(plan[i as int] == step@);
            assert(promotion_views(moves@.push(step)) =~= promotion_views(moves@).push(step@));
            assert(plan.take(i as int).push(step@) =~= plan.take(i + 1));
        }
        moves.push(step);
        i = i + 1;
    }
    proof {
        assert(plan.take(plan.len() as int) =~= plan);
    }
    moves
}

/// The paths that the legacy update works on.
#[derive(Debug)]
pub struct LegacyPaths {
    /// The uninstall log of the installation.
    pub uninstdat: String,
    /// The directory that holds the update.
    pub update: String,
}

/// Begins the legacy update of the installation at `root`: gives the paths
/// that it works on, the uninstall log and the directory `update_folder`,
/// both in the root, and the update at its start, whose first step is the
/// check of that directory. The update ends as `legacy_outcome` says: with
/// the failure of the first step that keeps the update from moving in, or
/// else with success, also where the log could not be patched.
pub fn do_update(root: &str, update_folder: &str) -> (r: (LegacyPaths, LegacyUpdate, LegacyAction))
    ensures
        r.0.uninstdat@ == joined(root@, UNINSTALL_LOG@),
        r.0.update@ == joined(root@, update_folder@),
        r.1.state_of() == LegacyState::Running(LegacyStep::CheckStaging),
        r.2 == LegacyAction::Run(LegacyStep::CheckStaging),
{
    let (update, action) = LegacyUpdate::new();
    (
        LegacyPaths { uninstdat: join(root, UNINSTALL_LOG), update: join(root, update_folder) },
        update,
        action,
    )
}

} // verus!
