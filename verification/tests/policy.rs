use inno_updater::gui::{
    failure_message, message_box_result, message_box_style, retry_message, MessageBoxResult,
    MessageBoxType,
};
use inno_updater::handle::{
    transition, BatchAction, BatchEvent, DeletionBatch, HandleOp, HandleState,
};
use inno_updater::process::{
    first_failure, kill_process_if, target_processes, KillDecision, KillError, ProcessProbe,
    RunningProcess, WaitAction, WaitError, WaitEvent, WaitOrKill, WaitState, MAX_POLLS,
    POLL_INTERVAL_MS,
};
use inno_updater::rename::{
    RenameAction, RenameError, RenameEvent, RenameState, Slot, ThreeWayRename,
};
use inno_updater::retry::{
    backoff_millis, Retry, RetryAction, RetryEvent, RetryState, DEFAULT_MAX_ATTEMPTS, UNBOUNDED,
};

/// Runs an operation that fails on every attempt before `succeeds_on` under
/// the policy, with a user who cancels. Returns the attempt that succeeded or
/// the attempt whose failure is returned, and the pauses that were asked for.
fn run_retry(max_attempts: Option<u32>, succeeds_on: u32) -> (Result<u32, u32>, Vec<u64>) {
    let (mut retry, mut action) = Retry::new(max_attempts);
    let mut pauses = Vec::new();
    let mut last_attempt = 0;
    loop {
        match action {
            RetryAction::Run { attempt, after_millis } => {
                if attempt > 1 {
                    pauses.push(after_millis);
                }
                last_attempt = attempt;
                let event = if attempt >= succeeds_on {
                    RetryEvent::Success
                } else {
                    RetryEvent::Failure
                };
                action = retry.step(event);
            }
            RetryAction::Ask => {
                action = retry.step(RetryEvent::Answer(MessageBoxResult::Cancel));
            }
            RetryAction::Return => return (Ok(last_attempt), pauses),
            RetryAction::GiveUp => return (Err(last_attempt), pauses),
            RetryAction::Ignore => panic!("the policy ignored an event"),
        }
    }
}

#[test]
fn retry_succeeds_on_the_eleventh_attempt_of_eleven() {
    let (result, pauses) = run_retry(Some(11), 11);
    assert_eq!(result, Ok(11));
    assert_eq!(pauses, vec![50, 200, 450, 800, 1250, 1800, 2450, 3200, 4050, 5000]);
    assert_eq!(pauses.iter().sum::<u64>(), 19250);
}

#[test]
fn retry_returns_the_tenth_failure_of_ten() {
    let (result, pauses) = run_retry(Some(10), 11);
    assert_eq!(result, Err(10));
    assert_eq!(pauses.len(), 9);
}

#[test]
fn retry_defaults_to_eleven_attempts() {
    assert_eq!(DEFAULT_MAX_ATTEMPTS, 11);
    let (retry, action) = Retry::new(None);
    assert_eq!(retry.max_attempts(), 11);
    assert_eq!(retry.state(), RetryState::Trying { attempt: 1 });
    assert_eq!(action, RetryAction::Run { attempt: 1, after_millis: 0 });
    assert_eq!(run_retry(None, 11).0, Ok(11));
    assert_eq!(run_retry(None, 12).0, Err(11));
    assert_eq!(run_retry(Some(16), 16).0, Ok(16));
    assert_eq!(run_retry(Some(16), 17).0, Err(16));
}

#[test]
fn retry_succeeds_at_once() {
    let (result, pauses) = run_retry(Some(11), 1);
    assert_eq!(result, Ok(1));
    assert!(pauses.is_empty());
}

#[test]
fn retry_makes_one_attempt_even_with_a_bound_of_zero() {
    assert_eq!(run_retry(Some(0), 1).0, Ok(1));
    assert_eq!(run_retry(Some(0), 2).0, Err(1));
    assert_eq!(run_retry(Some(1), 2).0, Err(1));
}

#[test]
fn retry_backs_off_with_the_square_of_the_attempt() {
    assert_eq!(backoff_millis(0), 0);
    assert_eq!(backoff_millis(1), 50);
    assert_eq!(backoff_millis(2), 200);
    assert_eq!(backoff_millis(3), 450);
    assert_eq!(backoff_millis(4), 800);
    assert_eq!(backoff_millis(10), 5000);
    assert_eq!(backoff_millis(15), 11250);
    assert_eq!(backoff_millis(u32::MAX), u64::MAX);
    assert_eq!(backoff_millis(607_000_000), 18_422_450_000_000_000_000);
    assert_eq!(backoff_millis(608_000_000), u64::MAX);
}

#[test]
fn retry_starts_over_when_the_user_asks_for_it() {
    let (mut retry, _) = Retry::new(Some(2));
    assert_eq!(
        retry.step(RetryEvent::Failure),
        RetryAction::Run { attempt: 2, after_millis: 50 }
    );
    assert_eq!(retry.step(RetryEvent::Failure), RetryAction::Ask);
    assert_eq!(retry.state(), RetryState::Asking { attempt: 2 });
    assert_eq!(
        retry.step(RetryEvent::Answer(MessageBoxResult::Retry)),
        RetryAction::Run { attempt: 1, after_millis: 0 }
    );
    assert_eq!(retry.state(), RetryState::Trying { attempt: 1 });
    assert_eq!(
        retry.step(RetryEvent::Failure),
        RetryAction::Run { attempt: 2, after_millis: 50 }
    );
    assert_eq!(retry.step(RetryEvent::Failure), RetryAction::Ask);
    assert_eq!(retry.step(RetryEvent::Answer(MessageBoxResult::OK)), RetryAction::GiveUp);
    assert_eq!(retry.state(), RetryState::Failed { attempt: 2 });
}

#[test]
fn retry_without_a_cap_does_not_ask() {
    let (mut retry, action) = Retry::unbounded();
    assert_eq!(action, RetryAction::Run { attempt: 1, after_millis: 0 });
    assert_eq!(retry.max_attempts(), UNBOUNDED);
    assert_eq!(UNBOUNDED, u32::MAX);
    for attempt in 1..1000u32 {
        assert_eq!(
            retry.step(RetryEvent::Failure),
            RetryAction::Run {
                attempt: attempt + 1,
                after_millis: (attempt as u64) * (attempt as u64) * 50
            }
        );
    }
    assert_eq!(retry.step(RetryEvent::Success), RetryAction::Return);
}

#[test]
fn retry_ignores_events_out_of_turn() {
    let (mut retry, _) = Retry::new(Some(1));
    assert_eq!(retry.step(RetryEvent::Answer(MessageBoxResult::Retry)), RetryAction::Ignore);
    assert_eq!(retry.state(), RetryState::Trying { attempt: 1 });
    assert_eq!(retry.step(RetryEvent::Failure), RetryAction::Ask);
    assert_eq!(retry.step(RetryEvent::Failure), RetryAction::Ignore);
    assert_eq!(retry.step(RetryEvent::Success), RetryAction::Ignore);
    assert_eq!(retry.step(RetryEvent::Answer(MessageBoxResult::Cancel)), RetryAction::GiveUp);
    assert_eq!(retry.step(RetryEvent::Success), RetryAction::Ignore);
    let (mut retry, _) = Retry::new(Some(1));
    assert_eq!(retry.step(RetryEvent::Success), RetryAction::Return);
    assert_eq!(retry.state(), RetryState::Succeeded);
    assert_eq!(retry.step(RetryEvent::Failure), RetryAction::Ignore);
}

/// A directory of three names, on which the protocol is run.
struct Dir {
    current: Option<Vec<u8>>,
    new: Option<Vec<u8>>,
    old: Option<Vec<u8>>,
    /// The renames that are to fail, by their number from 1.
    failing: Vec<usize>,
    renames: usize,
}

impl Dir {
    fn slot(&mut self, slot: Slot) -> &mut Option<Vec<u8>> {
        match slot {
            Slot::Current => &mut self.current,
            Slot::New => &mut self.new,
            Slot::Old => &mut self.old,
        }
    }

    fn rename(&mut self, from: Slot, to: Slot) -> bool {
        self.renames += 1;
        if self.failing.contains(&self.renames) || self.slot(from).is_none() {
            return false;
        }
        let content = self.slot(from).take();
        *self.slot(to) = content;
        true
    }
}

fn perform_three_way_rename(dir: &mut Dir) -> Result<(), RenameError> {
    let (mut machine, mut action) = ThreeWayRename::new();
    loop {
        let event = match action {
            RenameAction::Look => RenameEvent::Found {
                new_exists: dir.new.is_some(),
                current_exists: dir.current.is_some(),
            },
            RenameAction::Rename { from, to } => RenameEvent::Renamed(dir.rename(from, to)),
            RenameAction::LookForOld => RenameEvent::OldFound(dir.old.is_some()),
            RenameAction::Succeed => return Ok(()),
            RenameAction::Fail(e) => return Err(e),
            RenameAction::Ignore => panic!("the protocol ignored an event"),
        };
        action = machine.step(event);
    }
}

#[test]
fn test_perform_three_way_rename_basic() {
    let mut dir = Dir {
        current: Some(b"current content".to_vec()),
        new: Some(b"new content".to_vec()),
        old: None,
        failing: Vec::new(),
        renames: 0,
    };

    let result = perform_three_way_rename(&mut dir);

    assert!(result.is_ok(), "Rename operation should succeed");
    assert!(dir.current.is_some(), "Current file should exist");
    assert!(dir.new.is_none(), "New file should be renamed");
    assert!(dir.old.is_some(), "Old file should exist");
    assert_eq!(
        dir.current.unwrap(),
        b"new content",
        "Current file should contain new content"
    );
    assert_eq!(
        dir.old.unwrap(),
        b"current content",
        "Old file should contain original content"
    );
}

#[test]
fn test_perform_three_way_rename_no_current_file() {
    let mut dir = Dir {
        current: None,
        new: Some(b"new content".to_vec()),
        old: None,
        failing: Vec::new(),
        renames: 0,
    };

    let result = perform_three_way_rename(&mut dir);

    assert!(
        result.is_ok(),
        "Rename operation should succeed even without current file"
    );
    assert!(dir.current.is_some(), "Current file should exist after rename");
    assert!(dir.new.is_none(), "New file should be renamed");
    assert!(
        dir.old.is_none(),
        "Old file should not exist as there was no current file"
    );
    assert_eq!(
        dir.current.unwrap(),
        b"new content",
        "Current file should contain new content"
    );
}

#[test]
fn test_perform_three_way_rename_no_new_file() {
    let mut dir = Dir {
        current: Some(b"current content".to_vec()),
        new: None,
        old: None,
        failing: Vec::new(),
        renames: 0,
    };

    let result = perform_three_way_rename(&mut dir);

    assert!(
        result.is_ok(),
        "Rename operation should return Ok when there's no new file"
    );
    assert!(dir.current.is_some(), "Current file should still exist");
    assert!(
        dir.old.is_none(),
        "Old file should not exist as rename wasn't needed"
    );
    assert_eq!(dir.renames, 0);
    assert_eq!(
        dir.current.unwrap(),
        b"current content",
        "Current file should be unchanged"
    );
}

#[test]
fn three_way_rename_changes_nothing_when_the_current_file_cannot_move() {
    let mut dir = Dir {
        current: Some(b"current content".to_vec()),
        new: Some(b"new content".to_vec()),
        old: None,
        failing: vec![1],
        renames: 0,
    };
    assert_eq!(perform_three_way_rename(&mut dir), Err(RenameError::CurrentToOld));
    assert_eq!(dir.renames, 1);
    assert_eq!(dir.current.unwrap(), b"current content");
    assert_eq!(dir.new.unwrap(), b"new content");
    assert!(dir.old.is_none());
}

#[test]
fn three_way_rename_brings_the_old_file_back() {
    let mut dir = Dir {
        current: Some(b"current content".to_vec()),
        new: Some(b"new content".to_vec()),
        old: None,
        failing: vec![2],
        renames: 0,
    };
    assert_eq!(perform_three_way_rename(&mut dir), Err(RenameError::NewToCurrent));
    assert_eq!(dir.renames, 3);
    assert_eq!(dir.current.unwrap(), b"current content");
    assert_eq!(dir.new.unwrap(), b"new content");
    assert!(dir.old.is_none());
    assert_eq!(
        RenameError::NewToCurrent.message(),
        "Failed to rename new to current: "
    );
    assert_eq!(
        RenameError::CurrentToOld.message(),
        "Failed to rename current to old: "
    );
}

#[test]
fn three_way_rename_reports_the_failed_promotion_whatever_the_rollback_does() {
    let mut dir = Dir {
        current: Some(b"current content".to_vec()),
        new: Some(b"new content".to_vec()),
        old: None,
        failing: vec![2, 3],
        renames: 0,
    };
    assert_eq!(perform_three_way_rename(&mut dir), Err(RenameError::NewToCurrent));
    assert_eq!(dir.renames, 3);
    assert!(dir.current.is_none());
    assert_eq!(dir.old.unwrap(), b"current content");

    // without an old file there is nothing to bring back
    let mut dir = Dir {
        current: None,
        new: Some(b"new content".to_vec()),
        old: None,
        failing: vec![1],
        renames: 0,
    };
    assert_eq!(perform_three_way_rename(&mut dir), Err(RenameError::NewToCurrent));
    assert_eq!(dir.renames, 1);
}

#[test]
fn three_way_rename_walks_through_its_states() {
    let (mut machine, action) = ThreeWayRename::new();
    assert_eq!(action, RenameAction::Look);
    assert_eq!(machine.state(), RenameState::Start);
    assert_eq!(machine.step(RenameEvent::Renamed(true)), RenameAction::Ignore);
    assert_eq!(
        machine.step(RenameEvent::Found { new_exists: true, current_exists: true }),
        RenameAction::Rename { from: Slot::Current, to: Slot::Old }
    );
    assert_eq!(machine.state(), RenameState::MovingAside);
    assert_eq!(
        machine.step(RenameEvent::Renamed(true)),
        RenameAction::Rename { from: Slot::New, to: Slot::Current }
    );
    assert_eq!(machine.state(), RenameState::Promoting);
    assert_eq!(machine.step(RenameEvent::Renamed(false)), RenameAction::LookForOld);
    assert_eq!(machine.state(), RenameState::CheckingOld);
    assert_eq!(
        machine.step(RenameEvent::OldFound(true)),
        RenameAction::Rename { from: Slot::Old, to: Slot::Current }
    );
    assert_eq!(machine.state(), RenameState::RollingBack);
    assert_eq!(
        machine.step(RenameEvent::Renamed(true)),
        RenameAction::Fail(RenameError::NewToCurrent)
    );
    assert_eq!(machine.state(), RenameState::Done);
    assert_eq!(machine.step(RenameEvent::Renamed(true)), RenameAction::Ignore);
}

fn process(name: &str, id: u32) -> RunningProcess {
    RunningProcess { name: String::from(name), id }
}

/// Runs the wait for the processes with the name of `path`. `exits_after`
/// says after how many looks a process is gone; `kill` says whether the
/// processes that stay can be terminated. Returns the result and the number
/// of looks.
fn wait_or_kill(
    path: &str,
    all: &Vec<RunningProcess>,
    exits_after: u32,
    kill: bool,
) -> Result<(WaitState, u32, u64), WaitError> {
    let targets = target_processes(path, all)?;
    let (mut wait, mut action) = WaitOrKill::new(targets.len());
    let mut looks = 0;
    let mut slept = 0;
    loop {
        match action {
            WaitAction::Poll { after_millis } => {
                slept += after_millis;
                looks += 1;
                let running = if looks > exits_after { 0 } else { targets.len() };
                action = wait.step(WaitEvent::Polled { running });
            }
            WaitAction::Terminate => action = wait.step(WaitEvent::Terminated(kill)),
            WaitAction::Succeed | WaitAction::Fail => return Ok((wait.state(), looks, slept)),
            WaitAction::Ignore => panic!("the wait ignored an event"),
        }
    }
}

#[test]
fn test_wait_or_kill_no_processes_running() {
    let all = vec![process("explorer.exe", 1), process("other.exe", 2)];
    let result = wait_or_kill("C:\\nonexistent\\fake_process.exe", &all, 0, true);
    assert!(result.is_ok(), "Should succeed when no processes are running");
    assert_eq!(result.unwrap(), (WaitState::NaturallyExited, 0, 0));
}

#[test]
fn test_wait_or_kill_invalid_path() {
    let result = wait_or_kill("", &Vec::new(), 0, true);
    assert!(result.is_err(), "Should fail with invalid path");
    assert!(result
        .unwrap_err()
        .message()
        .contains("Could not get process file name"));
}

#[test]
fn test_wait_or_kill_process_exits_naturally() {
    let all = vec![process("test_helper.exe", 7)];
    let result = wait_or_kill("C:\\target\\debug\\test_helper.exe", &all, 10, true);
    assert!(result.is_ok(), "Should succeed when process exits naturally");
    assert_eq!(result.unwrap(), (WaitState::NaturallyExited, 11, 10 * 500));
}

#[test]
fn test_wait_or_kill_multiple_processes() {
    let all = vec![
        process("test_helper.exe", 7),
        process("explorer.exe", 8),
        process("test_helper.exe", 9),
    ];
    let targets = target_processes("C:\\target\\debug\\test_helper.exe", &all).unwrap();
    assert!(
        targets.len() >= 2,
        "Should have at least 2 test helper processes running"
    );
    assert_eq!(targets[0].id, 7);
    assert_eq!(targets[1].id, 9);
    let result = wait_or_kill("C:\\target\\debug\\test_helper.exe", &all, u32::MAX, true);
    assert!(result.is_ok(), "Should succeed when killing multiple processes");
    assert_eq!(result.unwrap(), (WaitState::Killed, 60, 59 * 500));
}

#[test]
fn wait_gives_up_where_a_process_cannot_be_terminated() {
    let all = vec![process("Code.exe", 7)];
    let result = wait_or_kill("C:\\Code\\Code.exe", &all, u32::MAX, false).unwrap();
    assert_eq!(result.0, WaitState::GaveUp);
    assert_eq!(MAX_POLLS, 60);
    assert_eq!(POLL_INTERVAL_MS, 500);
}

#[test]
fn wait_compares_names_exactly() {
    let all = vec![process("code.exe", 1), process("Code.exe", 2), process("Code.exe ", 3)];
    let targets = target_processes("C:\\Code\\Code.exe", &all).unwrap();
    assert_eq!(targets.len(), 1);
    assert_eq!(targets[0].id, 2);
    assert_eq!(targets[0].name, "Code.exe");
}

#[test]
fn wait_ignores_events_out_of_turn() {
    let (mut wait, action) = WaitOrKill::new(1);
    assert_eq!(action, WaitAction::Poll { after_millis: 0 });
    assert_eq!(wait.step(WaitEvent::Terminated(true)), WaitAction::Ignore);
    assert_eq!(wait.state(), WaitState::Waiting { polls: 0 });
    assert_eq!(
        wait.step(WaitEvent::Polled { running: 1 }),
        WaitAction::Poll { after_millis: 500 }
    );
    assert_eq!(wait.step(WaitEvent::Polled { running: 0 }), WaitAction::Succeed);
    assert_eq!(wait.step(WaitEvent::Polled { running: 0 }), WaitAction::Ignore);
}

#[test]
fn only_the_very_executable_is_terminated() {
    let path = "C:\\Code\\Code.exe";
    assert_eq!(kill_process_if(&ProcessProbe::AccessDenied, path), KillDecision::Skip);
    assert_eq!(
        kill_process_if(&ProcessProbe::OpenFailed, path),
        KillDecision::Fail(KillError::Open)
    );
    assert_eq!(
        kill_process_if(&ProcessProbe::PathUnknown, path),
        KillDecision::Fail(KillError::FileName)
    );
    assert_eq!(
        kill_process_if(&ProcessProbe::Runs(String::from("C:\\Code\\Code.exe")), path),
        KillDecision::Terminate
    );
    assert_eq!(
        kill_process_if(&ProcessProbe::Runs(String::from("D:\\Other\\Code.exe")), path),
        KillDecision::Skip
    );
    assert_eq!(
        kill_process_if(&ProcessProbe::Runs(String::from("c:\\code\\code.exe")), path),
        KillDecision::Skip
    );
    assert_eq!(KillError::Open.message(), "Failed to open process: ");
    assert_eq!(KillError::FileName.message(), "Failed to get process file name: ");
    assert_eq!(KillError::Terminate.message(), "Failed to kill process");
}

#[test]
fn an_attempt_to_terminate_reports_its_first_failure() {
    assert_eq!(first_failure(&Vec::new()), None);
    assert_eq!(first_failure(&vec![false, false]), None);
    assert_eq!(first_failure(&vec![false, true, true]), Some(1));
    assert_eq!(first_failure(&vec![true]), Some(0));
}

#[test]
fn a_handle_is_acquired_marked_and_closed() {
    assert_eq!(transition(HandleState::Acquired, HandleOp::Mark), Some(HandleState::Marked));
    assert_eq!(transition(HandleState::Marked, HandleOp::Close), Some(HandleState::Closed));
    assert_eq!(transition(HandleState::Acquired, HandleOp::Close), Some(HandleState::Closed));
    assert_eq!(transition(HandleState::Marked, HandleOp::Mark), None);
    assert_eq!(transition(HandleState::Closed, HandleOp::Mark), None);
    assert_eq!(transition(HandleState::Closed, HandleOp::Close), None);
}

#[test]
fn a_batch_marks_every_handle_before_it_closes_any() {
    let (mut batch, action) = DeletionBatch::new();
    assert_eq!(action, BatchAction::Collect);
    assert_eq!(batch.step(BatchEvent::Acquired), BatchAction::Collect);
    assert_eq!(batch.step(BatchEvent::Acquired), BatchAction::Collect);
    assert_eq!(batch.step(BatchEvent::Acquired), BatchAction::Collect);
    assert_eq!(batch.len(), 3);
    // nothing is marked while handles are still being acquired
    assert_eq!(batch.step(BatchEvent::Marked), BatchAction::Ignore);
    assert_eq!(batch.step(BatchEvent::Closed), BatchAction::Ignore);
    assert_eq!(batch.handle_state(0), HandleState::Acquired);

    assert_eq!(batch.step(BatchEvent::Collected), BatchAction::Mark(0));
    assert_eq!(batch.step(BatchEvent::Acquired), BatchAction::Ignore);
    assert_eq!(batch.step(BatchEvent::Collected), BatchAction::Ignore);
    assert_eq!(batch.len(), 3);
    // nothing is closed while a handle is unmarked
    assert_eq!(batch.step(BatchEvent::Closed), BatchAction::Ignore);
    assert_eq!(batch.step(BatchEvent::Marked), BatchAction::Mark(1));
    assert_eq!(batch.handle_state(0), HandleState::Marked);
    assert_eq!(batch.handle_state(1), HandleState::Acquired);
    assert_eq!(batch.step(BatchEvent::Closed), BatchAction::Ignore);
    assert_eq!(batch.step(BatchEvent::Marked), BatchAction::Mark(2));
    assert_eq!(batch.step(BatchEvent::Marked), BatchAction::Close(0));
    assert_eq!(batch.step(BatchEvent::Marked), BatchAction::Ignore);
    assert_eq!(batch.step(BatchEvent::Closed), BatchAction::Close(1));
    assert_eq!(batch.handle_state(0), HandleState::Closed);
    assert_eq!(batch.handle_state(1), HandleState::Marked);
    assert_eq!(batch.step(BatchEvent::Closed), BatchAction::Close(2));
    assert_eq!(batch.step(BatchEvent::Closed), BatchAction::Finish);
    assert_eq!(batch.step(BatchEvent::Closed), BatchAction::Ignore);
    assert_eq!(batch.handle_state(2), HandleState::Closed);
}

#[test]
fn a_batch_without_handles_has_nothing_to_do() {
    let (mut batch, _) = DeletionBatch::new();
    assert_eq!(batch.step(BatchEvent::Collected), BatchAction::Finish);
    assert_eq!(batch.len(), 0);
}

#[test]
fn message_boxes_have_their_styles_and_answers() {
    assert_eq!(message_box_style(MessageBoxType::Error), 0x1010);
    assert_eq!(message_box_style(MessageBoxType::RetryCancel), 0x1015);
    assert_eq!(message_box_result(1), MessageBoxResult::OK);
    assert_eq!(message_box_result(2), MessageBoxResult::Cancel);
    assert_eq!(message_box_result(3), MessageBoxResult::Abort);
    assert_eq!(message_box_result(4), MessageBoxResult::Retry);
    assert_eq!(message_box_result(5), MessageBoxResult::Ignore);
    assert_eq!(message_box_result(6), MessageBoxResult::Yes);
    assert_eq!(message_box_result(7), MessageBoxResult::No);
    assert_eq!(message_box_result(10), MessageBoxResult::TryAgain);
    assert_eq!(message_box_result(11), MessageBoxResult::Continue);
    assert_eq!(message_box_result(0), MessageBoxResult::Unknown);
    assert_eq!(message_box_result(8), MessageBoxResult::Unknown);
    assert_eq!(message_box_result(-1), MessageBoxResult::Unknown);
}

#[test]
fn messages_name_the_task_and_the_log() {
    assert_eq!(
        failure_message("C:\\Temp\\vscode-inno-updater-1.log"),
        "Failed to install Visual Studio Code update.\n\nUpdates may fail due to anti-virus software and/or runaway processes. Please try restarting your machine before attempting to update again.\n\nPlease read the log file for more information:\n\nC:\\Temp\\vscode-inno-updater-1.log"
    );
    assert_eq!(
        retry_message("closing a file handle", "Access is denied."),
        "There was an error while closing a file handle:\n\nAccess is denied.\n\nPlease verify there are no VS Code processes still executing."
    );
}
