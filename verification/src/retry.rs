//! The retry policy for operations that other programs can make fail for a
//! while: try again after a pause that grows with the square of the attempt,
//! and ask the user once the attempts are used up.
//!
//! The policy is a state machine. Its caller runs the operation, sleeps and
//! asks; the machine says which of these comes next.

use crate::gui::MessageBoxResult;
use vstd::prelude::*;

verus! {

/// How many attempts are made where the caller names no bound.
pub const DEFAULT_MAX_ATTEMPTS: u32 = 11;

/// The bound that stands for no bound: no run of attempts gets this far.
pub const UNBOUNDED: u32 = u32::MAX;

/// The pause after the first failed attempt, in milliseconds.
pub const BACKOFF_UNIT_MS: u64 = 50;

/// Where a retried operation stands.
#[derive(Clone, Copy, Debug, PartialEq, Eq, Structural)]
pub enum RetryState {
    /// The attempt with this number is to be made or under way.
    Trying { attempt: u32 },
    /// The attempt with this number has failed and was the last one allowed;
    /// the user is being asked.
    Asking { attempt: u32 },
    /// An attempt has succeeded.
    Succeeded,
    /// The attempt with this number has failed, and the user has not asked
    /// for more.
    Failed { attempt: u32 },
}

/// What has happened to a retried operation.
#[derive(Clone, Copy, Debug, PartialEq, Eq, Structural)]
pub enum RetryEvent {
    /// The attempt has succeeded.
    Success,
    /// The attempt has failed.
    Failure,
    /// The user has answered.
    Answer(MessageBoxResult),
}

/// What the caller of the policy does next.
#[derive(Clone, Copy, Debug, PartialEq, Eq, Structural)]
pub enum RetryAction {
    /// Sleep for so many milliseconds, then make the attempt with this
    /// number.
    Run { attempt: u32, after_millis: u64 },
    /// Ask the user whether to retry or to cancel.
    Ask,
    /// Return the result of the attempt that succeeded.
    Return,
    /// Return the failure of the last attempt.
    GiveUp,
    /// Nothing: the event does not belong to the state.
    Ignore,
}

/// The pause after the failed attempt with the number `attempt`, in
/// milliseconds: 50 times its square.
pub open spec fn backoff(attempt: nat) -> nat {
    attempt * attempt * 50
}

/// The pause as the machine's `u64` can say it: the largest `u64` stands
/// for every longer one.
pub open spec fn backoff_u64(attempt: u32) -> u64 {
    if backoff(attempt as nat) > u64::MAX {
        u64::MAX
    } else {
        backoff(attempt as nat) as u64
    }
}

/// The bound that `max_attempts` names, or the default.
pub open spec fn bound_of(max_attempts: Option<u32>) -> u32 {
    match max_attempts {
        Some(max) => max,
        None => DEFAULT_MAX_ATTEMPTS,
    }
}

/// The state that follows `state` on `event` under the bound `max`, and
/// what the caller does next.
pub open spec fn next(max: u32, state: RetryState, event: RetryEvent) -> (RetryState, RetryAction) {
    match (state, event) {
        (RetryState::Trying { attempt }, RetryEvent::Success) => (
            RetryState::Succeeded,
            RetryAction::Return,
        ),
        (RetryState::Trying { attempt }, RetryEvent::Failure) => if attempt >= max {
            (RetryState::Asking { attempt }, RetryAction::Ask)
        } else {
            (
                RetryState::Trying { attempt: (attempt + 1) as u32 },
                RetryAction::Run {
                    attempt: (attempt + 1) as u32,
                    after_millis: backoff_u64(attempt),
                },
            )
        },
        (RetryState::Asking { attempt }, RetryEvent::Answer(MessageBoxResult::Retry)) => (
            RetryState::Trying { attempt: 1 },
            RetryAction::Run { attempt: 1, after_millis: 0 },
        ),
        (RetryState::Asking { attempt }, RetryEvent::Answer(_)) => (
            RetryState::Failed { attempt },
            RetryAction::GiveUp,
        ),
        _ => (state, RetryAction::Ignore),
    }
}

/// The state after `failures` failed attempts in a row, from the start.
pub open spec fn after_failures(max: u32, failures: nat) -> RetryState
    decreases failures,
{
    if failures == 0 {
        RetryState::Trying { attempt: 1 }
    } else {
        next(max, after_failures(max, (failures - 1) as nat), RetryEvent::Failure).0
    }
}

/// The pauses before the attempts 2 to `attempts`, added up.
pub open spec fn total_backoff(attempts: nat) -> nat
    decreases attempts,
{
    if attempts <= 1 {
        0
    } else {
        total_backoff((attempts - 1) as nat) + backoff((attempts - 1) as nat)
    }
}

/// The pause after the failed attempt with the number `attempt`.
pub fn backoff_millis(attempt: u32) -> (millis: u64)
    ensures
        millis == backoff_u64(attempt),
{
    let a: u128 = attempt as u128;
    assert(a * a <= 0xFFFF_FFFF * 0xFFFF_FFFF) by (nonlinear_arith)
        requires
            a <= 0xFFFF_FFFF,
    ;
    let wide: u128 = a * a * 50;
    assert(wide == backoff(attempt as nat)) by (nonlinear_arith)
        requires
            wide == a * a * 50,
            a == attempt as nat,
    ;
    if wide > u64::MAX as u128 {
        u64::MAX
    } else {
        wide as u64
    }
}

/// The retry policy for one operation.
pub struct Retry {
    max_attempts: u32,
    state: RetryState,
}

impl Retry {
    /// The bound on the attempts of one round.
    pub closed spec fn max(&self) -> u32 {
        self.max_attempts
    }

    /// Where the operation stands.
    pub closed spec fn state_of(&self) -> RetryState {
        self.state
    }

    /// A policy that allows `max_attempts` attempts, or the default of 11,
    /// before it asks the user. The first attempt is to be made at once.
    pub fn new(max_attempts: Option<u32>) -> (r: (Retry, RetryAction))
        ensures
            r.0.max() == bound_of(max_attempts),
            r.0.state_of() == (RetryState::Trying { attempt: 1 }),
            r.1 == (RetryAction::Run { attempt: 1, after_millis: 0 }),
    {
        let max = match max_attempts {
            Some(max) => max,
            None => DEFAULT_MAX_ATTEMPTS,
        };
        (
            Retry { max_attempts: max, state: RetryState::Trying { attempt: 1 } },
            RetryAction::Run { attempt: 1, after_millis: 0 },
        )
    }

    /// A policy without a cap on the attempts: it goes on until an attempt
    /// succeeds.
    pub fn unbounded() -> (r: (Retry, RetryAction))
        ensures
            r.0.max() == UNBOUNDED,
            r.0.state_of() == (RetryState::Trying { attempt: 1 }),
            r.1 == (RetryAction::Run { attempt: 1, after_millis: 0 }),
    {
        Retry::new(Some(UNBOUNDED))
    }

    /// Where the operation stands.
    pub fn state(&self) -> (state: RetryState)
        ensures
            state == self.state_of(),
    {
        self.state
    }

    /// The bound on the attempts of one round.
    pub fn max_attempts(&self) -> (max: u32)
        ensures
            max == self.max(),
    {
        self.max_attempts
    }

    /// Takes note of `event` and says what the caller does next.
    pub fn step(&mut self, event: RetryEvent) -> (action: RetryAction)
        ensures
            final(self).max() == old(self).max(),
            (final(self).state_of(), action) == next(old(self).max(), old(self).state_of(), event),
    {
        match (self.state, event) {
            (RetryState::Trying { attempt }, RetryEvent::Success) => {
                self.state = RetryState::Succeeded;
                RetryAction::Return
            },
            (RetryState::Trying { attempt }, RetryEvent::Failure) => {
                if attempt >= self.max_attempts {
                    self.state = RetryState::Asking { attempt };
                    RetryAction::Ask
                } else {
                    let after_millis = backoff_millis(attempt);
                    self.state = RetryState::Trying { attempt: attempt + 1 };
                    RetryAction::Run { attempt: attempt + 1, after_millis }
                }
            },
            (RetryState::Asking { attempt }, RetryEvent::Answer(answer)) => {
                match answer {
                    MessageBoxResult::Retry => {
                        self.state = RetryState::Trying { attempt: 1 };
                        RetryAction::Run { attempt: 1, after_millis: 0 }
                    },
                    _ => {
                        self.state = RetryState::Failed { attempt };
                        RetryAction::GiveUp
                    },
                }
            },
            _ => RetryAction::Ignore,
        }
    }
}

/// As long as attempts are left, each failure leads to the next attempt,
/// after the pause that belongs to the one that failed.
pub proof fn lemma_failures_lead_on(max: u32, failures: nat)
    requires
        failures < max,
    ensures
        after_failures(max, failures) == (RetryState::Trying { attempt: (failures + 1) as u32 }),
        failures > 0 ==> next(
            max,
            after_failures(max, (failures - 1) as nat),
            RetryEvent::Failure,
        ).1 == (RetryAction::Run {
            attempt: (failures + 1) as u32,
            after_millis: backoff_u64(failures as u32),
        }),
    decreases failures,
{
    if failures > 0 {
        lemma_failures_lead_on(max, (failures - 1) as nat);
    }
}

/// An operation that fails on each attempt before the one with the number
/// `n` and succeeds on that one is reported as a success, where `n` is
/// within the bound.
pub proof fn lemma_success_within_bound(max: u32, n: nat)
    requires
        1 <= n <= max,
    ensures
        next(max, after_failures(max, (n - 1) as nat), RetryEvent::Success) == (
            RetryState::Succeeded,
            RetryAction::Return,
        ),
{
    lemma_failures_lead_on(max, (n - 1) as nat);
}

/// An operation that fails on every attempt up to the bound leaves the
/// choice to the user, and any answer but a retry returns the failure of
/// the attempt at the bound.
pub proof fn lemma_failure_at_bound(max: u32, answer: MessageBoxResult)
    requires
        max >= 1,
        answer != MessageBoxResult::Retry,
    ensures
        after_failures(max, max as nat) == (RetryState::Asking { attempt: max }),
        next(max, after_failures(max, max as nat), RetryEvent::Answer(answer)) == (
            RetryState::Failed { attempt: max },
            RetryAction::GiveUp,
        ),
{
    lemma_failures_lead_on(max, (max - 1) as nat);
}

/// With the default bound the pauses of one round add up to 19.25 seconds.
pub proof fn lemma_default_total_backoff()
    ensures
        total_backoff(DEFAULT_MAX_ATTEMPTS as nat) == 19250,
{
    reveal_with_fuel(total_backoff, 12);
    assert(backoff(1) == 50 && backoff(2) == 200 && backoff(3) == 450 && backoff(4) == 800
        && backoff(5) == 1250) by (nonlinear_arith);
    assert(backoff(6) == 1800 && backoff(7) == 2450 && backoff(8) == 3200 && backoff(9) == 4050
        && backoff(10) == 5000) by (nonlinear_arith);
}

} // verus!
