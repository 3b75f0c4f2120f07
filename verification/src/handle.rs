//! Deleting files through handles that are opened for deletion only: a
//! handle is acquired, then marked, then closed, and the file is gone once
//! its marked handle is closed.
//!
//! A batch of deletions acquires every handle before it marks any, and
//! marks every handle before it closes any, so that a failure on the way
//! leaves every file in place. The batch is a state machine over the
//! handles in the order in which they were acquired; its caller holds the
//! handles and does what the machine asks.

use vstd::prelude::*;

verus! {

/// How often the acquisition of one handle is attempted before the user is
/// asked: other programs may hold a file for a while.
pub const ACQUIRE_MAX_ATTEMPTS: u32 = 16;

/// Where one handle stands.
#[derive(Clone, Copy, Debug, PartialEq, Eq, Structural)]
pub enum HandleState {
    /// The file is open for deletion and nobody else can open it.
    Acquired,
    /// The file will be deleted once the handle is closed.
    Marked,
    /// The handle is closed.
    Closed,
}

/// What can be done with a handle.
#[derive(Clone, Copy, Debug, PartialEq, Eq, Structural)]
pub enum HandleOp {
    /// Mark the file for deletion.
    Mark,
    /// Close the handle.
    Close,
}

/// The state of a handle after `op`, or `None` where the handle does not
/// allow it. Closing a handle that was never marked gives the file up
/// without deleting it.
pub open spec fn handle_after(state: HandleState, op: HandleOp) -> Option<HandleState> {
    match (state, op) {
        (HandleState::Acquired, HandleOp::Mark) => Some(HandleState::Marked),
        (HandleState::Acquired, HandleOp::Close) => Some(HandleState::Closed),
        (HandleState::Marked, HandleOp::Close) => Some(HandleState::Closed),
        _ => None,
    }
}

/// The state of a handle after `op`, or `None` where the handle does not
/// allow it.
pub fn transition(state: HandleState, op: HandleOp) -> (r: Option<HandleState>)
    ensures
        r == handle_after(state, op),
{
    match (state, op) {
        (HandleState::Acquired, HandleOp::Mark) => Some(HandleState::Marked),
        (HandleState::Acquired, HandleOp::Close) => Some(HandleState::Closed),
        (HandleState::Marked, HandleOp::Close) => Some(HandleState::Closed),
        _ => None,
    }
}

/// What has happened to a batch.
#[derive(Clone, Copy, Debug, PartialEq, Eq, Structural)]
pub enum BatchEvent {
    /// One more handle has been acquired.
    Acquired,
    /// Every handle that the batch is to hold has been acquired.
    Collected,
    /// The handle that was to be marked has been marked.
    Marked,
    /// The handle that was to be closed has been closed.
    Closed,
}

/// What the caller of a batch does next.
#[derive(Clone, Copy, Debug, PartialEq, Eq, Structural)]
pub enum BatchAction {
    /// Go on acquiring handles.
    Collect,
    /// Mark the handle with this index.
    Mark(usize),
    /// Close the handle with this index.
    Close(usize),
    /// Nothing is left to do.
    Finish,
    /// Nothing: the event does not belong to the state.
    Ignore,
}

/// What a batch holds: how many handles were acquired, how many of them,
/// from the first on, are marked, how many of them are closed, and whether
/// all were acquired.
pub ghost struct BatchView {
    pub len: nat,
    pub marked: nat,
    pub closed: nat,
    pub collected: bool,
}

impl BatchView {
    /// The order of the protocol: nothing is marked before all handles are
    /// acquired, and nothing is closed before all handles are marked.
    pub open spec fn wf(self) -> bool {
        &&& self.closed <= self.marked <= self.len
        &&& self.marked > 0 ==> self.collected
        &&& self.closed > 0 ==> self.marked == self.len
    }

    /// Where the handle with the index `i` stands.
    pub open spec fn handle(self, i: nat) -> HandleState
        recommends
            i < self.len,
    {
        if i < self.closed {
            HandleState::Closed
        } else if i < self.marked {
            HandleState::Marked
        } else {
            HandleState::Acquired
        }
    }

    /// What is to be done next once all handles are acquired.
    pub open spec fn pending(self) -> BatchAction {
        if self.marked < self.len {
            BatchAction::Mark(self.marked as usize)
        } else if self.closed < self.len {
            BatchAction::Close(self.closed as usize)
        } else {
            BatchAction::Finish
        }
    }
}

/// The batch that follows `batch` on `event`, and what the caller does
/// next.
pub open spec fn next(batch: BatchView, event: BatchEvent) -> (BatchView, BatchAction) {
    match event {
        BatchEvent::Acquired => if !batch.collected && batch.len < usize::MAX {
            (BatchView { len: batch.len + 1, ..batch }, BatchAction::Collect)
        } else {
            (batch, BatchAction::Ignore)
        },
        BatchEvent::Collected => if !batch.collected {
            let after = BatchView { collected: true, ..batch };
            (after, after.pending())
        } else {
            (batch, BatchAction::Ignore)
        },
        BatchEvent::Marked => if batch.collected && batch.marked < batch.len {
            let after = BatchView { marked: batch.marked + 1, ..batch };
            (after, after.pending())
        } else {
            (batch, BatchAction::Ignore)
        },
        BatchEvent::Closed => if batch.collected && batch.marked == batch.len && batch.closed
            < batch.len {
            let after = BatchView { closed: batch.closed + 1, ..batch };
            (after, after.pending())
        } else {
            (batch, BatchAction::Ignore)
        },
    }
}

/// A batch of files to delete.
pub struct DeletionBatch {
    len: usize,
    marked: usize,
    closed: usize,
    collected: bool,
}

impl View for DeletionBatch {
    type V = BatchView;

    closed spec fn view(&self) -> BatchView {
        BatchView {
            len: self.len as nat,
            marked: self.marked as nat,
            closed: self.closed as nat,
            collected: self.collected,
        }
    }
}

impl DeletionBatch {
    #[verifier::type_invariant]
    spec fn ordered(&self) -> bool {
        self@.wf()
    }

    /// A batch without handles: the caller acquires first.
    pub fn new() -> (r: (DeletionBatch, BatchAction))
        ensures
            r.0@ == (BatchView { len: 0, marked: 0, closed: 0, collected: false }),
            r.0@.wf(),
            r.1 == BatchAction::Collect,
    {
        (DeletionBatch { len: 0, marked: 0, closed: 0, collected: false }, BatchAction::Collect)
    }

    /// How many handles were acquired.
    pub fn len(&self) -> (n: usize)
        ensures
            n == self@.len,
    {
        self.len
    }

    /// Where the handle with the index `i` stands.
    pub fn handle_state(&self, i: usize) -> (state: HandleState)
        ensures
            state == self@.handle(i as nat),
    {
        if i < self.closed {
            HandleState::Closed
        } else if i < self.marked {
            HandleState::Marked
        } else {
            HandleState::Acquired
        }
    }

    fn pending(&self) -> (action: BatchAction)
        ensures
            action == self@.pending(),
    {
        if self.marked < self.len {
            BatchAction::Mark(self.marked)
        } else if self.closed < self.len {
            BatchAction::Close(self.closed)
        } else {
            BatchAction::Finish
        }
    }

    /// Takes note of `event` and says what the caller does next. The order
    /// of the protocol holds after every step.
    pub fn step(&mut self, event: BatchEvent) -> (action: BatchAction)
        ensures
            old(self)@.wf(),
            final(self)@.wf(),
            (final(self)@, action) == next(old(self)@, event),
    {
        proof {
            use_type_invariant(&*self);
        }
        match event {
            BatchEvent::Acquired => {
                if !self.collected && self.len < usize::MAX {
                    self.len = self.len + 1;
                    BatchAction::Collect
                } else {
                    BatchAction::Ignore
                }
            },
            BatchEvent::Collected => {
                if !self.collected {
                    self.collected = true;
                    self.pending()
                } else {
                    BatchAction::Ignore
                }
            },
            BatchEvent::Marked => {
                if self.collected && self.marked < self.len {
                    self.marked = self.marked + 1;
                    self.pending()
                } else {
                    BatchAction::Ignore
                }
            },
            BatchEvent::Closed => {
                if self.collected && self.marked == self.len && self.closed < self.len {
                    self.closed = self.closed + 1;
                    self.pending()
                } else {
                    BatchAction::Ignore
                }
            },
        }
    }
}

/// While a batch keeps the order of the protocol, a closed handle means
/// that no handle is left unmarked, and a marked handle means that no
/// handle is left to acquire: whatever fails before the first handle is
/// closed, no file has been deleted.
pub proof fn lemma_nothing_deleted_early(batch: BatchView, i: nat, j: nat)
    requires
        batch.wf(),
        i < batch.len,
        j < batch.len,
    ensures
        batch.handle(i) == HandleState::Closed ==> batch.handle(j) != HandleState::Acquired,
        batch.handle(i) != HandleState::Acquired ==> batch.collected,
{
}

/// Every step keeps the order of the protocol.
pub proof fn lemma_step_keeps_order(batch: BatchView, event: BatchEvent)
    requires
        batch.wf(),
    ensures
        next(batch, event).0.wf(),
{
}

} // verus!
