//! The two words of a flat-combining lock: who may run, and who queued last.
//!
//! Each method is one atomic access to the words. Taking `&mut self` puts the
//! accesses of all threads into one order; what any order of them leads to is
//! the subject of [`super::protocol`].

use core::sync::atomic::Ordering;
use vstd::prelude::*;

verus! {

/// Status of a lock that nobody holds.
pub const UNLOCKED: u32 = 0;

/// Status of a lock that somebody holds.
pub const LOCKED: u32 = 1;

/// Status of a lock that a panic has disabled.
pub const POISONED: u32 = 2;

/// Error type for when a lock is poisoned.
#[derive(Debug, Clone, Copy, Default, PartialEq, Eq, Structural)]
pub struct LockPoisoned;

pub type LockResult<T> = Result<T, LockPoisoned>;

impl LockPoisoned {
    /// The message of the error.
    pub fn message(&self) -> (text: String)
        ensures
            text@ == "Lock is poisoned"@,
    {
        "Lock is poisoned".to_string()
    }
}

/// Error of a task that could not run since a panic has disabled the queue.
#[derive(Debug, Clone, Copy, Default, PartialEq, Eq, Structural)]
pub struct QueueError;

/// The identity of a queue node.
pub type NodeId = usize;

/// What to do after one attempt to acquire the lock.
#[derive(Debug, Clone, Copy, PartialEq, Eq, Structural)]
pub enum AcquireStep {
    /// The lock is held now.
    Acquired,
    /// Somebody else holds it: wait for the status to change, then try again.
    Spin,
    /// It is disabled for good.
    Poisoned,
}

/// Whether a load with this ordering is allowed.
pub open spec fn is_load_ordering(ordering: Ordering) -> bool {
    !(ordering is Release) && !(ordering is AcqRel)
}

/// What an attempt to swap the status from unlocked to locked means, given the
/// status that it found.
pub open spec fn acquire_step_for(found: u32) -> AcquireStep {
    if found == UNLOCKED {
        AcquireStep::Acquired
    } else if found == LOCKED {
        AcquireStep::Spin
    } else {
        AcquireStep::Poisoned
    }
}

/// Decides what follows one attempt to swap the status from unlocked to locked;
/// the attempt hands over the status that it found.
pub fn acquire_step(found: Result<u32, u32>) -> (step: AcquireStep)
    requires
        found matches Ok(status) ==> status == UNLOCKED,
        found matches Err(status) ==> status != UNLOCKED,
    ensures
        step == acquire_step_for(
            match found {
                Ok(status) => status,
                Err(status) => status,
            },
        ),
        step is Acquired <==> found is Ok,
        step is Spin <==> found == Err::<u32, u32>(LOCKED),
{
    match found {
        Ok(_) => AcquireStep::Acquired,
        Err(status) => if status == LOCKED {
            AcquireStep::Spin
        } else {
            AcquireStep::Poisoned
        },
    }
}

/// Decides whether a thread that waits for the status to change looks again.
pub fn keeps_spinning(found: u32) -> (again: bool)
    ensures
        again == (found == LOCKED),
{
    found == LOCKED
}

/// The words of the lock.
pub struct RawLock {
    status: u32,
    tail: Option<NodeId>,
}

impl RawLock {
    /// The status word.
    pub closed spec fn status(self) -> u32 {
        self.status
    }

    /// The node that joined the queue last, if the queue is open.
    pub closed spec fn tail(self) -> Option<NodeId> {
        self.tail
    }

    /// The status is one of the three words.
    #[verifier::type_invariant]
    spec fn inv(self) -> bool {
        self.status == UNLOCKED || self.status == LOCKED || self.status == POISONED
    }

    /// A lock that nobody holds, with no queue.
    pub fn new() -> (lock: Self)
        ensures
            lock.status() == UNLOCKED,
            lock.tail() is None,
    {
        RawLock { status: UNLOCKED, tail: None }
    }

    /// Disables the lock.
    pub fn poison(&mut self)
        ensures
            final(self).status() == POISONED,
            final(self).tail() == old(self).tail(),
    {
        self.status = POISONED;
    }

    /// Whether a queue is open.
    pub fn has_tail(&self, ordering: Ordering) -> (has: bool)
        requires
            is_load_ordering(ordering),
        ensures
            has == (self.tail() is Some),
    {
        self.tail.is_some()
    }

    /// Joins the queue as its last node and returns the node before, if the
    /// queue was open.
    pub fn swap_tail(&mut self, new_tail: NodeId) -> (previous: Option<NodeId>)
        ensures
            previous == old(self).tail(),
            final(self).tail() == Some(new_tail),
            final(self).status() == old(self).status(),
    {
        proof {
            use_type_invariant(&*self);
        }
        let previous = self.tail;
        self.tail = Some(new_tail);
        previous
    }

    /// Closes the queue if `expected` is its last node.
    pub fn try_close(&mut self, expected: NodeId) -> (closed: bool)
        ensures
            closed == (old(self).tail() == Some(expected)),
            closed ==> final(self).tail() is None,
            !closed ==> final(self).tail() == old(self).tail(),
            final(self).status() == old(self).status(),
    {
        proof {
            use_type_invariant(&*self);
        }
        if self.tail.is_some() && self.tail.unwrap() == expected {
            self.tail = None;
            true
        } else {
            false
        }
    }

    /// Swaps the status from unlocked to locked, and returns the status it found:
    /// as `Ok` if the swap was made.
    fn swap_status(&mut self) -> (found: Result<u32, u32>)
        ensures
            old(self).status() == UNLOCKED ==> found == Ok::<u32, u32>(UNLOCKED),
            old(self).status() != UNLOCKED ==> found == Err::<u32, u32>(old(self).status()),
            final(self).status() == (if old(self).status() == UNLOCKED {
                LOCKED
            } else {
                old(self).status()
            }),
            final(self).tail() == old(self).tail(),
    {
        let found: u32 = self.status;
        if found == UNLOCKED {
            self.status = LOCKED;
            Ok(found)
        } else {
            Err(found)
        }
    }

    /// Tries once to take the lock: `Ok(true)` if it is held now, `Ok(false)` if
    /// somebody else holds it, an error if it is disabled.
    pub fn try_acquire(&mut self) -> (acquired: LockResult<bool>)
        ensures
            acquired == (match acquire_step_for(old(self).status()) {
                AcquireStep::Acquired => Ok::<bool, LockPoisoned>(true),
                AcquireStep::Spin => Ok::<bool, LockPoisoned>(false),
                AcquireStep::Poisoned => Err::<bool, LockPoisoned>(LockPoisoned),
            }),
            final(self).status() == (if old(self).status() == UNLOCKED {
                LOCKED
            } else {
                old(self).status()
            }),
            final(self).tail() == old(self).tail(),
            acquired is Err <==> old(self).status() == POISONED,
            acquired == Ok::<bool, LockPoisoned>(true) <==> old(self).status() == UNLOCKED,
            acquired == Ok::<bool, LockPoisoned>(false) <==> old(self).status() == LOCKED,
    {
        proof {
            use_type_invariant(&*self);
        }
        match acquire_step(self.swap_status()) {
            AcquireStep::Acquired => Ok(true),
            AcquireStep::Spin => Ok(false),
            AcquireStep::Poisoned => Err(LockPoisoned),
        }
    }

    /// Takes the lock, or fails if it is disabled. A lock that somebody holds is
    /// waited for; that somebody cannot run during an exclusive borrow, so such a
    /// lock is left out.
    pub fn acquire(&mut self) -> (acquired: LockResult<()>)
        requires
            old(self).status() != LOCKED,
        ensures
            acquired is Ok <==> old(self).status() == UNLOCKED,
            acquired is Err <==> old(self).status() == POISONED,
            final(self).status() == (if old(self).status() == UNLOCKED {
                LOCKED
            } else {
                old(self).status()
            }),
            final(self).tail() == old(self).tail(),
    {
        match self.try_acquire() {
            Ok(_) => Ok(()),
            Err(poisoned) => Err(poisoned),
        }
    }

    /// Gives the lock back.
    pub fn release(&mut self)
        ensures
            final(self).status() == UNLOCKED,
            final(self).tail() == old(self).tail(),
    {
        self.status = UNLOCKED;
    }

    /// The last node of the queue.
    pub fn tail_for_test(&self) -> (tail: Option<NodeId>)
        ensures
            tail == self.tail(),
    {
        self.tail
    }

    /// Whether the lock is disabled.
    pub fn is_poisoned(&self, ordering: Ordering) -> (poisoned: bool)
        requires
            is_load_ordering(ordering),
        ensures
            poisoned == (self.status() == POISONED),
    {
        self.status == POISONED
    }
}

} // verus!
