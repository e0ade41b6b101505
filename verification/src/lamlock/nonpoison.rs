//! Flat-combining locks that remain usable after a task panics.

use super::action::{memory_of, perform, Action, Event};
use super::attach::{Attach, Outcome, Phase};
use super::bomb::Stage;
use super::held::Held;
use super::node::Node;
use super::rawlock::{QueueError, RawLock, LOCKED, POISONED, UNLOCKED};
use super::serial::Call;
use core::sync::atomic::Ordering;
use vstd::prelude::*;

verus! {

/// Whether a closure may be called on this data.
pub open spec fn accepts<T, R, F: FnOnce(&mut T) -> R>(f: F, data: T) -> bool {
    forall|d: &mut T| *d == data ==> call_requires(f, (d,))
}

/// Calls a closure on the data.
pub fn apply<T, R, F: FnOnce(&mut T) -> R>(f: F, data: &mut T) -> (result: R)
    requires
        accepts(f, *old(data)),
    ensures
        exists|d: &mut T| #[trigger]
            call_ensures(f, (d,), result) && *d == *old(data) && *final(d) == *final(data),
{
    f(data)
}

/// A task in the queue: a closure, and its result once a combiner has run it.
pub struct CombinedNode<F, R> {
    closure: Option<F>,
    result: Option<R>,
}

impl<F, R> CombinedNode<F, R> {
    /// The closure, until it is run.
    pub closed spec fn closure(self) -> Option<F> {
        self.closure
    }

    /// The result, once it is there.
    pub closed spec fn result(self) -> Option<R> {
        self.result
    }

    /// A task that has not been run.
    pub fn new(f: F) -> (node: Self)
        ensures
            node.closure() == Some(f),
            node.result() is None,
    {
        CombinedNode { closure: Some(f), result: None }
    }

    /// Runs the task, which is used up by it.
    pub fn execute<T>(&mut self, data: &mut T) where F: FnOnce(&mut T) -> R
        requires
            old(self).closure() matches Some(f) && accepts(f, *old(data)),
        ensures
            final(self).closure() is None,
            exists|d: &mut T, result: R| #[trigger]
                call_ensures(old(self).closure()->0, (d,), result) && *d == *old(data) && *final(d)
                    == *final(data) && final(self).result() == Some(result),
    {
        if let Some(f) = self.closure.take() {
            self.result = Some(apply(f, data));
        }
    }

    /// Hands the result out.
    pub fn take_result(&mut self) -> (result: Option<R>)
        ensures
            result == old(self).result(),
            final(self).result() is None,
            final(self).closure() == old(self).closure(),
    {
        self.result.take()
    }
}

impl<F, R, P> CombinedNode<F, Result<R, P>> {
    /// Hands the payload out with which the task has panicked, if it has.
    pub fn take_panic(&mut self) -> (payload: Option<P>)
        ensures
            payload == (match old(self).result() {
                Some(Err(payload)) => Some(payload),
                _ => None::<P>,
            }),
            final(self).closure() == old(self).closure(),
            final(self).result() == (if payload is Some {
                None
            } else {
                old(self).result()
            }),
    {
        match self.result.take() {
            Some(Err(payload)) => Some(payload),
            result => {
                self.result = result;
                None
            },
        }
    }
}

/// A nonpoisoning flat-combining lock.
pub struct Lock<T> {
    inner: Held<T>,
}

impl<T> Lock<T> {
    /// The words of the lock.
    pub closed spec fn raw(self) -> RawLock {
        self.inner.raw()
    }

    /// The data behind the lock.
    pub closed spec fn data(self) -> T {
        self.inner.data()
    }

    /// The calls of closures on the data so far. Each says whether the lock was held when it
    /// was made.
    pub closed spec fn calls(self) -> Seq<Call<T>> {
        self.inner.calls()
    }

    /// Whether an unwinding combiner has disabled the lock.
    pub open spec fn is_disabled(self) -> bool {
        self.raw().status() == POISONED
    }

    /// Whether no other thread is in the lock: nobody holds it, and no queue is
    /// open.
    pub open spec fn is_free(self) -> bool {
        &&& self.raw().status() == UNLOCKED || self.is_disabled()
        &&& self.raw().tail() is None
    }

    /// Create a new lock with the given data.
    pub fn new(data: T) -> (lock: Self)
        ensures
            lock.data() == data,
            lock.is_free(),
            !lock.is_disabled(),
            lock.calls().len() == 0,
    {
        Lock { inner: Held::new(data) }
    }

    /// Get mutable access to the data through an exclusive borrow.
    pub fn get_mut(&mut self) -> (data: &mut T)
        ensures
            *data == old(self).data(),
            final(self).data() == *final(data),
            final(self).raw() == old(self).raw(),
            final(self).calls() == old(self).calls(),
    {
        self.inner.get_mut()
    }

    /// Runs a closure on the data, and returns what it returns.
    ///
    /// The contract speaks of closures that return. Nothing here acts on an unwind: a closure
    /// that panics out of this call leaves the lock taken. A closure that catches its panics
    /// and returns the payload, as an error of its result, has the lock given back like any
    /// other.
    pub fn run<F, R>(&mut self, f: F) -> (result: R) where F: FnOnce(&mut T) -> R
        requires
            old(self).is_free(),
            !old(self).is_disabled(),
            accepts(f, old(self).data()),
        ensures
            exists|d: &mut T| #[trigger]
                call_ensures(f, (d,), result) && *d == old(self).data() && *final(d)
                    == final(self).data(),
            final(self).is_free(),
            !final(self).is_disabled(),
            final(self).calls() == old(self).calls().push(
                Call { before: old(self).data(), after: final(self).data(), guarded: true },
            ),
    {
        match self.try_run(f) {
            Ok(result) => result,
            Err(_) => vstd::pervasive::unreached(),
        }
    }

    /// Runs a closure on the data, unless the lock is disabled. A lock that
    /// nobody else is using is taken directly; otherwise the closure goes through
    /// the queue. As for panics, see [`Lock::run`].
    pub fn try_run<F, R>(&mut self, f: F) -> (outcome: Result<R, QueueError>) where
        F: FnOnce(&mut T) -> R,

        requires
            old(self).is_free(),
            old(self).is_disabled() || accepts(f, old(self).data()),
        ensures
            outcome is Err <==> old(self).is_disabled(),
            outcome is Err ==> final(self).data() == old(self).data(),
            outcome is Ok ==> exists|d: &mut T, result: R| #[trigger]
                call_ensures(f, (d,), result) && *d == old(self).data() && *final(d)
                    == final(self).data() && outcome == Ok::<R, QueueError>(result),
            final(self).is_free(),
            final(self).is_disabled() == old(self).is_disabled(),
            final(self).calls() == (if old(self).is_disabled() {
                old(self).calls()
            } else {
                old(self).calls().push(
                    Call { before: old(self).data(), after: final(self).data(), guarded: true },
                )
            }),
    {
        if !self.inner.get_raw().has_tail(Ordering::Relaxed) {
            match self.inner.raw_mut().try_acquire() {
                Ok(true) => {
                    let result = self.inner.call(f);
                    self.inner.raw_mut().release();
                    return Ok(result);
                },
                Ok(false) => {},
                Err(_) => {
                    return Err(QueueError);
                },
            }
        }
        self.run_slowly(f)
    }

    /// Runs a closure on the data by way of the queue, unless the lock is disabled. As for
    /// panics, see [`Lock::run`].
    pub fn run_slowly<F, R>(&mut self, f: F) -> (outcome: Result<R, QueueError>) where
        F: FnOnce(&mut T) -> R,

        requires
            old(self).is_free(),
            old(self).is_disabled() || accepts(f, old(self).data()),
        ensures
            outcome is Err <==> old(self).is_disabled(),
            outcome is Err ==> final(self).data() == old(self).data(),
            outcome is Ok ==> exists|d: &mut T, result: R| #[trigger]
                call_ensures(f, (d,), result) && *d == old(self).data() && *final(d)
                    == final(self).data() && outcome == Ok::<R, QueueError>(result),
            final(self).is_free(),
            final(self).is_disabled() == old(self).is_disabled(),
            final(self).calls() == (if old(self).is_disabled() {
                old(self).calls()
            } else {
                old(self).calls().push(
                    Call { before: old(self).data(), after: final(self).data(), guarded: true },
                )
            }),
    {
        let ghost before = *self;
        let mut nodes: Vec<Node> = Vec::new();
        nodes.push(Node::new());
        let mut task = CombinedNode::new(f);
        let mut attach = Attach::new(0);
        loop
            invariant
                before.is_free(),
                before.is_disabled() || accepts(f, before.data()),
                attach.node() == 0,
                nodes@.len() == 1,
                is_alone_at(attach.phase(), nodes@[0], self.raw(), before.is_disabled()),
                if is_run_by(attach.phase()) {
                    &&& task.closure() is None
                    &&& exists|d: &mut T, result: R| #[trigger]
                        call_ensures(f, (d,), result) && *d == before.data() && *final(d)
                            == self.data() && task.result() == Some(result)
                    &&& self.calls() == before.calls().push(
                        Call { before: before.data(), after: self.data(), guarded: true },
                    )
                } else {
                    &&& task.closure() == Some(f)
                    &&& self.data() == before.data()
                    &&& self.calls() == before.calls()
                },
            ensures
                attach.phase() is Finished,
            decreases phase_rank(attach.phase()),
        {
            match attach.action() {
                None => {
                    break ;
                },
                Some(action) => {
                    let ghost memory = memory_of(self.raw(), nodes@);
                    let event = match action {
                        Action::Execute { .. } => {
                            self.inner.execute(&mut task);
                            Event::Returned
                        },
                        _ => perform(self.inner.raw_mut(), &mut nodes, action),
                    };
                    assert(memory.nodes[0] == nodes@[0]@ || event is Stored);
                    assert(memory_of(self.raw(), nodes@).nodes[0] == nodes@[0]@);
                    attach.observe(event);
                },
            }
        }
        match attach.outcome() {
            Some(Outcome::Completed) => match task.take_result() {
                Some(result) => Ok(result),
                None => vstd::pervasive::unreached(),
            },
            _ => Err(QueueError),
        }
    }
}

/// Whether a lone requester has run its task when it is here.
spec fn is_run_by(phase: Phase) -> bool {
    ||| phase is Inspecting
    ||| phase is Closing
    ||| phase is Releasing
    ||| phase is Retiring
    ||| phase == (Phase::Finished { outcome: Outcome::Completed })
}

/// How the words of a lock and the one node in its queue are when a lone requester
/// is here.
spec fn is_alone_at(phase: Phase, node: Node, raw: RawLock, disabled: bool) -> bool {
    &&& node@.next is None
    &&& match phase {
        Phase::Joining => raw.status() == (if disabled {
            POISONED
        } else {
            UNLOCKED
        }) && raw.tail() is None,
        Phase::Acquiring => raw.status() == (if disabled {
            POISONED
        } else {
            UNLOCKED
        }) && raw.tail() == Some(0usize),
        Phase::Executing { cursor } => cursor == 0 && !disabled && raw.status() == LOCKED
            && raw.tail() == Some(0usize),
        Phase::Inspecting { cursor } => cursor == 0 && !disabled && raw.status() == LOCKED
            && raw.tail() == Some(0usize),
        Phase::Closing { cursor } => cursor == 0 && !disabled && raw.status() == LOCKED
            && raw.tail() == Some(0usize),
        Phase::Releasing { cursor } => cursor == 0 && !disabled && raw.status() == LOCKED
            && raw.tail() is None,
        Phase::Retiring { cursor } => cursor == 0 && !disabled && raw.status() == UNLOCKED
            && raw.tail() is None,
        Phase::Detonating { fuse, unwound } => {
            &&& fuse.atom == 0 && !unwound && disabled && raw.status() == POISONED
            &&& match fuse.stage {
                Stage::Igniting => raw.tail() == Some(0usize),
                Stage::Sweeping => raw.tail() == Some(0usize),
                Stage::Sealing => raw.tail() == Some(0usize),
                Stage::WakingLast => raw.tail() is None,
                _ => false,
            }
        },
        Phase::Finished { outcome } => match outcome {
            Outcome::Completed => !disabled && raw.status() == UNLOCKED && raw.tail() is None,
            Outcome::Cancelled => disabled && raw.status() == POISONED && raw.tail() is None,
            Outcome::Unwound => false,
        },
        _ => false,
    }
}

/// How many actions at most a lone requester still has before it.
spec fn phase_rank(phase: Phase) -> int {
    match phase {
        Phase::Joining => 8,
        Phase::Acquiring => 7,
        Phase::Executing { .. } => 6,
        Phase::Inspecting { .. } => 5,
        Phase::Closing { .. } => 4,
        Phase::Releasing { .. } => 3,
        Phase::Retiring { .. } => 2,
        Phase::Detonating { fuse, .. } => match fuse.stage {
            Stage::Igniting => 5,
            Stage::Sweeping => 4,
            Stage::Sealing => 3,
            _ => 2,
        },
        _ => 1,
    }
}

} // verus!
