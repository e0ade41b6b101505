//! Flat-combining locks that reject ordinary tasks after a task panics.

use super::attach::{Outcome, Phase};
use super::crowd::{
    data_is_that_of_a_serial_run, ending_of, results_are_those_of_a_serial_run, Crowd, Ending,
};
use super::marked::Marked;
use super::nonpoison;
use super::nonpoison::accepts;
use super::rawlock::{LockPoisoned, LockResult, NodeId};
use super::serial::{are_guarded, leads_to, Call, Run};
use vstd::prelude::*;

verus! {

/// Data with a mark that a task has left it in the middle of its work.
pub struct Guarded<T> {
    inner: Marked<T>,
}

/// Whether a run of an ordinary task can have turned `before` into `after` with this
/// outcome: marked data rejects the task and stays as it is; other data is marked
/// afterwards exactly if the task has panicked.
pub open spec fn is_guarded_run<T, R, P>(
    before: Guarded<T>,
    after: Guarded<T>,
    outcome: Result<LockResult<R>, P>,
) -> bool {
    if before.poisoned() {
        &&& outcome == Ok::<LockResult<R>, P>(Err(LockPoisoned))
        &&& after.poisoned()
        &&& after.data() == before.data()
    } else {
        &&& after.poisoned() == (outcome is Err)
        &&& outcome matches Ok(result) ==> result is Ok
    }
}

/// Whether the calls of closures on the data between `before` and `after` are those of a run
/// of an ordinary task: none on marked data, and one otherwise, with the mark set for it.
pub open spec fn is_marked_call<T>(before: Guarded<T>, after: Guarded<T>) -> bool {
    after.calls() == (if before.poisoned() {
        before.calls()
    } else {
        before.calls().push(
            Call { before: before.data(), after: after.data(), guarded: true },
        )
    })
}

/// Whether the calls of closures on the data between `before` and `after` are those of a
/// recovery: one on marked data, whose mark is still set for it, and none otherwise.
pub open spec fn is_recovery_call<T>(before: Guarded<T>, after: Guarded<T>) -> bool {
    after.calls() == (if before.poisoned() {
        before.calls().push(
            Call { before: before.data(), after: after.data(), guarded: true },
        )
    } else {
        before.calls()
    })
}

/// Whether the mark was taken off between `before` and `after`.
pub open spec fn is_recovery<T>(before: Guarded<T>, after: Guarded<T>) -> bool {
    before.poisoned() && !after.poisoned()
}

impl<T> Guarded<T> {
    /// The data.
    pub closed spec fn data(self) -> T {
        self.inner.data()
    }

    /// Whether the data is marked.
    pub closed spec fn poisoned(self) -> bool {
        self.inner.mark()
    }

    /// The calls of closures on the data so far. Each says whether the data was marked when
    /// it was made.
    pub closed spec fn calls(self) -> Seq<Call<T>> {
        self.inner.calls()
    }

    /// Data that is not marked.
    pub fn new(data: T) -> (guarded: Self)
        ensures
            guarded.data() == data,
            !guarded.poisoned(),
            guarded.calls().len() == 0,
    {
        Guarded { inner: Marked::new(data) }
    }

    /// Mutable access to the data; the mark stays.
    pub fn get_mut(&mut self) -> (data: &mut T)
        ensures
            *data == old(self).data(),
            final(self).data() == *final(data),
            final(self).poisoned() == old(self).poisoned(),
            final(self).calls() == old(self).calls(),
    {
        self.inner.get_mut()
    }

    /// Whether the data is marked.
    pub fn is_poisoned(&self) -> (poisoned: bool)
        ensures
            poisoned == self.poisoned(),
    {
        self.inner.is_set()
    }

    /// Marks the data. Fails if it is marked already.
    pub fn poison(&mut self) -> (outcome: LockResult<()>)
        ensures
            outcome is Err <==> old(self).poisoned(),
            final(self).poisoned(),
            final(self).data() == old(self).data(),
            final(self).calls() == old(self).calls(),
    {
        if self.inner.is_set() {
            return Err(LockPoisoned);
        }
        self.inner.set();
        Ok(())
    }

    /// Runs a closure on the data, unless it is marked. The mark is set when the closure is
    /// called and taken off once it has returned, so a closure that unwinds leaves it set.
    pub fn run<F, R>(&mut self, f: F) -> (outcome: LockResult<R>) where F: FnOnce(&mut T) -> R
        requires
            old(self).poisoned() || accepts(f, old(self).data()),
        ensures
            outcome is Err <==> old(self).poisoned(),
            final(self).poisoned() == old(self).poisoned(),
            outcome is Err ==> final(self).data() == old(self).data(),
            outcome is Ok ==> exists|d: &mut T, result: R| #[trigger]
                call_ensures(f, (d,), result) && *d == old(self).data() && *final(d)
                    == final(self).data() && outcome == Ok::<R, LockPoisoned>(result),
            is_marked_call(*old(self), *final(self)),
    {
        if self.inner.is_set() {
            return Err(LockPoisoned);
        }
        self.inner.set();
        let result = self.inner.call(f);
        self.inner.clear();
        Ok(result)
    }

    /// Runs a closure whose panics are caught on the data, unless it is marked. The
    /// payload of a panic comes back as an error and leaves the data marked.
    pub fn run_caught<F, R, P>(&mut self, f: F) -> (outcome: Result<LockResult<R>, P>) where
        F: FnOnce(&mut T) -> Result<R, P>,

        requires
            old(self).poisoned() || accepts(f, old(self).data()),
        ensures
            is_guarded_run(*old(self), *final(self), outcome),
            old(self).poisoned() ==> outcome == Ok::<LockResult<R>, P>(Err(LockPoisoned))
                && final(self).poisoned() && final(self).data() == old(self).data(),
            !old(self).poisoned() ==> exists|d: &mut T, result: Result<R, P>| #[trigger]
                call_ensures(f, (d,), result) && *d == old(self).data() && *final(d)
                    == final(self).data() && final(self).poisoned() == (result is Err) && outcome
                    == (match result {
                    Ok(value) => Ok::<LockResult<R>, P>(Ok(value)),
                    Err(payload) => Err::<LockResult<R>, P>(payload),
                }),
            is_marked_call(*old(self), *final(self)),
    {
        if self.inner.is_set() {
            return Ok(Err(LockPoisoned));
        }
        self.inner.set();
        match self.inner.call(f) {
            Ok(value) => {
                self.inner.clear();
                Ok(Ok(value))
            },
            Err(payload) => Err(payload),
        }
    }

    /// Runs a recovery closure on marked data, and takes the mark off if the closure
    /// returns `true`. Says whether the mark was taken off.
    pub fn try_unpoison<F>(&mut self, f: F) -> (cleared: bool) where F: FnOnce(&mut T) -> bool
        requires
            old(self).poisoned() ==> accepts(f, old(self).data()),
        ensures
            !old(self).poisoned() ==> !cleared && !final(self).poisoned() && final(self).data()
                == old(self).data(),
            old(self).poisoned() ==> final(self).poisoned() == !cleared && exists|
                d: &mut T,
            | #[trigger]
                call_ensures(f, (d,), cleared) && *d == old(self).data() && *final(d)
                    == final(self).data(),
            is_recovery_call(*old(self), *final(self)),
    {
        if !self.inner.is_set() {
            return false;
        }
        let cleared = self.inner.call(f);
        if cleared {
            self.inner.clear();
        }
        cleared
    }

    /// Runs a recovery closure whose panics are caught. A panic leaves the data
    /// marked.
    pub fn try_unpoison_caught<F, P>(&mut self, f: F) -> (outcome: Result<bool, P>) where
        F: FnOnce(&mut T) -> Result<bool, P>,

        requires
            old(self).poisoned() ==> accepts(f, old(self).data()),
        ensures
            !old(self).poisoned() ==> outcome == Ok::<bool, P>(false) && !final(self).poisoned()
                && final(self).data() == old(self).data(),
            old(self).poisoned() ==> final(self).poisoned() == (outcome != Ok::<bool, P>(true))
                && exists|d: &mut T| #[trigger]
                call_ensures(f, (d,), outcome) && *d == old(self).data() && *final(d)
                    == final(self).data(),
            is_recovery_call(*old(self), *final(self)),
    {
        if !self.inner.is_set() {
            return Ok(false);
        }
        let outcome = self.inner.call(f);
        if let Ok(true) = outcome {
            self.inner.clear();
        }
        outcome
    }
}

/// A poisonable flat-combining lock.
pub struct Lock<T> {
    inner: nonpoison::Lock<Guarded<T>>,
}

impl<T> Lock<T> {
    /// The data behind the lock.
    pub closed spec fn data(self) -> T {
        self.inner.data().data()
    }

    /// Whether the lock is poisoned.
    pub closed spec fn poisoned(self) -> bool {
        self.inner.data().poisoned()
    }

    /// The calls of closures on the data so far. Each says whether the lock was poisoned when
    /// it was made.
    pub closed spec fn calls(self) -> Seq<Call<T>> {
        self.inner.data().calls()
    }

    /// The tasks that were run on the data with its mark so far. Each says whether the lock
    /// was held when it was run.
    pub closed spec fn tasks(self) -> Seq<Call<Guarded<T>>> {
        self.inner.calls()
    }

    /// Whether this lock has run one task more than `before`, and held the lock for it. A
    /// disabled lock runs none.
    pub open spec fn has_run_one_more(self, before: Self) -> bool {
        if before.is_disabled() {
            self.tasks() == before.tasks()
        } else {
            &&& self.tasks() == before.tasks().push(self.tasks().last())
            &&& self.tasks().last().guarded
        }
    }

    /// Whether no other thread is in the lock.
    pub closed spec fn is_free(self) -> bool {
        self.inner.is_free()
    }

    /// Whether an unwinding combiner has disabled the lock.
    pub closed spec fn is_disabled(self) -> bool {
        self.inner.is_disabled()
    }

    /// Create a new lock with the given data.
    pub fn new(data: T) -> (lock: Self)
        ensures
            lock.data() == data,
            !lock.poisoned(),
            lock.calls().len() == 0,
            lock.tasks().len() == 0,
            lock.is_free(),
            !lock.is_disabled(),
    {
        Lock { inner: nonpoison::Lock::new(Guarded::new(data)) }
    }

    /// Get mutable access to the data, even if the lock is poisoned. This does not
    /// clear poison or repair data left inconsistent by a panic.
    pub fn get_mut(&mut self) -> (data: &mut T)
        ensures
            *data == old(self).data(),
            final(self).data() == *final(data),
            final(self).poisoned() == old(self).poisoned(),
            final(self).calls() == old(self).calls(),
            final(self).tasks() == old(self).tasks(),
            final(self).is_free() == old(self).is_free(),
            final(self).is_disabled() == old(self).is_disabled(),
    {
        self.inner.get_mut().get_mut()
    }

    /// Poison the lock. Return error if the lock is already poisoned.
    pub fn poison(&mut self) -> (outcome: LockResult<()>)
        requires
            old(self).is_free(),
        ensures
            outcome is Err <==> old(self).is_disabled() || old(self).poisoned(),
            final(self).poisoned() == (old(self).poisoned() || !old(self).is_disabled()),
            final(self).data() == old(self).data(),
            final(self).calls() == old(self).calls(),
            final(self).is_free(),
            final(self).is_disabled() == old(self).is_disabled(),
            final(self).has_run_one_more(*old(self)),
    {
        let task = |guarded: &mut Guarded<T>| -> (outcome: LockResult<()>)
            ensures
                outcome is Err <==> old(guarded).poisoned(),
                final(guarded).poisoned(),
                final(guarded).data() == old(guarded).data(),
                final(guarded).calls() == old(guarded).calls(),
            { guarded.poison() };
        match self.inner.try_run(task) {
            Ok(outcome) => outcome,
            Err(_) => Err(LockPoisoned),
        }
    }

    /// Run a recovery closure, invoking it only if the lock is poisoned.
    /// Returns `true` if the closure returns `true` and poison is cleared.
    /// Returns `false` if the lock was not poisoned or the closure returns `false`.
    /// Returns [`LockPoisoned`] if the queue is disabled; recovery cannot execute in
    /// that case.
    pub fn try_unpoison<F>(&mut self, f: F) -> (outcome: LockResult<bool>) where
        F: FnOnce(&mut T) -> bool,

        requires
            old(self).is_free(),
            old(self).poisoned() && !old(self).is_disabled() ==> accepts(f, old(self).data()),
        ensures
            outcome is Err <==> old(self).is_disabled(),
            old(self).is_disabled() || !old(self).poisoned() ==> {
                &&& final(self).poisoned() == old(self).poisoned()
                &&& final(self).data() == old(self).data()
            },
            !old(self).is_disabled() && !old(self).poisoned() ==> outcome
                == Ok::<bool, LockPoisoned>(false),
            !old(self).is_disabled() && old(self).poisoned() ==> exists|
                d: &mut T,
                cleared: bool,
            | #[trigger]
                call_ensures(f, (d,), cleared) && *d == old(self).data() && *final(d)
                    == final(self).data() && final(self).poisoned() == !cleared && outcome
                    == Ok::<bool, LockPoisoned>(cleared),
            final(self).calls() == (if old(self).poisoned() && !old(self).is_disabled() {
                old(self).calls().push(
                    Call { before: old(self).data(), after: final(self).data(), guarded: true },
                )
            } else {
                old(self).calls()
            }),
            final(self).is_free(),
            final(self).is_disabled() == old(self).is_disabled(),
            final(self).has_run_one_more(*old(self)),
    {
        let task = move |guarded: &mut Guarded<T>| -> (cleared: bool)
            requires
                old(guarded).poisoned() ==> accepts(f, old(guarded).data()),
            ensures
                !old(guarded).poisoned() ==> !cleared && !final(guarded).poisoned(),
                !old(guarded).poisoned() ==> final(guarded).data() == old(guarded).data(),
                old(guarded).poisoned() ==> final(guarded).poisoned() == !cleared && exists|
                    d: &mut T,
                | #[trigger]
                    call_ensures(f, (d,), cleared) && *d == old(guarded).data() && *final(d)
                        == final(guarded).data(),
                is_recovery_call(*old(guarded), *final(guarded)),
            { guarded.try_unpoison(f) };
        match self.inner.try_run(task) {
            Ok(cleared) => Ok(cleared),
            Err(_) => Err(LockPoisoned),
        }
    }

    /// Runs a closure whose panics are caught on the lock's data. If the lock is poisoned,
    /// returns [`LockPoisoned`] without invoking the closure. The payload of a panic comes
    /// back as an error and leaves the lock poisoned.
    pub fn run_caught<F, R, P>(&mut self, f: F) -> (outcome: Result<LockResult<R>, P>) where
        F: FnOnce(&mut T) -> Result<R, P>,

        requires
            old(self).is_free(),
            old(self).poisoned() || old(self).is_disabled() || accepts(f, old(self).data()),
        ensures
            old(self).poisoned() || old(self).is_disabled() ==> {
                &&& outcome == Ok::<LockResult<R>, P>(Err(LockPoisoned))
                &&& final(self).poisoned() == old(self).poisoned()
                &&& final(self).data() == old(self).data()
            },
            !old(self).poisoned() && !old(self).is_disabled() ==> exists|
                d: &mut T,
                result: Result<R, P>,
            | #[trigger]
                call_ensures(f, (d,), result) && *d == old(self).data() && *final(d)
                    == final(self).data() && final(self).poisoned() == (result is Err) && outcome
                    == (match result {
                    Ok(value) => Ok::<LockResult<R>, P>(Ok(value)),
                    Err(payload) => Err::<LockResult<R>, P>(payload),
                }),
            final(self).calls() == (if old(self).poisoned() || old(self).is_disabled() {
                old(self).calls()
            } else {
                old(self).calls().push(
                    Call { before: old(self).data(), after: final(self).data(), guarded: true },
                )
            }),
            final(self).is_free(),
            final(self).is_disabled() == old(self).is_disabled(),
            final(self).has_run_one_more(*old(self)),
    {
        let task = move |guarded: &mut Guarded<T>| -> (outcome: Result<LockResult<R>, P>)
            requires
                old(guarded).poisoned() || accepts(f, old(guarded).data()),
            ensures
                old(guarded).poisoned() ==> {
                    &&& outcome == Ok::<LockResult<R>, P>(Err(LockPoisoned))
                    &&& final(guarded).poisoned()
                    &&& final(guarded).data() == old(guarded).data()
                },
                !old(guarded).poisoned() ==> exists|d: &mut T, result: Result<R, P>| #[trigger]
                    call_ensures(f, (d,), result) && *d == old(guarded).data() && *final(d)
                        == final(guarded).data() && final(guarded).poisoned() == (result is Err)
                        && outcome == (match result {
                        Ok(value) => Ok::<LockResult<R>, P>(Ok(value)),
                        Err(payload) => Err::<LockResult<R>, P>(payload),
                    }),
                is_marked_call(*old(guarded), *final(guarded)),
            { guarded.run_caught(f) };
        match self.inner.try_run(task) {
            Ok(outcome) => outcome,
            Err(_) => Ok(Err(LockPoisoned)),
        }
    }

    /// Run a recovery closure whose panics are caught, invoking it only if the lock is
    /// poisoned. A panic comes back as its payload and leaves the lock poisoned.
    pub fn try_unpoison_caught<F, P>(&mut self, f: F) -> (outcome: Result<
        LockResult<bool>,
        P,
    >) where F: FnOnce(&mut T) -> Result<bool, P>
        requires
            old(self).is_free(),
            old(self).poisoned() && !old(self).is_disabled() ==> accepts(f, old(self).data()),
        ensures
            old(self).is_disabled() ==> outcome == Ok::<LockResult<bool>, P>(Err(LockPoisoned)),
            !old(self).is_disabled() && !old(self).poisoned() ==> outcome
                == Ok::<LockResult<bool>, P>(Ok(false)),
            old(self).is_disabled() || !old(self).poisoned() ==> {
                &&& final(self).poisoned() == old(self).poisoned()
                &&& final(self).data() == old(self).data()
            },
            !old(self).is_disabled() && old(self).poisoned() ==> exists|
                d: &mut T,
                result: Result<bool, P>,
            | #[trigger]
                call_ensures(f, (d,), result) && *d == old(self).data() && *final(d)
                    == final(self).data() && final(self).poisoned() == (result != Ok::<bool, P>(
                    true,
                )) && outcome == (match result {
                    Ok(cleared) => Ok::<LockResult<bool>, P>(Ok(cleared)),
                    Err(payload) => Err::<LockResult<bool>, P>(payload),
                }),
            final(self).calls() == (if old(self).poisoned() && !old(self).is_disabled() {
                old(self).calls().push(
                    Call { before: old(self).data(), after: final(self).data(), guarded: true },
                )
            } else {
                old(self).calls()
            }),
            final(self).is_free(),
            final(self).is_disabled() == old(self).is_disabled(),
            final(self).has_run_one_more(*old(self)),
    {
        let task = move |guarded: &mut Guarded<T>| -> (outcome: Result<bool, P>)
            requires
                old(guarded).poisoned() ==> accepts(f, old(guarded).data()),
            ensures
                !old(guarded).poisoned() ==> outcome == Ok::<bool, P>(false),
                !old(guarded).poisoned() ==> !final(guarded).poisoned(),
                !old(guarded).poisoned() ==> final(guarded).data() == old(guarded).data(),
                old(guarded).poisoned() ==> final(guarded).poisoned() == (outcome != Ok::<bool, P>(
                    true,
                )) && exists|d: &mut T| #[trigger]
                    call_ensures(f, (d,), outcome) && *d == old(guarded).data() && *final(d)
                        == final(guarded).data(),
                is_recovery_call(*old(guarded), *final(guarded)),
            { guarded.try_unpoison_caught(f) };
        match self.inner.try_run(task) {
            Ok(Ok(cleared)) => Ok(Ok(cleared)),
            Ok(Err(payload)) => Err(payload),
            Err(_) => Ok(Err(LockPoisoned)),
        }
    }

    /// Runs a closure on the lock's data. If the lock is poisoned, returns
    /// [`LockPoisoned`] without invoking the closure. [`Lock::run_caught`] says what a panic
    /// does to the lock.
    pub fn run<F, R>(&mut self, f: F) -> (outcome: LockResult<R>) where F: FnOnce(&mut T) -> R
        requires
            old(self).is_free(),
            old(self).poisoned() || old(self).is_disabled() || accepts(f, old(self).data()),
        ensures
            outcome is Err <==> old(self).is_disabled() || old(self).poisoned(),
            outcome is Err ==> final(self).data() == old(self).data(),
            outcome is Ok ==> exists|d: &mut T, result: R| #[trigger]
                call_ensures(f, (d,), result) && *d == old(self).data() && *final(d)
                    == final(self).data() && outcome == Ok::<R, LockPoisoned>(result),
            final(self).poisoned() == old(self).poisoned(),
            final(self).calls() == (if old(self).poisoned() || old(self).is_disabled() {
                old(self).calls()
            } else {
                old(self).calls().push(
                    Call { before: old(self).data(), after: final(self).data(), guarded: true },
                )
            }),
            final(self).is_free(),
            final(self).is_disabled() == old(self).is_disabled(),
            final(self).has_run_one_more(*old(self)),
    {
        let task = move |guarded: &mut Guarded<T>| -> (outcome: LockResult<R>)
            requires
                old(guarded).poisoned() || accepts(f, old(guarded).data()),
            ensures
                outcome is Err <==> old(guarded).poisoned(),
                final(guarded).poisoned() == old(guarded).poisoned(),
                outcome is Err ==> final(guarded).data() == old(guarded).data(),
                outcome is Ok ==> exists|d: &mut T, result: R| #[trigger]
                    call_ensures(f, (d,), result) && *d == old(guarded).data() && *final(d)
                        == final(guarded).data() && outcome == Ok::<R, LockPoisoned>(result),
                is_marked_call(*old(guarded), *final(guarded)),
            { guarded.run(f) };
        match self.inner.try_run(task) {
            Ok(outcome) => outcome,
            Err(_) => Err(LockPoisoned),
        }
    }
}

/// Whether the run at place `k` is that of an ordinary task on guarded data.
pub open spec fn is_guarded_task<T, F, R, P>(
    history: Seq<Run<Guarded<T>, F, Result<LockResult<R>, P>>>,
    k: int,
) -> bool {
    history[k] matches Run::Queued { before, after, result, .. } && is_guarded_run(
        before,
        after,
        result,
    )
}

/// Once a task has panicked, the data stays marked as long as nothing takes the mark off.
proof fn lemma_stays_poisoned<T, F, R, P>(
    history: Seq<Run<Guarded<T>, F, Result<LockResult<R>, P>>>,
    data: Guarded<T>,
    j: int,
    k: int,
)
    requires
        leads_to(history, data),
        0 <= j < k < history.len(),
        history[j].after().poisoned(),
        forall|m: int|
            j < m < k ==> !is_recovery((#[trigger] history[m]).before(), history[m].after()),
    ensures
        history[k].before().poisoned(),
    decreases k - j,
{
    assert(history[j].after() == history[j + 1].before());
    if j + 1 < k {
        lemma_stays_poisoned(history, data, j + 1, k);
    }
}

/// Once a task has panicked, every ordinary task that is run later is rejected and leaves the
/// data as it finds it, until a recovery takes the mark off.
pub proof fn panic_rejects_later_tasks<T, F, R, P>(
    history: Seq<Run<Guarded<T>, F, Result<LockResult<R>, P>>>,
    data: Guarded<T>,
    j: int,
    k: int,
)
    requires
        leads_to(history, data),
        0 <= j < k < history.len(),
        is_guarded_task(history, j),
        history[j]->result is Err,
        is_guarded_task(history, k),
        forall|m: int|
            j < m < k ==> !is_recovery((#[trigger] history[m]).before(), history[m].after()),
    ensures
        history[k]->result == Ok::<LockResult<R>, P>(Err(LockPoisoned)),
        history[k].after().data() == history[k].before().data(),
        history[k].after().poisoned(),
{
    if history[j].before().poisoned() {
        assert(history[j]->result is Ok);
    }
    lemma_stays_poisoned(history, data, j, k);
}

/// Ordinary tasks alone do not recover from a panic: all of them that are run after it are
/// rejected, and the data stays as the task that panicked left it.
pub proof fn ordinary_tasks_do_not_recover<T, F, R, P>(
    history: Seq<Run<Guarded<T>, F, Result<LockResult<R>, P>>>,
    data: Guarded<T>,
    j: int,
    k: int,
)
    requires
        leads_to(history, data),
        0 <= j < k < history.len(),
        history[j]->result is Err,
        forall|m: int| j <= m <= k ==> #[trigger] is_guarded_task(history, m),
    ensures
        history[k]->result == Ok::<LockResult<R>, P>(Err(LockPoisoned)),
        history[k].after().poisoned(),
        history[k].after().data() == history[j].after().data(),
    decreases k - j,
{
    assert(is_guarded_task(history, j));
    assert(is_guarded_task(history, k));
    assert forall|m: int| j < m < k implies !is_recovery(
        (#[trigger] history[m]).before(),
        history[m].after(),
    ) by {
        assert(is_guarded_task(history, m));
    }
    panic_rejects_later_tasks(history, data, j, k);
    assert(history[k - 1].after() == history[k].before());
    if j + 1 < k {
        ordinary_tasks_do_not_recover(history, data, j, k - 1);
    }
}

/// Whether the run at place `k` calls closures only as an ordinary task or a recovery does.
pub open spec fn calls_as_told<T, F, R>(history: Seq<Run<Guarded<T>, F, R>>, k: int) -> bool {
    let before = history[k].before();
    let after = history[k].after();
    is_marked_call(before, after) || is_recovery_call(before, after)
}

/// A closure is called only on data that is marked at that moment, whatever tasks and
/// recoveries are run in whatever order: so a closure that does not return leaves the mark.
pub proof fn closures_are_called_on_marked_data<T, F, R>(
    history: Seq<Run<Guarded<T>, F, R>>,
    data: Guarded<T>,
)
    requires
        leads_to(history, data),
        history.len() > 0,
        forall|k: int| 0 <= k < history.len() ==> #[trigger] calls_as_told(history, k),
    ensures
        data.calls().len() >= history[0].before().calls().len(),
        are_guarded(data.calls(), history[0].before().calls().len() as int),
    decreases history.len(),
{
    let earlier = history.drop_last();
    let last = history.len() - 1;
    assert(calls_as_told(history, last));
    if last > 0 {
        assert(history[last - 1].after() == history[last].before());
        assert forall|k: int| 0 <= k < earlier.len() implies #[trigger] calls_as_told(
            earlier,
            k,
        ) by {
            assert(calls_as_told(history, k));
        }
        closures_are_called_on_marked_data(earlier, history[last].before());
    }
}

/// In the queue: a requester whose ordinary task was run after the ordinary task of another
/// one has panicked gets [`LockPoisoned`], unless a recovery was run in between. Each of the
/// two tasks is a call of its closure, as [`super::crowd::whole_runs_are_serial`] shows, and
/// each closure does what [`Guarded::run_caught`] does.
pub proof fn panic_rejects_queued_requests<
    T,
    F: FnOnce(&mut Guarded<T>) -> Result<LockResult<R>, P>,
    R,
    P,
>(crowd: Crowd<Guarded<T>, F, LockResult<R>, P>, j: int, k: int, id: NodeId)
    requires
        crowd.wf(),
        0 <= j < k < crowd.history().len(),
        crowd.history()[j] is Queued,
        crowd.history()[k] is Queued,
        forall|m: int|
            m == j || m == k ==> exists|
                d: &mut Guarded<T>,
                f: F,
                result: Result<LockResult<R>, P>,
            | #[trigger]
                call_ensures(f, (d,), result) && (#[trigger] crowd.history()[m]) == (Run::Queued {
                    node: crowd.history()[m]->node,
                    f,
                    before: *d,
                    after: *final(d),
                    result,
                }),
        forall|d: &mut Guarded<T>, f: F, result: Result<LockResult<R>, P>|
            (f == crowd.history()[j]->f || f == crowd.history()[k]->f) && #[trigger] call_ensures(
                f,
                (d,),
                result,
            ) ==> is_guarded_run(*d, *final(d), result),
        crowd.history()[j]->result is Err,
        forall|m: int|
            j < m < k ==> !is_recovery(
                (#[trigger] crowd.history()[m]).before(),
                crowd.history()[m].after(),
            ),
        id == crowd.history()[k]->node,
        crowd@.who[id as int] == (Phase::Finished { outcome: Outcome::Completed }),
        !crowd.collected(id as int),
    ensures
        crowd.history()[k].after().data() == crowd.history()[k].before().data(),
        ending_of(crowd, id) == Ending::<LockResult<R>, P>::Returned(Err(LockPoisoned)),
{
    data_is_that_of_a_serial_run(crowd);
    assert(crowd.history()[j] is Queued && crowd.history()[k] is Queued);
    assert(is_guarded_task(crowd.history(), j));
    assert(is_guarded_task(crowd.history(), k));
    panic_rejects_later_tasks(crowd.history(), crowd.data(), j, k);
    results_are_those_of_a_serial_run(crowd, id, k);
}

} // verus!
