//! Data on which a closure may be called only while its lock is held.

use super::nonpoison::{accepts, apply, CombinedNode};
use super::rawlock::{RawLock, LOCKED, UNLOCKED};
use super::serial::Call;
use vstd::prelude::*;

verus! {

/// The words of a lock and the data behind it, with a record of the calls of closures on the
/// data.
pub struct Held<T> {
    raw: RawLock,
    data: T,
    calls: Ghost<Seq<Call<T>>>,
}

impl<T> Held<T> {
    /// The words of the lock.
    pub closed spec fn raw(self) -> RawLock {
        self.raw
    }

    /// The data behind the lock.
    pub closed spec fn data(self) -> T {
        self.data
    }

    /// The calls so far. Each says whether the lock was held when it was made.
    pub closed spec fn calls(self) -> Seq<Call<T>> {
        self.calls@
    }

    /// Data behind a lock that nobody holds.
    pub fn new(data: T) -> (held: Self)
        ensures
            held.data() == data,
            held.raw().status() == UNLOCKED,
            held.raw().tail() is None,
            held.calls().len() == 0,
    {
        Held { raw: RawLock::new(), data, calls: Ghost(Seq::empty()) }
    }

    /// The words of the lock.
    pub fn get_raw(&self) -> (raw: &RawLock)
        ensures
            *raw == self.raw(),
    {
        &self.raw
    }

    /// Mutable access to the words of the lock.
    pub fn raw_mut(&mut self) -> (raw: &mut RawLock)
        ensures
            *raw == old(self).raw(),
            final(self).raw() == *final(raw),
            final(self).data() == old(self).data(),
            final(self).calls() == old(self).calls(),
    {
        &mut self.raw
    }

    /// Mutable access to the data. This is no call of a closure.
    pub fn get_mut(&mut self) -> (data: &mut T)
        ensures
            *data == old(self).data(),
            final(self).data() == *final(data),
            final(self).raw() == old(self).raw(),
            final(self).calls() == old(self).calls(),
    {
        &mut self.data
    }

    /// Calls a closure on the data. The lock is held before the call, and stays so.
    pub fn call<F, R>(&mut self, f: F) -> (result: R) where F: FnOnce(&mut T) -> R
        requires
            old(self).raw().status() == LOCKED,
            accepts(f, old(self).data()),
        ensures
            exists|d: &mut T| #[trigger]
                call_ensures(f, (d,), result) && *d == old(self).data() && *final(d)
                    == final(self).data(),
            final(self).raw() == old(self).raw(),
            final(self).calls() == old(self).calls().push(
                Call { before: old(self).data(), after: final(self).data(), guarded: true },
            ),
    {
        let ghost before = self.data;
        let ghost guarded = self.raw.status() == LOCKED;
        let result = apply(f, &mut self.data);
        proof {
            self.calls@ = self.calls@.push(Call { before, after: self.data, guarded });
        }
        result
    }

    /// Runs a task on the data. The lock is held before, and stays so.
    pub fn execute<F, R>(&mut self, task: &mut CombinedNode<F, R>) where F: FnOnce(&mut T) -> R
        requires
            old(self).raw().status() == LOCKED,
            old(task).closure() matches Some(f) && accepts(f, old(self).data()),
        ensures
            final(task).closure() is None,
            exists|d: &mut T, result: R| #[trigger]
                call_ensures(old(task).closure()->0, (d,), result) && *d == old(self).data()
                    && *final(d) == final(self).data() && final(task).result() == Some(result),
            final(self).raw() == old(self).raw(),
            final(self).calls() == old(self).calls().push(
                Call { before: old(self).data(), after: final(self).data(), guarded: true },
            ),
    {
        let ghost before = self.data;
        let ghost guarded = self.raw.status() == LOCKED;
        task.execute(&mut self.data);
        proof {
            self.calls@ = self.calls@.push(Call { before, after: self.data, guarded });
        }
    }
}

} // verus!
