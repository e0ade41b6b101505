//! Data with a mark that is set before a closure may be called on it.
//!
//! Nothing but the owner sets the mark or takes it off. So a closure that is called and does
//! not return leaves the data marked.

use super::nonpoison::{accepts, apply};
use super::serial::Call;
use vstd::prelude::*;

verus! {

/// Data with a mark, and a record of the calls of closures on it.
pub struct Marked<T> {
    data: T,
    mark: bool,
    calls: Ghost<Seq<Call<T>>>,
}

impl<T> Marked<T> {
    /// The data.
    pub closed spec fn data(self) -> T {
        self.data
    }

    /// Whether the mark is set.
    pub closed spec fn mark(self) -> bool {
        self.mark
    }

    /// The calls so far. Each says whether the mark was set when it was made.
    pub closed spec fn calls(self) -> Seq<Call<T>> {
        self.calls@
    }

    /// Data without the mark, on which no closure was called.
    pub fn new(data: T) -> (marked: Self)
        ensures
            marked.data() == data,
            !marked.mark(),
            marked.calls().len() == 0,
    {
        Marked { data, mark: false, calls: Ghost(Seq::empty()) }
    }

    /// Whether the mark is set.
    pub fn is_set(&self) -> (set: bool)
        ensures
            set == self.mark(),
    {
        self.mark
    }

    /// Sets the mark.
    pub fn set(&mut self)
        ensures
            final(self).mark(),
            final(self).data() == old(self).data(),
            final(self).calls() == old(self).calls(),
    {
        self.mark = true;
    }

    /// Takes the mark off.
    pub fn clear(&mut self)
        ensures
            !final(self).mark(),
            final(self).data() == old(self).data(),
            final(self).calls() == old(self).calls(),
    {
        self.mark = false;
    }

    /// Mutable access to the data. This is no call of a closure.
    pub fn get_mut(&mut self) -> (data: &mut T)
        ensures
            *data == old(self).data(),
            final(self).data() == *final(data),
            final(self).mark() == old(self).mark(),
            final(self).calls() == old(self).calls(),
    {
        &mut self.data
    }

    /// Calls a closure on the data. The mark is set before the call, and stays.
    pub fn call<F, R>(&mut self, f: F) -> (result: R) where F: FnOnce(&mut T) -> R
        requires
            old(self).mark(),
            accepts(f, old(self).data()),
        ensures
            exists|d: &mut T| #[trigger]
                call_ensures(f, (d,), result) && *d == old(self).data() && *final(d)
                    == final(self).data(),
            final(self).mark(),
            final(self).calls() == old(self).calls().push(
                Call { before: old(self).data(), after: final(self).data(), guarded: true },
            ),
    {
        let ghost before = self.data;
        let ghost guarded = self.mark;
        let result = apply(f, &mut self.data);
        proof {
            self.calls@ = self.calls@.push(Call { before, after: self.data, guarded });
        }
        result
    }
}

} // verus!
