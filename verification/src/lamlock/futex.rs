//! The word on which a queue node waits.

use vstd::prelude::*;

verus! {

/// What a waiter does after it has looked at the word.
#[derive(Debug, Clone, Copy, PartialEq, Eq, Structural)]
pub enum WaitStep {
    /// The word still holds the value: sleep on it in the kernel, then look
    /// again. The kernel may return early, or at once.
    Sleep,
    /// The word has changed.
    Return,
}

/// A 32-bit word that threads can sleep on.
pub struct Futex(u32);

impl Futex {
    /// The value of the word.
    pub closed spec fn value(self) -> u32 {
        self.0
    }

    /// A word with the given value.
    pub fn new(value: u32) -> (futex: Self)
        ensures
            futex.value() == value,
    {
        Futex(value)
    }

    /// Reads the word.
    pub fn load(&self) -> (value: u32)
        ensures
            value == self.value(),
    {
        self.0
    }

    /// Looks once whether the word still holds `value`. A waiter repeats this
    /// until the answer is [`WaitStep::Return`], and sleeps in between.
    pub fn wait(&self, value: u32) -> (step: WaitStep)
        ensures
            step == wait_step_for(self.value(), value),
            step is Sleep <==> self.value() == value,
    {
        wait_step(self.0, value)
    }

    /// Stores `new_val` and says whether sleepers have to be woken: they sleep
    /// only while the word holds `old_val`.
    pub fn notify(&mut self, new_val: u32, old_val: u32) -> (wake: bool)
        ensures
            final(self).value() == new_val,
            wake == (old(self).value() == old_val),
    {
        let found: u32 = self.0;
        self.0 = new_val;
        needs_wake(found, old_val)
    }
}

/// What a waiter for a change from `value` does when it reads `found`.
pub open spec fn wait_step_for(found: u32, value: u32) -> WaitStep {
    if found == value {
        WaitStep::Sleep
    } else {
        WaitStep::Return
    }
}

/// Decides what a waiter for a change from `value` does when it reads `found`.
pub fn wait_step(found: u32, value: u32) -> (step: WaitStep)
    ensures
        step == wait_step_for(found, value),
        step is Sleep <==> found == value,
        step is Return <==> found != value,
{
    if found == value {
        WaitStep::Sleep
    } else {
        WaitStep::Return
    }
}

/// Decides whether a notifier that replaced `found` has to wake sleepers, who
/// sleep only while the word holds `old_val`.
pub fn needs_wake(found: u32, old_val: u32) -> (wake: bool)
    ensures
        wake == (found == old_val),
{
    found == old_val
}

} // verus!
