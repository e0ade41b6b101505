//! A flat-combining lock with an MCS-style queue.
//!
//! A thread that finds the lock taken puts its task into a queue. The thread at
//! the head of the queue takes the lock and runs the tasks of the others for
//! them, so that the data stays with one thread.
//!
//! [`rawlock`], [`node`] and [`futex`] hold the words of the lock, and their
//! atomic accesses. [`attach`] is the way of one requester through the queue,
//! [`bomb`] what becomes of the queue when a task unwinds, and [`protocol`] what
//! holds of the lock however the actions of its threads interleave. [`crowd`]
//! drives a lock with all its requesters, whose tasks run as in [`serial`].
//! [`nonpoison`] and [`poison`] are the locks as one caller sees them; [`held`] and
//! [`marked`] say how their data is guarded while a task runs.

pub mod action;
pub mod attach;
pub mod bomb;
pub mod crowd;
pub mod futex;
pub mod held;
pub mod marked;
pub mod node;
pub mod nonpoison;
pub mod poison;
pub mod protocol;
pub mod rawlock;
pub mod serial;

pub use poison::Lock;
pub use rawlock::{LockPoisoned, LockResult};
