//! The way of one requester through the queue.
//!
//! A requester joins the queue with its node. If the queue was closed before, it
//! takes the lock itself; otherwise it waits. A requester that holds the lock
//! runs the tasks of the nodes from its own on, and wakes their requesters. At
//! the end of the queue it closes the queue and gives the lock back. If another
//! node is just joining, it leaves the lock and the rest to that node instead.

use super::action::{answers, Action, Event};
use super::bomb::{fuse_action, fuse_next, Fuse, Stage};
use super::node::{DONE, HEAD, POISONED};
use super::rawlock::{AcquireStep, NodeId};
use vstd::prelude::*;

verus! {

/// How a request ends.
#[derive(Debug, Clone, Copy, PartialEq, Eq, Structural)]
pub enum Outcome {
    /// The task was run to its end.
    Completed,
    /// The queue was disabled before the task was run to its end.
    Cancelled,
    /// A task that this requester ran has unwound out of it.
    Unwound,
}

/// Where a requester is.
#[derive(Debug, Clone, Copy, PartialEq, Eq, Structural)]
pub enum Phase {
    /// About to join the queue.
    Joining,
    /// Behind `previous`, about to link itself.
    Linking { previous: NodeId },
    /// In the queue, linked.
    Waiting,
    /// First in the queue, about to take the lock.
    Acquiring,
    /// Combining, about to run the task of `cursor`.
    Executing { cursor: NodeId },
    /// Combining, about to look for the node behind `cursor`, whose task was run.
    Inspecting { cursor: NodeId },
    /// Combining, about to wake `cursor`; `next` follows.
    Completing { cursor: NodeId, next: NodeId },
    /// Combining, about to close the queue behind `cursor`.
    Closing { cursor: NodeId },
    /// The queue is closed; about to give the lock back.
    Releasing { cursor: NodeId },
    /// Combining, with a node behind `cursor` that is about to link itself.
    AwaitingNext { cursor: NodeId },
    /// About to leave the lock to `next`.
    HandingOver { cursor: NodeId, next: NodeId },
    /// Without the lock, about to wake `cursor`.
    Retiring { cursor: NodeId },
    /// About to cancel the queue, since a task unwound or the lock was disabled.
    Detonating { fuse: Fuse, unwound: bool },
    /// Through.
    Finished { outcome: Outcome },
}

/// The action that comes next for the requester of `node`.
pub open spec fn phase_action(node: NodeId, phase: Phase) -> Option<Action> {
    match phase {
        Phase::Joining => Some(Action::SwapTail { node }),
        Phase::Linking { previous } => Some(Action::StoreNext { previous, node }),
        Phase::Waiting => Some(Action::LoadState { node }),
        Phase::Acquiring => Some(Action::TryAcquire),
        Phase::Executing { cursor } => Some(Action::Execute { node: cursor }),
        Phase::Inspecting { cursor } => Some(Action::LoadNext { node: cursor }),
        Phase::Completing { cursor, .. } => Some(Action::WakeDone { node: cursor }),
        Phase::Closing { cursor } => Some(Action::TryClose { node: cursor }),
        Phase::Releasing { .. } => Some(Action::Release),
        Phase::AwaitingNext { cursor } => Some(Action::LoadNext { node: cursor }),
        Phase::HandingOver { next, .. } => Some(Action::WakeHead { node: next }),
        Phase::Retiring { cursor } => Some(Action::WakeDone { node: cursor }),
        Phase::Detonating { fuse, .. } => fuse_action(fuse),
        Phase::Finished { .. } => None,
    }
}

/// The phase of a requester whose heavy bomb has come to `fuse`.
pub open spec fn detonation(fuse: Fuse, unwound: bool) -> Phase {
    if fuse.stage is Spent {
        Phase::Finished {
            outcome: if unwound {
                Outcome::Unwound
            } else {
                Outcome::Cancelled
            },
        }
    } else {
        Phase::Detonating { fuse, unwound }
    }
}

/// The phase of the requester of `node` after its action gave back `event`.
pub open spec fn phase_next(node: NodeId, phase: Phase, event: Event) -> Phase {
    match phase {
        Phase::Joining => match event {
            Event::Previous(Some(previous)) => Phase::Linking { previous },
            _ => Phase::Acquiring,
        },
        Phase::Linking { .. } => Phase::Waiting,
        Phase::Waiting => if event == Event::State(HEAD) {
            Phase::Executing { cursor: node }
        } else if event == Event::State(DONE) {
            Phase::Finished { outcome: Outcome::Completed }
        } else if event == Event::State(POISONED) {
            Phase::Finished { outcome: Outcome::Cancelled }
        } else {
            Phase::Waiting
        },
        Phase::Acquiring => match event {
            Event::Acquire(AcquireStep::Acquired) => Phase::Executing { cursor: node },
            Event::Acquire(AcquireStep::Poisoned) => Phase::Detonating {
                fuse: Fuse { atom: node, completed: false, stage: Stage::Igniting },
                unwound: false,
            },
            _ => Phase::Acquiring,
        },
        Phase::Executing { cursor } => match event {
            Event::Unwound => Phase::Detonating {
                fuse: Fuse { atom: cursor, completed: false, stage: Stage::Igniting },
                unwound: true,
            },
            _ => Phase::Inspecting { cursor },
        },
        Phase::Inspecting { cursor } => match event {
            Event::Next(Some(next)) => Phase::Completing { cursor, next },
            _ => Phase::Closing { cursor },
        },
        Phase::Completing { next, .. } => Phase::Executing { cursor: next },
        Phase::Closing { cursor } => if event == Event::Closed(true) {
            Phase::Releasing { cursor }
        } else {
            Phase::AwaitingNext { cursor }
        },
        Phase::Releasing { cursor } => Phase::Retiring { cursor },
        Phase::AwaitingNext { cursor } => match event {
            Event::Next(Some(next)) => Phase::HandingOver { cursor, next },
            _ => Phase::AwaitingNext { cursor },
        },
        Phase::HandingOver { cursor, .. } => Phase::Retiring { cursor },
        Phase::Retiring { .. } => Phase::Finished { outcome: Outcome::Completed },
        Phase::Detonating { fuse, unwound } => detonation(fuse_next(fuse, event), unwound),
        Phase::Finished { .. } => phase,
    }
}

/// A requester on its way through the queue.
pub struct Attach {
    node: NodeId,
    phase: Phase,
}

impl Attach {
    /// The node that the requester owns.
    pub closed spec fn node(self) -> NodeId {
        self.node
    }

    /// Where the requester is.
    pub closed spec fn phase(self) -> Phase {
        self.phase
    }

    /// A requester that is about to join with its node.
    pub fn new(node: NodeId) -> (attach: Self)
        ensures
            attach.node() == node,
            attach.phase() is Joining,
    {
        Attach { node, phase: Phase::Joining }
    }

    /// The action that comes next, until the requester is through.
    pub fn action(&self) -> (action: Option<Action>)
        ensures
            action == phase_action(self.node(), self.phase()),
    {
        let node: NodeId = self.node;
        match self.phase {
            Phase::Joining => Some(Action::SwapTail { node }),
            Phase::Linking { previous } => Some(Action::StoreNext { previous, node }),
            Phase::Waiting => Some(Action::LoadState { node }),
            Phase::Acquiring => Some(Action::TryAcquire),
            Phase::Executing { cursor } => Some(Action::Execute { node: cursor }),
            Phase::Inspecting { cursor } => Some(Action::LoadNext { node: cursor }),
            Phase::Completing { cursor, .. } => Some(Action::WakeDone { node: cursor }),
            Phase::Closing { cursor } => Some(Action::TryClose { node: cursor }),
            Phase::Releasing { .. } => Some(Action::Release),
            Phase::AwaitingNext { cursor } => Some(Action::LoadNext { node: cursor }),
            Phase::HandingOver { next, .. } => Some(Action::WakeHead { node: next }),
            Phase::Retiring { cursor } => Some(Action::WakeDone { node: cursor }),
            Phase::Detonating { fuse, .. } => fuse.action(),
            Phase::Finished { .. } => None,
        }
    }

    /// Goes on with what the action gave back.
    pub fn observe(&mut self, event: Event)
        requires
            phase_action(old(self).node(), old(self).phase()) matches Some(action) && answers(
                action,
                event,
            ),
        ensures
            final(self).node() == old(self).node(),
            final(self).phase() == phase_next(old(self).node(), old(self).phase(), event),
    {
        let node: NodeId = self.node;
        self.phase =
        match self.phase {
            Phase::Joining => match event {
                Event::Previous(Some(previous)) => Phase::Linking { previous },
                _ => Phase::Acquiring,
            },
            Phase::Linking { .. } => Phase::Waiting,
            Phase::Waiting => match event {
                Event::State(state) => if state == HEAD {
                    Phase::Executing { cursor: node }
                } else if state == DONE {
                    Phase::Finished { outcome: Outcome::Completed }
                } else if state == POISONED {
                    Phase::Finished { outcome: Outcome::Cancelled }
                } else {
                    Phase::Waiting
                },
                _ => Phase::Waiting,
            },
            Phase::Acquiring => match event {
                Event::Acquire(AcquireStep::Acquired) => Phase::Executing { cursor: node },
                Event::Acquire(AcquireStep::Poisoned) => Phase::Detonating {
                    fuse: Fuse::new(node, false),
                    unwound: false,
                },
                _ => Phase::Acquiring,
            },
            Phase::Executing { cursor } => match event {
                Event::Unwound => Phase::Detonating {
                    fuse: Fuse::new(cursor, false),
                    unwound: true,
                },
                _ => Phase::Inspecting { cursor },
            },
            Phase::Inspecting { cursor } => match event {
                Event::Next(Some(next)) => Phase::Completing { cursor, next },
                _ => Phase::Closing { cursor },
            },
            Phase::Completing { next, .. } => Phase::Executing { cursor: next },
            Phase::Closing { cursor } => match event {
                Event::Closed(true) => Phase::Releasing { cursor },
                _ => Phase::AwaitingNext { cursor },
            },
            Phase::Releasing { cursor } => Phase::Retiring { cursor },
            Phase::AwaitingNext { cursor } => match event {
                Event::Next(Some(next)) => Phase::HandingOver { cursor, next },
                _ => Phase::AwaitingNext { cursor },
            },
            Phase::HandingOver { cursor, .. } => Phase::Retiring { cursor },
            Phase::Retiring { .. } => Phase::Finished { outcome: Outcome::Completed },
            Phase::Detonating { fuse, unwound } => {
                let mut fuse = fuse;
                fuse.observe(event);
                match fuse.stage {
                    Stage::Spent => Phase::Finished {
                        outcome: if unwound {
                            Outcome::Unwound
                        } else {
                            Outcome::Cancelled
                        },
                    },
                    _ => Phase::Detonating { fuse, unwound },
                }
            },
            Phase::Finished { outcome } => Phase::Finished { outcome },
        };
    }

    /// How the request ended, once the requester is through.
    pub fn outcome(&self) -> (outcome: Option<Outcome>)
        ensures
            outcome == (match self.phase() {
                Phase::Finished { outcome } => Some(outcome),
                _ => None::<Outcome>,
            }),
    {
        match self.phase {
            Phase::Finished { outcome } => Some(outcome),
            _ => None,
        }
    }
}

} // verus!
