//! The atomic steps of the threads that share a lock.

use super::node::{told, Node, NodeView, DONE, HEAD, POISONED, WAITING};
use super::rawlock::{acquire_step_for, AcquireStep, NodeId, RawLock, LOCKED, UNLOCKED};
use vstd::prelude::*;

verus! {

/// One access of a thread to the words and nodes of a lock.
#[derive(Debug, Clone, Copy, PartialEq, Eq, Structural)]
pub enum Action {
    /// Join the queue as its last node.
    SwapTail { node: NodeId },
    /// Link `node` behind `previous`.
    StoreNext { previous: NodeId, node: NodeId },
    /// Look at the state of one's own node, and sleep while it is waiting.
    LoadState { node: NodeId },
    /// Try once to take the lock.
    TryAcquire,
    /// Run the task of a node.
    Execute { node: NodeId },
    /// Look for the node behind.
    LoadNext { node: NodeId },
    /// Close the queue if `node` is its last.
    TryClose { node: NodeId },
    /// Give the lock back.
    Release,
    /// Disable the lock.
    Poison,
    /// Tell a requester that its task was run.
    WakeDone { node: NodeId },
    /// Tell a requester to run the queue on.
    WakeHead { node: NodeId },
    /// Tell a requester that its task will not be run.
    WakePoisoned { node: NodeId },
}

/// What an access gives back.
#[derive(Debug, Clone, Copy, PartialEq, Eq, Structural)]
pub enum Event {
    /// The last node before this one joined.
    Previous(Option<NodeId>),
    /// A node's state.
    State(u32),
    /// How the attempt to take the lock went.
    Acquire(AcquireStep),
    /// The task was run to its end.
    Returned,
    /// The task was run and unwound out of the combiner.
    Unwound,
    /// The node behind.
    Next(Option<NodeId>),
    /// Whether the queue is closed now.
    Closed(bool),
    /// Nothing.
    Stored,
}

/// The words and nodes of a lock.
pub ghost struct Memory {
    pub status: u32,
    pub tail: Option<NodeId>,
    pub nodes: Seq<NodeView>,
}

/// The memory that a lock and a table of nodes make up.
pub open spec fn memory_of(raw: RawLock, nodes: Seq<Node>) -> Memory {
    Memory {
        status: raw.status(),
        tail: raw.tail(),
        nodes: nodes.map_values(|node: Node| node@),
    }
}

/// The node whose memory an action reads or writes, if any.
pub open spec fn target(action: Action) -> Option<NodeId> {
    match action {
        Action::StoreNext { previous, .. } => Some(previous),
        Action::LoadState { node } => Some(node),
        Action::Execute { node } => Some(node),
        Action::LoadNext { node } => Some(node),
        Action::WakeDone { node } => Some(node),
        Action::WakeHead { node } => Some(node),
        Action::WakePoisoned { node } => Some(node),
        Action::SwapTail { .. } => None,
        Action::TryAcquire => None,
        Action::TryClose { .. } => None,
        Action::Release => None,
        Action::Poison => None,
    }
}

/// The memory once the requester of one node was told a state.
pub open spec fn with_state(memory: Memory, node: NodeId, state: u32) -> Memory {
    Memory {
        nodes: memory.nodes.update(node as int, told(memory.nodes[node as int], state)),
        ..memory
    }
}

/// What an action gives back; a task that is run returns.
pub open spec fn reply(memory: Memory, action: Action) -> Event {
    match action {
        Action::SwapTail { .. } => Event::Previous(memory.tail),
        Action::LoadState { node } => Event::State(memory.nodes[node as int].state),
        Action::TryAcquire => Event::Acquire(acquire_step_for(memory.status)),
        Action::Execute { .. } => Event::Returned,
        Action::LoadNext { node } => Event::Next(memory.nodes[node as int].next),
        Action::TryClose { node } => Event::Closed(memory.tail == Some(node)),
        _ => Event::Stored,
    }
}

/// The memory after an action.
pub open spec fn effect(memory: Memory, action: Action) -> Memory {
    match action {
        Action::SwapTail { node } => Memory { tail: Some(node), ..memory },
        Action::StoreNext { previous, node } => Memory {
            nodes: memory.nodes.update(
                previous as int,
                NodeView { next: Some(node), ..memory.nodes[previous as int] },
            ),
            ..memory
        },
        Action::TryAcquire => if memory.status == UNLOCKED {
            Memory { status: LOCKED, ..memory }
        } else {
            memory
        },
        Action::TryClose { node } => if memory.tail == Some(node) {
            Memory { tail: None, ..memory }
        } else {
            memory
        },
        Action::Release => Memory { status: UNLOCKED, ..memory },
        Action::Poison => Memory { status: super::rawlock::POISONED, ..memory },
        Action::WakeDone { node } => with_state(memory, node, DONE),
        Action::WakeHead { node } => with_state(memory, node, HEAD),
        Action::WakePoisoned { node } => with_state(memory, node, POISONED),
        Action::LoadState { .. } => memory,
        Action::Execute { .. } => memory,
        Action::LoadNext { .. } => memory,
    }
}

/// Whether an action can give back this event. What running a task gives back is
/// up to the task.
pub open spec fn gives(memory: Memory, action: Action, event: Event) -> bool {
    match action {
        Action::SwapTail { .. } => event == Event::Previous(memory.tail),
        Action::LoadState { node } => event == Event::State(memory.nodes[node as int].state),
        Action::TryAcquire => event == Event::Acquire(acquire_step_for(memory.status)),
        Action::Execute { .. } => event is Returned || event is Unwound,
        Action::LoadNext { node } => event == Event::Next(memory.nodes[node as int].next),
        Action::TryClose { node } => event == Event::Closed(memory.tail == Some(node)),
        Action::StoreNext { .. } => event is Stored,
        Action::Release => event is Stored,
        Action::Poison => event is Stored,
        Action::WakeDone { .. } => event is Stored,
        Action::WakeHead { .. } => event is Stored,
        Action::WakePoisoned { .. } => event is Stored,
    }
}

/// Whether an event is of the kind that the action gives back.
pub open spec fn answers(action: Action, event: Event) -> bool {
    match action {
        Action::SwapTail { .. } => event is Previous,
        Action::LoadState { .. } => event is State,
        Action::TryAcquire => event is Acquire,
        Action::Execute { .. } => event is Returned || event is Unwound,
        Action::LoadNext { .. } => event is Next,
        Action::TryClose { .. } => event is Closed,
        Action::StoreNext { .. } => event is Stored,
        Action::Release => event is Stored,
        Action::Poison => event is Stored,
        Action::WakeDone { .. } => event is Stored,
        Action::WakeHead { .. } => event is Stored,
        Action::WakePoisoned { .. } => event is Stored,
    }
}

/// Performs an action other than the run of a task.
pub fn perform(raw: &mut RawLock, nodes: &mut Vec<Node>, action: Action) -> (event: Event)
    requires
        !(action is Execute),
        target(action) matches Some(node) ==> node < old(nodes)@.len(),
    ensures
        gives(memory_of(*old(raw), old(nodes)@), action, event),
        memory_of(*final(raw), final(nodes)@) == effect(
            memory_of(*old(raw), old(nodes)@),
            action,
        ),
        final(nodes)@.len() == old(nodes)@.len(),
{
    let ghost before = memory_of(*raw, nodes@);
    let event = match action {
        Action::SwapTail { node } => Event::Previous(raw.swap_tail(node)),
        Action::StoreNext { previous, node } => {
            nodes[previous].store_next(node);
            Event::Stored
        },
        Action::LoadState { node } => {
            let state: u32 = match nodes[node].wait() {
                None => WAITING,
                Some(state) => state,
            };
            Event::State(state)
        },
        Action::TryAcquire => Event::Acquire(
            match raw.try_acquire() {
                Ok(true) => AcquireStep::Acquired,
                Ok(false) => AcquireStep::Spin,
                Err(_) => AcquireStep::Poisoned,
            },
        ),
        Action::LoadNext { node } => Event::Next(nodes[node].load_next()),
        Action::TryClose { node } => Event::Closed(raw.try_close(node)),
        Action::Release => {
            raw.release();
            Event::Stored
        },
        Action::Poison => {
            raw.poison();
            Event::Stored
        },
        Action::WakeDone { node } => {
            nodes[node].wake_as_done();
            Event::Stored
        },
        Action::WakeHead { node } => {
            nodes[node].wake_as_head();
            Event::Stored
        },
        Action::WakePoisoned { node } => {
            nodes[node].wake_as_poisoned();
            Event::Stored
        },
        Action::Execute { .. } => Event::Returned,
    };
    assert(memory_of(*raw, nodes@).nodes =~= effect(before, action).nodes);
    event
}

} // verus!
