//! Queue nodes.
//!
//! A node belongs to one requester. It links to the node that joined the queue
//! behind it and holds the word on which its requester waits.

use super::futex::{Futex, WaitStep};
use super::rawlock::NodeId;
use vstd::prelude::*;

verus! {

/// State of a node whose task waits to be run.
pub const WAITING: u32 = 0;

/// State of a node whose requester is to run the queue from this node on.
pub const HEAD: u32 = 1;

/// State of a node whose task was run for its requester.
pub const DONE: u32 = 2;

/// State of a node whose task will not be run.
pub const POISONED: u32 = 3;

/// What a node holds.
pub ghost struct NodeView {
    /// The node behind.
    pub next: Option<NodeId>,
    /// The word on which the requester waits.
    pub state: u32,
    /// What the requester was told so far, in this order.
    pub told: Seq<u32>,
}

/// What a node holds that its requester has just made.
pub open spec fn fresh_node() -> NodeView {
    NodeView { next: None, state: WAITING, told: Seq::empty() }
}

/// What a node holds once its requester was told `state`.
pub open spec fn told(node: NodeView, state: u32) -> NodeView {
    NodeView { next: node.next, state, told: node.told.push(state) }
}

/// A node of the waiting queue.
pub struct Node {
    next: Option<NodeId>,
    state: Futex,
    told: Ghost<Seq<u32>>,
}

impl View for Node {
    type V = NodeView;

    closed spec fn view(&self) -> NodeView {
        NodeView { next: self.next, state: self.state.value(), told: self.told@ }
    }
}

impl Node {
    /// A node that is not linked yet.
    pub fn new() -> (node: Self)
        ensures
            node@ == fresh_node(),
    {
        Node { next: None, state: Futex::new(WAITING), told: Ghost(Seq::empty()) }
    }

    /// The node behind this one, once that has linked itself.
    pub fn load_next(&self) -> (next: Option<NodeId>)
        ensures
            next == self@.next,
    {
        self.next
    }

    /// Links `next` behind this node.
    pub fn store_next(&mut self, next: NodeId)
        ensures
            final(self)@ == (NodeView { next: Some(next), ..old(self)@ }),
    {
        self.next = Some(next);
    }

    /// The state, once it is no longer [`WAITING`]; `None` tells the requester to
    /// sleep and look again.
    pub fn wait(&self) -> (state: Option<u32>)
        ensures
            state == (if self@.state == WAITING {
                None::<u32>
            } else {
                Some(self@.state)
            }),
    {
        match self.state.wait(WAITING) {
            WaitStep::Sleep => None,
            WaitStep::Return => Some(self.state.load()),
        }
    }

    /// Stores a state and says whether the requester has to be woken.
    fn wake_as(&mut self, state: u32) -> (wake: bool)
        ensures
            final(self)@ == told(old(self)@, state),
            wake == (old(self)@.state == WAITING),
    {
        proof {
            self.told@ = self.told@.push(state);
        }
        self.state.notify(state, WAITING)
    }

    /// Tells the requester that its task was run, and says whether the requester
    /// has to be woken for that.
    pub fn wake_as_done(&mut self) -> (wake: bool)
        ensures
            final(self)@ == told(old(self)@, DONE),
            wake == (old(self)@.state == WAITING),
    {
        self.wake_as(DONE)
    }

    /// Tells the requester to run the queue from this node on, and says whether
    /// the requester has to be woken for that.
    pub fn wake_as_head(&mut self) -> (wake: bool)
        ensures
            final(self)@ == told(old(self)@, HEAD),
            wake == (old(self)@.state == WAITING),
    {
        self.wake_as(HEAD)
    }

    /// Tells the requester that its task will not be run, and says whether the
    /// requester has to be woken for that.
    pub fn wake_as_poisoned(&mut self) -> (wake: bool)
        ensures
            final(self)@ == told(old(self)@, POISONED),
            wake == (old(self)@.state == WAITING),
    {
        self.wake_as(POISONED)
    }
}

} // verus!
