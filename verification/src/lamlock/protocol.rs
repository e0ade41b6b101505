//! What holds of a lock under every interleaving of its threads.
//!
//! A [`World`] is a lock with all threads that ever asked for it. Requesters that
//! queue are numbered in the order in which they joined, and so are their nodes.
//! Each transition is one atomic action of one thread. The actions follow one another in
//! one order that all threads agree on: what a memory model weaker than sequential
//! consistency adds to that is not considered here.

use super::action::{effect, gives, reply, target, Action, Event, Memory};
use super::attach::{phase_action, phase_next, Outcome, Phase};
use super::bomb::{Fuse, Stage};
use super::node::{fresh_node, NodeView, DONE, HEAD, POISONED, WAITING};
use super::rawlock::{NodeId, LOCKED, UNLOCKED};
use vstd::prelude::*;

verus! {

/// A lock and the threads that share it.
pub ghost struct World {
    /// The words and nodes of the lock.
    pub memory: Memory,
    /// Where each requester of the queue is.
    pub who: Seq<Phase>,
    /// Whether a thread has taken the lock without queuing.
    pub direct: bool,
    /// The nodes whose tasks were run, in the order of the runs.
    pub started: Seq<NodeId>,
    /// For each node, whether its task was run to its end.
    pub completed: Seq<bool>,
}

/// A lock that nobody has asked for yet.
pub open spec fn initial_world() -> World {
    World {
        memory: Memory { status: UNLOCKED, tail: None, nodes: Seq::empty() },
        who: Seq::empty(),
        direct: false,
        started: Seq::empty(),
        completed: Seq::empty(),
    }
}

/// A requester joins the queue with a node of its own.
pub open spec fn joins(w: World, v: World) -> bool {
    let id = w.who.len() as NodeId;
    let fresh = Memory {
        nodes: w.memory.nodes.push(fresh_node()),
        ..w.memory
    };
    &&& w.who.len() < NodeId::MAX
    &&& v == World {
        memory: effect(fresh, Action::SwapTail { node: id }),
        who: w.who.push(phase_next(id, Phase::Joining, Event::Previous(w.memory.tail))),
        completed: w.completed.push(false),
        ..w
    }
}

/// The world after an action of requester `i` that gave back `event`.
pub open spec fn world_after(w: World, i: int, action: Action, event: Event) -> World {
    World {
        memory: effect(w.memory, action),
        who: w.who.update(i, phase_next(i as NodeId, w.who[i], event)),
        started: match action {
            Action::Execute { node } => w.started.push(node),
            _ => w.started,
        },
        completed: match action {
            Action::Execute { node } => if event is Returned {
                w.completed.update(node as int, true)
            } else {
                w.completed
            },
            _ => w.completed,
        },
        ..w
    }
}

/// Requester `i` performs its action, which gives back `event`.
pub open spec fn acts(w: World, v: World, i: int, event: Event) -> bool {
    &&& 0 <= i < w.who.len()
    &&& phase_action(i as NodeId, w.who[i]) matches Some(action) && gives(w.memory, action, event)
        && v == world_after(w, i, action, event)
}

/// It is the turn of requester `i`: it performs its action, unless it is through.
pub open spec fn takes_turn(w: World, v: World, i: int) -> bool {
    if w.who[i] is Finished {
        v == w
    } else {
        exists|event: Event| #[trigger] acts(w, v, i, event)
    }
}

/// Requesters take their turns in a given order.
pub open spec fn takes_turns(w: World, v: World, order: Seq<NodeId>) -> bool
    decreases order.len(),
{
    if order.len() == 0 {
        v == w
    } else {
        exists|m: World| #[trigger]
            takes_turn(m, v, order.last() as int) && takes_turns(w, m, order.drop_last())
    }
}

/// A thread takes the lock without queuing.
pub open spec fn enters(w: World, v: World) -> bool {
    &&& w.memory.status == UNLOCKED
    &&& v == World { memory: effect(w.memory, Action::TryAcquire), direct: true, ..w }
}

/// The thread that took the lock without queuing gives it back.
pub open spec fn leaves(w: World, v: World) -> bool {
    &&& w.direct
    &&& v == World { memory: effect(w.memory, Action::Release), direct: false, ..w }
}

/// The thread that took the lock without queuing unwinds and disables it.
pub open spec fn breaks(w: World, v: World) -> bool {
    &&& w.direct
    &&& v == World { memory: effect(w.memory, Action::Poison), direct: false, ..w }
}

/// One atomic action of one thread.
pub open spec fn transition(w: World, v: World) -> bool {
    ||| joins(w, v)
    ||| exists|i: int, event: Event| acts(w, v, i, event)
    ||| enters(w, v)
    ||| leaves(w, v)
    ||| breaks(w, v)
}

/// Whether `run` is a run of the threads from the beginning on.
pub open spec fn is_run(run: Seq<World>) -> bool {
    &&& run.len() > 0
    &&& run[0] == initial_world()
    &&& forall|k: int| 0 < k < run.len() ==> transition(run[k - 1], #[trigger] run[k])
}

/// The node that a requester works on while the queue is open.
pub open spec fn leading_cursor(phase: Phase) -> Option<NodeId> {
    match phase {
        Phase::Executing { cursor } => Some(cursor),
        Phase::Inspecting { cursor } => Some(cursor),
        Phase::Completing { cursor, .. } => Some(cursor),
        Phase::Closing { cursor } => Some(cursor),
        Phase::AwaitingNext { cursor } => Some(cursor),
        Phase::HandingOver { cursor, .. } => Some(cursor),
        Phase::Detonating { fuse, .. } => if fuse.stage is WakingLast || fuse.stage is Spent {
            None
        } else {
            Some(fuse.atom)
        },
        _ => None,
    }
}

/// The node that a requester still has to wake although it has left the queue to
/// others.
pub open spec fn trailing_cursor(phase: Phase) -> Option<NodeId> {
    match phase {
        Phase::Releasing { cursor } => Some(cursor),
        Phase::Retiring { cursor } => Some(cursor),
        Phase::Detonating { fuse, .. } => if fuse.stage is WakingLast {
            Some(fuse.atom)
        } else {
            None
        },
        _ => None,
    }
}

/// Whether a requester in this phase holds the lock.
pub open spec fn holds_lock(phase: Phase) -> bool {
    match phase {
        Phase::Executing { .. } => true,
        Phase::Inspecting { .. } => true,
        Phase::Completing { .. } => true,
        Phase::Closing { .. } => true,
        Phase::AwaitingNext { .. } => true,
        Phase::HandingOver { .. } => true,
        Phase::Releasing { .. } => true,
        Phase::Detonating { fuse, unwound } => unwound && fuse.stage is Igniting,
        _ => false,
    }
}

/// Whether the lock was left to requester `i`, who has not seen it yet.
pub open spec fn is_promoted(w: World, i: int) -> bool {
    w.who[i] is Waiting && w.memory.nodes[i].state == HEAD
}

/// Whether requester `i` owns the lock.
pub open spec fn owns_lock(w: World, i: int) -> bool {
    holds_lock(w.who[i]) || is_promoted(w, i)
}

/// Whether requester `i` is in charge of the open queue.
pub open spec fn is_in_charge(w: World, i: int) -> bool {
    leading_cursor(w.who[i]) is Some || w.who[i] is Acquiring || is_promoted(w, i)
}

/// Whether a node has been told how its request ended.
pub open spec fn is_woken(w: World, j: int) -> bool {
    w.memory.nodes[j].state == DONE || w.memory.nodes[j].state == POISONED
}

/// Sizes, and the tail word: the queue is open exactly while a node from `front`
/// on exists.
spec fn shape_ok(w: World, front: int) -> bool {
    let n = w.who.len();
    &&& n <= NodeId::MAX
    &&& w.memory.nodes.len() == n
    &&& w.completed.len() == n
    &&& 0 <= front <= n
    &&& front < n ==> w.memory.tail == Some((n - 1) as NodeId)
    &&& front == n ==> w.memory.tail is None
}

/// One requester is in charge of the open queue, and works on its first node.
spec fn charge_ok(w: World, front: int, lead: int) -> bool {
    let n = w.who.len();
    &&& forall|i: int| 0 <= i < n && #[trigger] is_in_charge(w, i) ==> front < n && i == lead
    &&& front < n ==> {
        &&& 0 <= lead <= front
        &&& is_in_charge(w, lead)
        &&& leading_cursor(w.who[lead]) matches Some(cursor) ==> cursor == front
        &&& leading_cursor(w.who[lead]) is None ==> lead == front
        &&& lead < front ==> w.who[front] is Waiting && w.memory.nodes[front].state == WAITING
        &&& !is_woken(w, front)
        &&& w.memory.nodes[front].state == WAITING || w.memory.nodes[front].state == HEAD
        &&& w.memory.nodes[n - 1].next is None
    }
}

/// What the one in charge knows of the link behind the first node.
spec fn link_ok(w: World, front: int, lead: int) -> bool {
    let n = w.who.len();
    let linked = front + 1 < n && w.memory.nodes[front].next == Some((front + 1) as NodeId);
    front < n ==> match w.who[lead] {
        Phase::Completing { next, .. } => linked && next == front + 1,
        Phase::HandingOver { next, .. } => linked && next == front + 1,
        Phase::AwaitingNext { .. } => front + 1 < n,
        Phase::Detonating { fuse, .. } => match fuse.stage {
            Stage::Waking { next } => linked && next == front + 1,
            Stage::Awaiting => front + 1 < n,
            _ => true,
        },
        _ => true,
    }
}

/// A node behind the first waits, linked or about to be.
spec fn live_ok(w: World, j: int) -> bool {
    &&& w.memory.nodes[j].state == WAITING
    &&& !w.completed[j]
    &&& {
        ||| w.who[j] == (Phase::Linking { previous: (j - 1) as NodeId })
            && w.memory.nodes[j - 1].next is None
        ||| w.who[j] is Waiting && w.memory.nodes[j - 1].next == Some(j as NodeId)
    }
}

/// A requester before the first node has nothing to do with the open queue,
/// unless it is in charge of it, and its node is woken or about to be.
spec fn past_ok(w: World, j: int) -> bool {
    &&& {
        ||| w.who[j] is Waiting
        ||| w.who[j] is Finished
        ||| leading_cursor(w.who[j]) is Some
        ||| trailing_cursor(w.who[j]) is Some
    }
    &&& is_woken(w, j) || exists|i: int|
        0 <= i < w.who.len() && trailing_cursor(#[trigger] w.who[i]) == Some(j as NodeId)
}

/// A requester that has left the queue to others wakes a node that nobody else
/// wakes.
spec fn trailing_ok(w: World, front: int, i: int) -> bool {
    trailing_cursor(w.who[i]) matches Some(cursor) ==> {
        &&& i <= cursor < front
        &&& w.memory.nodes[cursor as int].state == WAITING || w.memory.nodes[cursor as int].state
            == HEAD
        &&& cursor != i ==> w.who[cursor as int] is Waiting
            && w.memory.nodes[cursor as int].state == WAITING
        &&& forall|k: int|
            0 <= k < w.who.len() && trailing_cursor(#[trigger] w.who[k]) == Some(cursor) ==> k == i
    }
}

/// The status word says whether somebody owns the lock, and only one does.
spec fn lock_ok(w: World) -> bool {
    let n = w.who.len();
    &&& w.memory.status == UNLOCKED || w.memory.status == LOCKED || w.memory.status
        == super::rawlock::POISONED
    &&& w.direct ==> w.memory.status == LOCKED
    &&& forall|i: int| 0 <= i < n && #[trigger] owns_lock(w, i) ==> w.memory.status == LOCKED
        && !w.direct
    &&& w.memory.status == LOCKED && !w.direct ==> exists|i: int|
        0 <= i < n && #[trigger] owns_lock(w, i)
    &&& forall|i: int, k: int|
        0 <= i < n && 0 <= k < n && #[trigger] owns_lock(w, i) && #[trigger] owns_lock(w, k) ==> i
            == k
}

/// What a phase knows of the tasks that were run.
spec fn phase_ok(w: World, i: int) -> bool {
    match w.who[i] {
        Phase::Joining => false,
        Phase::Linking { .. } => true,
        Phase::Waiting => true,
        Phase::Acquiring => !w.completed[i],
        Phase::Executing { cursor } => !w.completed[cursor as int] && (cursor != i
            ==> w.completed[i]),
        Phase::Inspecting { cursor } => w.completed[cursor as int] && w.completed[i],
        Phase::Completing { cursor, .. } => w.completed[cursor as int] && w.completed[i],
        Phase::Closing { cursor } => w.completed[cursor as int] && w.completed[i],
        Phase::AwaitingNext { cursor } => w.completed[cursor as int] && w.completed[i],
        Phase::HandingOver { cursor, .. } => w.completed[cursor as int] && w.completed[i],
        Phase::Releasing { cursor } => w.completed[cursor as int] && w.completed[i],
        Phase::Retiring { cursor } => w.completed[cursor as int] && w.completed[i],
        Phase::Detonating { fuse, unwound } => {
            &&& !(fuse.stage is Spent)
            &&& w.completed[fuse.atom as int] == fuse.completed
            &&& !unwound ==> !w.completed[i]
            &&& !unwound || !(fuse.stage is Igniting) ==> w.memory.status
                == super::rawlock::POISONED
        },
        Phase::Finished { outcome } => match outcome {
            Outcome::Completed => w.completed[i],
            Outcome::Cancelled => !w.completed[i] && w.memory.status
                == super::rawlock::POISONED,
            Outcome::Unwound => w.memory.status == super::rawlock::POISONED,
        },
    }
}

/// Whether a requester was told what its node holds, to go on at most once, and how its
/// request ended at most once and last.
pub open spec fn is_told_once(node: NodeView) -> bool {
    let told = node.told;
    ||| told.len() == 0 && node.state == WAITING
    ||| told == seq![HEAD] && node.state == HEAD
    ||| told == seq![node.state] && (node.state == DONE || node.state == POISONED)
    ||| told == seq![HEAD, node.state] && (node.state == DONE || node.state == POISONED)
}

/// A woken node was told the truth, and one that is promoted has not been run.
spec fn word_ok(w: World, j: int) -> bool {
    &&& w.memory.nodes[j].state == DONE ==> w.completed[j]
    &&& w.memory.nodes[j].state == POISONED ==> !w.completed[j] && w.memory.status
        == super::rawlock::POISONED
    &&& is_promoted(w, j) ==> !w.completed[j]
    &&& is_told_once(w.memory.nodes[j])
}

/// The tasks were run in the order of joining, and none behind the first node.
spec fn order_ok(w: World, front: int, lead: int) -> bool {
    let n = w.who.len();
    &&& forall|a: int, b: int|
        0 <= a < b < w.started.len() ==> (#[trigger] w.started[a]) < (#[trigger] w.started[b])
    &&& forall|a: int|
        0 <= a < w.started.len() ==> (#[trigger] w.started[a]) <= front && w.started[a] < n
    &&& front < n && (w.who[lead] is Executing || w.who[lead] is Acquiring || is_promoted(w, lead))
        ==> forall|a: int| 0 <= a < w.started.len() ==> (#[trigger] w.started[a]) < front
    &&& forall|j: int|
        0 <= j < n && #[trigger] w.completed[j] ==> w.started.contains(j as NodeId)
}

/// The invariant of all runs, for a first node `front` of the open queue and the
/// requester `lead` in charge of it.
pub closed spec fn consistent_at(w: World, front: int, lead: int) -> bool {
    let n = w.who.len();
    &&& shape_ok(w, front)
    &&& charge_ok(w, front, lead)
    &&& link_ok(w, front, lead)
    &&& forall|j: int| front < j < n ==> #[trigger] live_ok(w, j)
    &&& forall|j: int| 0 <= j < front ==> #[trigger] past_ok(w, j)
    &&& forall|i: int| 0 <= i < n ==> #[trigger] trailing_ok(w, front, i)
    &&& lock_ok(w)
    &&& forall|i: int| 0 <= i < n ==> #[trigger] phase_ok(w, i)
    &&& forall|j: int| 0 <= j < n ==> #[trigger] word_ok(w, j)
    &&& order_ok(w, front, lead)
}

/// The invariant of all runs.
pub open spec fn consistent(w: World) -> bool {
    exists|front: int, lead: int| consistent_at(w, front, lead)
}

/// The beginning is consistent.
pub proof fn initial_is_consistent()
    ensures
        consistent(initial_world()),
{
    assert(consistent_at(initial_world(), 0, 0));
}

proof fn lemma_joins(w: World, v: World, front: int, lead: int)
    requires
        consistent_at(w, front, lead),
        joins(w, v),
    ensures
        consistent(v),
{
    let n = w.who.len() as int;
    let new_lead = if front == n {
        n
    } else {
        lead
    };
    assert(shape_ok(v, front));
    assert(charge_ok(v, front, new_lead)) by {
        assert forall|i: int| 0 <= i < n + 1 && #[trigger] is_in_charge(v, i) implies front < n + 1
            && i == new_lead by {
            if i < n {
                assert(is_in_charge(w, i));
            }
        }
        if front < n {
            assert(is_in_charge(w, lead));
        }
    }
    assert(link_ok(v, front, new_lead));
    assert forall|j: int| front < j < n + 1 implies #[trigger] live_ok(v, j) by {
        if j < n {
            assert(live_ok(w, j));
        }
    }
    assert forall|j: int| 0 <= j < front implies #[trigger] past_ok(v, j) by {
        assert(past_ok(w, j));
        if !is_woken(w, j) {
            let i = choose|i: int|
                0 <= i < w.who.len() && trailing_cursor(#[trigger] w.who[i]) == Some(j as NodeId);
            assert(v.who[i] == w.who[i]);
        }
    }
    assert forall|i: int| 0 <= i < n + 1 implies #[trigger] trailing_ok(v, front, i) by {
        if i < n {
            assert(trailing_ok(w, front, i));
        }
    }
    assert(lock_ok(v)) by {
        assert forall|i: int| 0 <= i < n implies owns_lock(v, i) == owns_lock(w, i) by {}
        assert(!owns_lock(v, n));
        if w.memory.status == LOCKED && !w.direct {
            let i = choose|i: int| 0 <= i < n && #[trigger] owns_lock(w, i);
            assert(owns_lock(v, i));
        }
    }
    assert forall|i: int| 0 <= i < n + 1 implies #[trigger] phase_ok(v, i) by {
        if i < n {
            assert(phase_ok(w, i));
            assert(trailing_ok(w, front, i));
            if leading_cursor(w.who[i]) is Some {
                assert(is_in_charge(w, i));
            }
        }
    }
    assert forall|j: int| 0 <= j < n + 1 implies #[trigger] word_ok(v, j) by {
        if j < n {
            assert(word_ok(w, j));
        }
    }
    assert(order_ok(v, front, new_lead));
    assert(consistent_at(v, front, new_lead));
}

/// The first node of the open queue after requester `i` has acted.
spec fn front_after(w: World, i: int, event: Event, front: int) -> int {
    match w.who[i] {
        Phase::Completing { .. } => front + 1,
        Phase::HandingOver { .. } => front + 1,
        Phase::Closing { .. } => if event == Event::Closed(true) {
            w.who.len() as int
        } else {
            front
        },
        Phase::Detonating { fuse, .. } => match fuse.stage {
            Stage::Waking { .. } => front + 1,
            Stage::Sealing => if event == Event::Closed(true) {
                w.who.len() as int
            } else {
                front
            },
            _ => front,
        },
        _ => front,
    }
}

/// The requester in charge after requester `i` has acted.
spec fn lead_after(w: World, i: int, front: int, lead: int) -> int {
    if w.who[i] is HandingOver {
        front + 1
    } else {
        lead
    }
}

/// What holds of requester `i` by where it is.
proof fn lemma_actor(w: World, i: int, front: int, lead: int)
    requires
        consistent_at(w, front, lead),
        0 <= i < w.who.len(),
    ensures
        phase_ok(w, i),
        trailing_ok(w, front, i),
        word_ok(w, i),
        is_in_charge(w, i) <==> front < w.who.len() && i == lead,
        leading_cursor(w.who[i]) matches Some(cursor) ==> cursor == front,
        w.who[i] is Acquiring || is_promoted(w, i) ==> i == front,
        w.who[i] is Linking ==> front < i && live_ok(w, i),
        front + 1 < w.who.len() ==> live_ok(w, front + 1),
        i < front ==> past_ok(w, i),
        front < i ==> live_ok(w, i),
{
    assert(phase_ok(w, i));
    assert(trailing_ok(w, front, i));
    assert(word_ok(w, i));
    assert(i < front ==> past_ok(w, i));
    assert(front < i ==> live_ok(w, i));
    assert(front + 1 < w.who.len() ==> live_ok(w, front + 1));
    assert(front < w.who.len() ==> is_in_charge(w, lead));
    assert(is_in_charge(w, i) ==> i == lead);
}

proof fn lemma_acts_shape(w: World, v: World, i: int, event: Event, front: int, lead: int)
    requires
        consistent_at(w, front, lead),
        acts(w, v, i, event),
    ensures
        shape_ok(v, front_after(w, i, event, front)),
{
    lemma_actor(w, i, front, lead);
}

proof fn lemma_acts_charge(w: World, v: World, i: int, event: Event, front: int, lead: int)
    requires
        consistent_at(w, front, lead),
        acts(w, v, i, event),
    ensures
        charge_ok(v, front_after(w, i, event, front), lead_after(w, i, front, lead)),
{
    let n = w.who.len() as int;
    let f = front_after(w, i, event, front);
    let l = lead_after(w, i, front, lead);
    lemma_actor(w, i, front, lead);
    assert forall|k: int| 0 <= k < n && #[trigger] is_in_charge(v, k) implies f < n && k == l by {
        lemma_actor(w, k, front, lead);
    }
    if f < n {
        lemma_actor(w, lead, front, lead);
        assert(is_in_charge(v, l));
    }
}

proof fn lemma_acts_link(w: World, v: World, i: int, event: Event, front: int, lead: int)
    requires
        consistent_at(w, front, lead),
        acts(w, v, i, event),
    ensures
        link_ok(v, front_after(w, i, event, front), lead_after(w, i, front, lead)),
{
    lemma_actor(w, i, front, lead);
    if front < w.who.len() {
        lemma_actor(w, lead, front, lead);
    }
}

proof fn lemma_acts_live(w: World, v: World, i: int, event: Event, front: int, lead: int)
    requires
        consistent_at(w, front, lead),
        acts(w, v, i, event),
    ensures
        forall|j: int|
            front_after(w, i, event, front) < j < v.who.len() ==> #[trigger] live_ok(v, j),
{
    lemma_actor(w, i, front, lead);
    assert forall|j: int| front_after(w, i, event, front) < j < v.who.len() implies
        #[trigger] live_ok(v, j) by {
        lemma_actor(w, j, front, lead);
    }
}

proof fn lemma_acts_past(w: World, v: World, i: int, event: Event, front: int, lead: int)
    requires
        consistent_at(w, front, lead),
        acts(w, v, i, event),
    ensures
        forall|j: int| 0 <= j < front_after(w, i, event, front) ==> #[trigger] past_ok(v, j),
{
    lemma_actor(w, i, front, lead);
    assert forall|j: int| 0 <= j < front_after(w, i, event, front) implies #[trigger] past_ok(
        v,
        j,
    ) by {
        lemma_actor(w, j, front, lead);
        if !is_woken(v, j) {
            if j < front {
                let k = choose|k: int|
                    0 <= k < w.who.len() && trailing_cursor(#[trigger] w.who[k]) == Some(
                        j as NodeId,
                    );
                assert(trailing_cursor(v.who[k]) == Some(j as NodeId));
            } else {
                assert(trailing_cursor(v.who[i]) == Some(j as NodeId));
            }
        }
    }
}

proof fn lemma_acts_trailing(w: World, v: World, i: int, event: Event, front: int, lead: int)
    requires
        consistent_at(w, front, lead),
        acts(w, v, i, event),
    ensures
        forall|k: int|
            0 <= k < v.who.len() ==> #[trigger] trailing_ok(
                v,
                front_after(w, i, event, front),
                k,
            ),
{
    lemma_actor(w, i, front, lead);
    assert forall|k: int| 0 <= k < v.who.len() implies #[trigger] trailing_ok(
        v,
        front_after(w, i, event, front),
        k,
    ) by {
        lemma_actor(w, k, front, lead);
        if let Some(cursor) = trailing_cursor(v.who[k]) {
            lemma_actor(w, cursor as int, front, lead);
            assert forall|m: int|
                0 <= m < v.who.len() && trailing_cursor(#[trigger] v.who[m]) == Some(
                    cursor,
                ) implies m == k by {
                lemma_actor(w, m, front, lead);
            }
        }
    }
}

/// What follows for the lock if a requester owns it.
proof fn lemma_owner(w: World, k: int, m: int)
    requires
        lock_ok(w),
        0 <= k < w.who.len(),
        0 <= m < w.who.len(),
    ensures
        owns_lock(w, k) ==> w.memory.status == LOCKED && !w.direct,
        owns_lock(w, k) && owns_lock(w, m) ==> k == m,
{
}

proof fn lemma_acts_lock(w: World, v: World, i: int, event: Event, front: int, lead: int)
    requires
        consistent_at(w, front, lead),
        acts(w, v, i, event),
    ensures
        lock_ok(v),
{
    let n = w.who.len() as int;
    lemma_actor(w, i, front, lead);
    lemma_owner(w, i, i);
    assert forall|k: int| 0 <= k < n && #[trigger] owns_lock(v, k) implies v.memory.status == LOCKED
        && !v.direct by {
        lemma_actor(w, k, front, lead);
        lemma_owner(w, k, i);
        lemma_owner(w, i, k);
    }
    assert forall|k: int, m: int|
        0 <= k < n && 0 <= m < n && #[trigger] owns_lock(v, k) && #[trigger] owns_lock(
            v,
            m,
        ) implies k == m by {
        lemma_actor(w, k, front, lead);
        lemma_actor(w, m, front, lead);
        lemma_owner(w, k, m);
        lemma_owner(w, m, i);
        lemma_owner(w, i, k);
    }
    if v.memory.status == LOCKED && !v.direct {
        if w.memory.status == LOCKED {
            let k = choose|k: int| 0 <= k < n && #[trigger] owns_lock(w, k);
            lemma_actor(w, k, front, lead);
            if k != i {
                assert(owns_lock(v, k));
            } else if w.who[i] is HandingOver {
                assert(owns_lock(v, front + 1));
            } else {
                assert(owns_lock(v, i));
            }
        } else {
            assert(owns_lock(v, i));
        }
    }
}

proof fn lemma_acts_phase(w: World, v: World, i: int, event: Event, front: int, lead: int)
    requires
        consistent_at(w, front, lead),
        acts(w, v, i, event),
    ensures
        forall|k: int| 0 <= k < v.who.len() ==> #[trigger] phase_ok(v, k),
{
    lemma_actor(w, i, front, lead);
    assert forall|k: int| 0 <= k < v.who.len() implies #[trigger] phase_ok(v, k) by {
        lemma_actor(w, k, front, lead);
        lemma_owner(w, i, k);
    }
}

proof fn lemma_acts_word(w: World, v: World, i: int, event: Event, front: int, lead: int)
    requires
        consistent_at(w, front, lead),
        acts(w, v, i, event),
    ensures
        forall|j: int| 0 <= j < v.who.len() ==> #[trigger] word_ok(v, j),
{
    lemma_actor(w, i, front, lead);
    assert forall|j: int| 0 <= j < v.who.len() implies #[trigger] word_ok(v, j) by {
        lemma_actor(w, j, front, lead);
        lemma_owner(w, i, j);
        let told = w.memory.nodes[j].told;
        assert(v.memory.nodes[j].told =~= told || v.memory.nodes[j].told =~= told.push(
            v.memory.nodes[j].state,
        ));
        assert(told.len() == 0 ==> told.push(v.memory.nodes[j].state)
            =~= seq![v.memory.nodes[j].state]);
        assert(told == seq![HEAD] ==> told.push(v.memory.nodes[j].state)
            =~= seq![HEAD, v.memory.nodes[j].state]);
    }
}

proof fn lemma_acts_order(w: World, v: World, i: int, event: Event, front: int, lead: int)
    requires
        consistent_at(w, front, lead),
        acts(w, v, i, event),
    ensures
        order_ok(v, front_after(w, i, event, front), lead_after(w, i, front, lead)),
{
    lemma_actor(w, i, front, lead);
    if front < w.who.len() {
        lemma_actor(w, lead, front, lead);
    }
    assert forall|j: int| 0 <= j < v.who.len() && #[trigger] v.completed[j] implies
        v.started.contains(j as NodeId) by {
        if w.completed[j] {
            let a = choose|a: int| 0 <= a < w.started.len() && w.started[a] == j as NodeId;
            assert(v.started[a] == j as NodeId);
        } else {
            assert(v.started[w.started.len() as int] == j as NodeId);
        }
    }
}

/// Every action of a requester keeps the invariant.
proof fn lemma_acts(w: World, v: World, i: int, event: Event, front: int, lead: int)
    requires
        consistent_at(w, front, lead),
        acts(w, v, i, event),
    ensures
        consistent(v),
{
    lemma_acts_shape(w, v, i, event, front, lead);
    lemma_acts_charge(w, v, i, event, front, lead);
    lemma_acts_link(w, v, i, event, front, lead);
    lemma_acts_live(w, v, i, event, front, lead);
    lemma_acts_past(w, v, i, event, front, lead);
    lemma_acts_trailing(w, v, i, event, front, lead);
    lemma_acts_lock(w, v, i, event, front, lead);
    lemma_acts_phase(w, v, i, event, front, lead);
    lemma_acts_word(w, v, i, event, front, lead);
    lemma_acts_order(w, v, i, event, front, lead);
    assert(consistent_at(
        v,
        front_after(w, i, event, front),
        lead_after(w, i, front, lead),
    ));
}

/// So does a thread that takes the lock without queuing, and what it does then.
proof fn lemma_direct(w: World, v: World, front: int, lead: int)
    requires
        consistent_at(w, front, lead),
        enters(w, v) || leaves(w, v) || breaks(w, v),
    ensures
        consistent(v),
{
    let n = w.who.len() as int;
    assert forall|k: int| 0 <= k < n implies owns_lock(v, k) == owns_lock(w, k) by {}
    assert forall|k: int| 0 <= k < n implies is_in_charge(v, k) == is_in_charge(w, k) by {}
    assert(charge_ok(v, front, lead));
    assert forall|j: int| front < j < n implies #[trigger] live_ok(v, j) by {
        assert(live_ok(w, j));
    }
    assert forall|j: int| 0 <= j < front implies #[trigger] past_ok(v, j) by {
        assert(past_ok(w, j));
    }
    assert forall|k: int| 0 <= k < n implies #[trigger] trailing_ok(v, front, k) by {
        assert(trailing_ok(w, front, k));
    }
    assert forall|k: int| 0 <= k < n implies #[trigger] phase_ok(v, k) by {
        assert(phase_ok(w, k));
    }
    assert forall|j: int| 0 <= j < n implies #[trigger] word_ok(v, j) by {
        assert(word_ok(w, j));
    }
    assert(lock_ok(v));
    assert(consistent_at(v, front, lead));
}

/// No action of any thread leaves the consistent worlds.
pub proof fn transition_keeps_consistent(w: World, v: World)
    requires
        consistent(w),
        transition(w, v),
    ensures
        consistent(v),
{
    let (front, lead) = choose|front: int, lead: int| consistent_at(w, front, lead);
    if joins(w, v) {
        lemma_joins(w, v, front, lead);
    } else if exists|i: int, event: Event| acts(w, v, i, event) {
        let (i, event) = choose|i: int, event: Event| acts(w, v, i, event);
        lemma_acts(w, v, i, event, front, lead);
    } else {
        lemma_direct(w, v, front, lead);
    }
}

/// Every world of every run is consistent.
pub proof fn runs_stay_consistent(run: Seq<World>, k: int)
    requires
        is_run(run),
        0 <= k < run.len(),
    ensures
        consistent(run[k]),
    decreases k,
{
    if k == 0 {
        initial_is_consistent();
    } else {
        runs_stay_consistent(run, k - 1);
        transition_keeps_consistent(run[k - 1], run[k]);
    }
}

/// A task is only run by a thread that holds the lock, and no two threads hold it.
pub proof fn one_thread_holds_the_lock(w: World, i: int, k: int)
    requires
        consistent(w),
        0 <= i < w.who.len(),
        0 <= k < w.who.len(),
    ensures
        holds_lock(w.who[i]) && holds_lock(w.who[k]) ==> i == k,
        holds_lock(w.who[i]) ==> !w.direct && w.memory.status == LOCKED,
        w.direct ==> w.memory.status == LOCKED,
        phase_action(i as NodeId, w.who[i]) matches Some(Action::Execute { .. }) ==> holds_lock(
            w.who[i],
        ),
{
    let (front, lead) = choose|front: int, lead: int| consistent_at(w, front, lead);
    lemma_owner(w, i, k);
}

/// A thread that has taken the lock without queuing holds it, and no requester does.
pub proof fn direct_thread_holds_the_lock(w: World)
    requires
        consistent(w),
        w.direct,
    ensures
        w.memory.status == LOCKED,
        forall|i: int| 0 <= i < w.who.len() ==> !holds_lock(#[trigger] w.who[i]),
{
    assert forall|i: int| 0 <= i < w.who.len() implies !holds_lock(#[trigger] w.who[i]) by {
        one_thread_holds_the_lock(w, i, i);
    }
}

/// Tasks are run in the order in which their requesters joined, each at most once.
pub proof fn tasks_run_in_order(w: World, a: int, b: int)
    requires
        consistent(w),
        0 <= a < b < w.started.len(),
    ensures
        w.started[a] < w.started[b],
{
}

/// Only tasks of requesters that have joined are run.
pub proof fn only_joined_tasks_run(w: World, a: int)
    requires
        consistent(w),
        0 <= a < w.started.len(),
    ensures
        w.started[a] < w.who.len(),
{
}

/// No task is run twice: one that is about to be run has not been run before.
pub proof fn tasks_run_once(w: World, i: int, cursor: NodeId)
    requires
        consistent(w),
        0 <= i < w.who.len(),
        w.who[i] == (Phase::Executing { cursor }),
    ensures
        cursor < w.who.len(),
        !w.started.contains(cursor),
        !w.completed[cursor as int],
{
    let (front, lead) = choose|front: int, lead: int| consistent_at(w, front, lead);
    lemma_actor(w, i, front, lead);
}

/// A request that ends as completed had its task run to its end. One that ends as
/// cancelled had not, and ends so only on a disabled lock.
pub proof fn outcomes_are_true(w: World, i: int)
    requires
        consistent(w),
        0 <= i < w.who.len(),
    ensures
        w.completed[i] ==> w.started.contains(i as NodeId),
        w.who[i] == (Phase::Finished { outcome: Outcome::Completed }) ==> w.completed[i],
        w.who[i] == (Phase::Finished { outcome: Outcome::Cancelled }) ==> !w.completed[i],
        w.who[i] matches Phase::Finished { outcome } && outcome != Outcome::Completed
            ==> w.memory.status == super::rawlock::POISONED,
{
    let (front, lead) = choose|front: int, lead: int| consistent_at(w, front, lead);
    lemma_actor(w, i, front, lead);
}

/// No requester is told twice to go on, nor twice how its request ended.
pub proof fn requesters_are_told_once(w: World, i: int)
    requires
        consistent(w),
        0 <= i < w.who.len(),
    ensures
        is_told_once(w.memory.nodes[i]),
{
    let (front, lead) = choose|front: int, lead: int| consistent_at(w, front, lead);
    lemma_actor(w, i, front, lead);
}

/// A requester may reclaim its node when it is through: no other thread touches the
/// node any more.
pub proof fn no_access_after_return(w: World, i: int)
    requires
        consistent(w),
        0 <= i < w.who.len(),
    ensures
        phase_action(i as NodeId, w.who[i]) matches Some(action) ==> (target(action) matches Some(
            node,
        ) ==> node < w.who.len() && !(w.who[node as int] is Finished)),
{
    let (front, lead) = choose|front: int, lead: int| consistent_at(w, front, lead);
    lemma_actor(w, i, front, lead);
    if front < w.who.len() {
        lemma_actor(w, front, front, lead);
    }
    if front < i {
        lemma_actor(w, i - 1, front, lead);
    }
}

/// A combiner runs the tasks of others: if a node is linked behind the one whose task it has
/// run, it tells the requester of the latter so, and then runs the task of the former itself.
/// It keeps the lock for all that.
pub proof fn linked_tasks_are_combined(
    w: World,
    v: World,
    i: int,
    event: Event,
    cursor: NodeId,
    next: NodeId,
)
    requires
        consistent(w),
        acts(w, v, i, event),
    ensures
        w.who[i] == (Phase::Inspecting { cursor }) && w.memory.nodes[cursor as int].next == Some(
            next,
        ) ==> v.memory == w.memory && v.who[i] == (Phase::Completing { cursor, next }),
        w.who[i] == (Phase::Completing { cursor, next }) ==> v.memory.nodes[cursor as int].state
            == DONE && v.memory.status == LOCKED && v.who[i] == (Phase::Executing { cursor: next }),
        w.who[i] == (Phase::Executing { cursor }) ==> v.started == w.started.push(cursor)
            && v.memory == w.memory,
        w.who[i] == (Phase::Executing { cursor }) && event is Returned ==> v.who[i] == (
        Phase::Inspecting { cursor }),
{
    one_thread_holds_the_lock(w, i, i);
    let (front, lead) = choose|front: int, lead: int| consistent_at(w, front, lead);
    lemma_actor(w, i, front, lead);
}

/// A combiner leaves the lock to another requester only where it could not close the queue,
/// since another node has joined. It gives the lock back only once the queue is closed.
pub proof fn lock_is_left_only_with_an_open_queue(w: World, v: World, i: int, event: Event)
    requires
        consistent(w),
        acts(w, v, i, event),
    ensures
        v.who[i] matches Phase::AwaitingNext { cursor } ==> w.who[i] == v.who[i] || w.who[i] == (
        Phase::Closing { cursor }) && w.memory.tail != Some(cursor),
        v.who[i] matches Phase::HandingOver { cursor, next } ==> w.who[i] == (
        Phase::AwaitingNext { cursor }) && w.memory.nodes[cursor as int].next == Some(next),
        w.who[i] matches Phase::HandingOver { next, .. } ==> v.memory.nodes[next as int].state
            == HEAD && v.memory.status == LOCKED,
        (exists|j: int|
            0 <= j < w.who.len() && w.memory.nodes[j].state != HEAD && (
            #[trigger] v.memory.nodes[j]).state == HEAD) ==> w.who[i] is HandingOver,
        w.memory.status == LOCKED && v.memory.status == UNLOCKED ==> w.who[i] is Releasing
            && w.memory.tail != Some(w.who[i]->Releasing_cursor),
        w.memory.tail is Some && v.memory.tail is None ==> {
            ||| w.who[i] matches Phase::Closing { cursor } && w.memory.tail == Some(cursor)
            ||| w.who[i] is Detonating
        },
{
    one_thread_holds_the_lock(w, i, i);
    let (front, lead) = choose|front: int, lead: int| consistent_at(w, front, lead);
    lemma_actor(w, i, front, lead);
}

/// A combiner through which a task unwinds disables the lock before anything else. So does one
/// that finds the lock disabled. The queue is cancelled from the node on that it has come to.
pub proof fn unwinding_disables_the_lock(w: World, v: World, i: int, event: Event)
    requires
        consistent(w),
        acts(w, v, i, event),
    ensures
        w.who[i] matches Phase::Executing { cursor } ==> (event is Unwound ==> v.who[i] == (
        Phase::Detonating {
            fuse: Fuse { atom: cursor, completed: false, stage: Stage::Igniting },
            unwound: true,
        })),
        w.who[i] is Acquiring && w.memory.status == super::rawlock::POISONED ==> v.who[i] == (
        Phase::Detonating {
            fuse: Fuse { atom: i as NodeId, completed: false, stage: Stage::Igniting },
            unwound: false,
        }),
        w.who[i] matches Phase::Detonating { fuse, .. } ==> (fuse.stage is Igniting
            ==> v.memory.status == super::rawlock::POISONED && v.memory.nodes == w.memory.nodes),
        v.memory.status == super::rawlock::POISONED && w.memory.status
            != super::rawlock::POISONED ==> w.who[i] is Detonating,
{
}

/// A requester to whom the lock was left runs the queue from its own node on.
pub proof fn promoted_requesters_combine(w: World, v: World, i: int, event: Event)
    requires
        consistent(w),
        acts(w, v, i, event),
        is_promoted(w, i),
    ensures
        v.memory == w.memory,
        v.who[i] == (Phase::Executing { cursor: i as NodeId }),
{
}

/// Whether requester `k` is to wake the node of requester `i`: right after what it is
/// doing, or since it is in charge of the open queue and has not passed the node yet.
pub open spec fn serves(w: World, k: int, i: int) -> bool {
    ||| trailing_cursor(w.who[k]) == Some(i as NodeId)
    ||| is_in_charge(w, k) && match leading_cursor(w.who[k]) {
        Some(cursor) => cursor <= i,
        None => k < i,
    }
}

/// A requester always has something to do until it is through.
pub proof fn requesters_go_on(w: World, i: int)
    requires
        consistent(w),
        0 <= i < w.who.len(),
    ensures
        phase_action(i as NodeId, w.who[i]) is None <==> w.who[i] is Finished,
{
    let (front, lead) = choose|front: int, lead: int| consistent_at(w, front, lead);
    lemma_actor(w, i, front, lead);
}

/// No wake-up is lost: for a requester that sleeps, another one is to wake it.
pub proof fn sleepers_are_served(w: World, i: int)
    requires
        consistent(w),
        0 <= i < w.who.len(),
        w.who[i] is Waiting,
        w.memory.nodes[i].state == WAITING,
    ensures
        exists|k: int| 0 <= k < w.who.len() && k != i && #[trigger] serves(w, k, i),
{
    let (front, lead) = choose|front: int, lead: int| consistent_at(w, front, lead);
    lemma_actor(w, i, front, lead);
    if i < front {
        let k = choose|k: int|
            0 <= k < w.who.len() && trailing_cursor(#[trigger] w.who[k]) == Some(i as NodeId);
        assert(serves(w, k, i));
    } else {
        lemma_actor(w, lead, front, lead);
        assert(serves(w, lead, i));
    }
}

/// A requester that spins for a link does not spin for nothing: the link is there, or
/// the requester that joined behind is about to set it.
pub proof fn awaited_links_come(w: World, i: int, cursor: NodeId)
    requires
        consistent(w),
        0 <= i < w.who.len(),
        w.who[i] == (Phase::AwaitingNext { cursor }) || (w.who[i] matches Phase::Detonating {
            fuse,
            ..
        } && fuse.atom == cursor && fuse.stage is Awaiting),
    ensures
        cursor + 1 < w.who.len(),
        w.memory.nodes[cursor as int].next == Some((cursor + 1) as NodeId)
            || w.who[cursor + 1] == (Phase::Linking { previous: cursor }),
{
    let (front, lead) = choose|front: int, lead: int| consistent_at(w, front, lead);
    lemma_actor(w, i, front, lead);
}

/// A disabled lock stays disabled, and no task is run on it any more.
pub proof fn disabled_stays_disabled(w: World, v: World)
    requires
        consistent(w),
        w.memory.status == super::rawlock::POISONED,
        transition(w, v),
    ensures
        v.memory.status == super::rawlock::POISONED,
        v.started == w.started,
        v.completed.len() >= w.completed.len(),
        forall|j: int| 0 <= j < w.completed.len() ==> v.completed[j] == w.completed[j],
{
    let (front, lead) = choose|front: int, lead: int| consistent_at(w, front, lead);
    if exists|i: int, event: Event| acts(w, v, i, event) {
        let (i, event) = choose|i: int, event: Event| acts(w, v, i, event);
        lemma_actor(w, i, front, lead);
        lemma_owner(w, i, i);
    }
}

/// Whether nothing has unwound through a thread in the lock.
pub open spec fn is_healthy(w: World) -> bool {
    &&& w.memory.status == UNLOCKED || w.memory.status == LOCKED
    &&& forall|i: int| 0 <= i < w.who.len() ==> !((#[trigger] w.who[i]) is Detonating)
}

/// A lock through whose threads nothing unwinds stays usable.
pub proof fn caught_panics_do_no_harm(w: World, v: World)
    requires
        consistent(w),
        is_healthy(w),
        joins(w, v) || enters(w, v) || leaves(w, v) || exists|i: int, event: Event|
            acts(w, v, i, event) && !(event is Unwound),
    ensures
        is_healthy(v),
{
    if exists|i: int, event: Event| acts(w, v, i, event) && !(event is Unwound) {
        let (i, event) = choose|i: int, event: Event|
            acts(w, v, i, event) && !(event is Unwound);
        assert(!(w.who[i] is Detonating));
    }
}

/// On such a lock every request ends as completed.
pub proof fn healthy_requests_complete(w: World, i: int)
    requires
        consistent(w),
        is_healthy(w),
        0 <= i < w.who.len(),
        w.who[i] is Finished,
    ensures
        w.who[i] == (Phase::Finished { outcome: Outcome::Completed }),
        w.completed[i],
{
    outcomes_are_true(w, i);
}

/// When all requesters are through and no thread holds the lock, the queue is closed
/// and the lock is not left taken.
pub proof fn idle_lock_is_free(w: World)
    requires
        consistent(w),
        !w.direct,
        forall|i: int| 0 <= i < w.who.len() ==> (#[trigger] w.who[i]) is Finished,
    ensures
        w.memory.tail is None,
        w.memory.status != LOCKED,
{
    let (front, lead) = choose|front: int, lead: int| consistent_at(w, front, lead);
    if front < w.who.len() {
        lemma_actor(w, lead, front, lead);
    }
}

/// How much is left to do for requester `i` at most.
pub open spec fn work(w: World, i: int) -> int {
    let n = w.who.len() as int;
    match w.who[i] {
        Phase::Joining => 12 * n + 15,
        Phase::Linking { .. } => 12 * n + 14,
        Phase::Waiting => 12 * n + 13,
        Phase::Acquiring => 12 * n + 12,
        Phase::Executing { cursor } => 12 * (n - cursor) + 9,
        Phase::Inspecting { cursor } => 12 * (n - cursor) + 5,
        Phase::Completing { cursor, .. } => 12 * (n - cursor) + 4,
        Phase::Closing { cursor } => 12 * (n - cursor) + 4,
        Phase::AwaitingNext { cursor } => 12 * (n - cursor) + 3,
        Phase::HandingOver { cursor, .. } => 12 * (n - cursor) + 2,
        Phase::Releasing { .. } => 2,
        Phase::Retiring { .. } => 1,
        Phase::Detonating { fuse, .. } => match fuse.stage {
            Stage::Igniting => 12 * (n - fuse.atom) + 8,
            Stage::Sweeping => if w.memory.nodes[fuse.atom as int].next is None {
                12 * (n - fuse.atom) + 7
            } else {
                12 * (n - fuse.atom) + 4
            },
            Stage::Sealing => 12 * (n - fuse.atom) + 6,
            Stage::Awaiting => 12 * (n - fuse.atom) + 5,
            Stage::Waking { .. } => 12 * (n - fuse.atom) + 3,
            Stage::WakingLast => 1,
            Stage::Spent => 0,
        },
        Phase::Finished { .. } => 0,
    }
}

/// How much is left to do for the first `count` requesters at most.
pub open spec fn total_work(w: World, count: nat) -> int
    decreases count,
{
    if count == 0 {
        0
    } else {
        total_work(w, (count - 1) as nat) + work(w, count - 1)
    }
}

/// An action uses up work of the requester that acts, and gives no other one more to do.
proof fn lemma_work(w: World, v: World, i: int, event: Event, front: int, lead: int, k: int)
    requires
        consistent_at(w, front, lead),
        acts(w, v, i, event),
        0 <= k < w.who.len(),
    ensures
        0 <= work(v, k),
        k != i ==> work(v, k) <= work(w, k),
        k == i && v.who[i] != w.who[i] ==> work(v, k) < work(w, k),
        k == i && v.who[i] == w.who[i] ==> work(v, k) <= work(w, k),
{
    lemma_actor(w, i, front, lead);
    lemma_actor(w, k, front, lead);
    lemma_acts(w, v, i, event, front, lead);
}

proof fn lemma_total_work(w: World, v: World, i: int, event: Event, count: nat)
    requires
        consistent(w),
        acts(w, v, i, event),
        count <= w.who.len(),
    ensures
        0 <= total_work(v, count) <= total_work(w, count),
        i < count && v.who[i] != w.who[i] ==> total_work(v, count) < total_work(w, count),
    decreases count,
{
    if count > 0 {
        let (front, lead) = choose|front: int, lead: int| consistent_at(w, front, lead);
        lemma_total_work(w, v, i, event, (count - 1) as nat);
        lemma_work(w, v, i, event, front, lead, count - 1);
    }
}

/// Requesters do not go round in circles: an action that takes a requester anywhere uses
/// up some of the work that is left.
pub proof fn actions_use_up_work(w: World, v: World, i: int, event: Event)
    requires
        consistent(w),
        acts(w, v, i, event),
    ensures
        0 <= total_work(v, v.who.len()) <= total_work(w, w.who.len()),
        v.who[i] != w.who[i] ==> total_work(v, v.who.len()) < total_work(w, w.who.len()),
{
    lemma_total_work(w, v, i, event, w.who.len());
}

/// Whether an action of requester `i` takes it anywhere.
pub open spec fn can_go_on(w: World, i: int) -> bool {
    &&& 0 <= i < w.who.len()
    &&& exists|v: World, event: Event| #[trigger] acts(w, v, i, event) && v.who[i] != w.who[i]
}

/// A requester that does not wait for another one can go on.
proof fn lemma_goes_on(w: World, i: int)
    requires
        consistent(w),
        0 <= i < w.who.len(),
        !(w.who[i] is Finished),
        w.who[i] is Waiting ==> w.memory.nodes[i].state != WAITING,
        w.who[i] is Acquiring ==> w.memory.status != LOCKED,
        w.who[i] matches Phase::AwaitingNext { cursor } ==> w.memory.nodes[cursor as int].next
            is Some,
        w.who[i] matches Phase::Detonating { fuse, .. } ==> fuse.stage is Awaiting
            ==> w.memory.nodes[fuse.atom as int].next is Some,
    ensures
        can_go_on(w, i),
{
    let (front, lead) = choose|front: int, lead: int| consistent_at(w, front, lead);
    lemma_actor(w, i, front, lead);
    requesters_go_on(w, i);
    if i < front && !is_woken(w, i) {
        let k = choose|k: int|
            0 <= k < w.who.len() && trailing_cursor(#[trigger] w.who[k]) == Some(i as NodeId);
        lemma_actor(w, k, front, lead);
    }
    let action = phase_action(i as NodeId, w.who[i])->0;
    let event = reply(w.memory, action);
    let v = world_after(w, i, action, event);
    assert(acts(w, v, i, event));
    assert(v.who[i] != w.who[i]);
}

/// The lock does not block itself: as long as a requester is not through, and no thread
/// holds the lock without queuing, some requester can go on.
pub proof fn some_requester_can_go_on(w: World, i: int)
    requires
        consistent(w),
        !w.direct,
        0 <= i < w.who.len(),
        !(w.who[i] is Finished),
    ensures
        exists|k: int| #[trigger] can_go_on(w, k),
{
    let (front, lead) = choose|front: int, lead: int| consistent_at(w, front, lead);
    let n = w.who.len();
    lemma_actor(w, i, front, lead);
    if front < n {
        lemma_actor(w, lead, front, lead);
        if w.who[lead] is Acquiring && w.memory.status == LOCKED {
            let k = choose|k: int| 0 <= k < n && #[trigger] owns_lock(w, k);
            lemma_actor(w, k, front, lead);
            lemma_goes_on(w, k);
        } else if front + 1 < n && w.who[front + 1] is Linking {
            lemma_goes_on(w, front + 1);
        } else {
            lemma_goes_on(w, lead);
        }
    } else if w.who[i] is Waiting && !is_woken(w, i) {
        let k = choose|k: int|
            0 <= k < n && trailing_cursor(#[trigger] w.who[k]) == Some(i as NodeId);
        lemma_goes_on(w, k);
    } else {
        lemma_goes_on(w, i);
    }
}

} // verus!
