//! What becomes of a lock and its queue when a combiner unwinds.
//!
//! A bomb guards a stretch of code that may unwind. Behind the stretch it is
//! diffused; otherwise it goes off.

use super::action::{answers, effect, memory_of, perform, reply, Action, Event, Memory};
use super::node::{told, Node, NodeView, DONE, POISONED};
use super::rawlock::{NodeId, RawLock};
use vstd::prelude::*;

verus! {

/// A bomb that disables the lock.
///
/// It goes off by [`LightWeightBomb::detonate`] alone. A bomb that goes out of scope does
/// nothing, also on an unwind: whoever catches the unwind lets it go off.
pub struct LightWeightBomb<'a> {
    raw: &'a mut RawLock,
}

impl<'a> LightWeightBomb<'a> {
    /// The lock that the bomb is set on.
    pub closed spec fn raw(self) -> &'a mut RawLock {
        self.raw
    }

    /// Sets a bomb on a lock.
    pub fn new(raw: &'a mut RawLock) -> (bomb: Self)
        ensures
            *bomb.raw() == *old(raw),
            *final(bomb.raw()) == *final(raw),
    {
        LightWeightBomb { raw }
    }

    /// The lock that the bomb is set on.
    pub fn get_raw(&self) -> (raw: &RawLock)
        ensures
            *raw == *self.raw(),
    {
        &*self.raw
    }

    /// Takes the bomb off: the lock stays as it is.
    pub fn diffuse(self)
        ensures
            *final(self.raw()) == *self.raw(),
    {
    }

    /// Lets the bomb go off: the lock is disabled.
    pub fn detonate(self)
        ensures
            final(self.raw()).status() == super::rawlock::POISONED,
            final(self.raw()).tail() == self.raw().tail(),
    {
        self.raw.poison();
    }
}

/// How far a heavy bomb has gone off.
#[derive(Debug, Clone, Copy, PartialEq, Eq, Structural)]
pub enum Stage {
    /// The lock is to be disabled.
    Igniting,
    /// The link behind the current node is to be looked at.
    Sweeping,
    /// The current node is to be woken; `next` follows.
    Waking { next: NodeId },
    /// Nothing was linked: the queue is to be closed.
    Sealing,
    /// The queue is closed: the current node, its last, is to be woken.
    WakingLast,
    /// A node has joined behind the current one and is about to link itself.
    Awaiting,
    /// All nodes are woken.
    Spent,
}

/// A heavy bomb that goes off, step by step.
#[derive(Debug, Clone, Copy, PartialEq, Eq, Structural)]
pub struct Fuse {
    /// The current node.
    pub atom: NodeId,
    /// Whether the current node's task was run to its end.
    pub completed: bool,
    /// What comes next.
    pub stage: Stage,
}

/// The wake-up that the current node gets.
pub open spec fn fuse_wake(fuse: Fuse) -> Action {
    if fuse.completed {
        Action::WakeDone { node: fuse.atom }
    } else {
        Action::WakePoisoned { node: fuse.atom }
    }
}

/// The action that comes next.
pub open spec fn fuse_action(fuse: Fuse) -> Option<Action> {
    match fuse.stage {
        Stage::Igniting => Some(Action::Poison),
        Stage::Sweeping => Some(Action::LoadNext { node: fuse.atom }),
        Stage::Waking { .. } => Some(fuse_wake(fuse)),
        Stage::Sealing => Some(Action::TryClose { node: fuse.atom }),
        Stage::WakingLast => Some(fuse_wake(fuse)),
        Stage::Awaiting => Some(Action::LoadNext { node: fuse.atom }),
        Stage::Spent => None,
    }
}

/// The fuse after its action gave back `event`. Only the task of the first node can
/// have been run: the nodes behind it are woken as cancelled.
pub open spec fn fuse_next(fuse: Fuse, event: Event) -> Fuse {
    match fuse.stage {
        Stage::Igniting => Fuse { stage: Stage::Sweeping, ..fuse },
        Stage::Sweeping => match event {
            Event::Next(Some(next)) => Fuse { stage: Stage::Waking { next }, ..fuse },
            _ => Fuse { stage: Stage::Sealing, ..fuse },
        },
        Stage::Waking { next } => Fuse { atom: next, completed: false, stage: Stage::Sweeping },
        Stage::Sealing => if event == Event::Closed(true) {
            Fuse { stage: Stage::WakingLast, ..fuse }
        } else {
            Fuse { stage: Stage::Awaiting, ..fuse }
        },
        Stage::WakingLast => Fuse { stage: Stage::Spent, ..fuse },
        Stage::Awaiting => match event {
            Event::Next(Some(_)) => Fuse { stage: Stage::Sweeping, ..fuse },
            _ => fuse,
        },
        Stage::Spent => fuse,
    }
}

/// A fuse that has just been lit.
pub open spec fn lit_fuse(atom: NodeId, completed: bool) -> Fuse {
    Fuse { atom, completed, stage: Stage::Igniting }
}

impl Fuse {
    /// A fuse that has just been lit.
    pub fn new(atom: NodeId, completed: bool) -> (fuse: Self)
        ensures
            fuse == lit_fuse(atom, completed),
    {
        Fuse { atom, completed, stage: Stage::Igniting }
    }

    /// The action that comes next, until all nodes are woken.
    pub fn action(&self) -> (action: Option<Action>)
        ensures
            action == fuse_action(*self),
    {
        let wake = if self.completed {
            Action::WakeDone { node: self.atom }
        } else {
            Action::WakePoisoned { node: self.atom }
        };
        match self.stage {
            Stage::Igniting => Some(Action::Poison),
            Stage::Sweeping => Some(Action::LoadNext { node: self.atom }),
            Stage::Waking { .. } => Some(wake),
            Stage::Sealing => Some(Action::TryClose { node: self.atom }),
            Stage::WakingLast => Some(wake),
            Stage::Awaiting => Some(Action::LoadNext { node: self.atom }),
            Stage::Spent => None,
        }
    }

    /// Goes on with what the action gave back.
    pub fn observe(&mut self, event: Event)
        requires
            fuse_action(*old(self)) matches Some(action) && answers(action, event),
        ensures
            *final(self) == fuse_next(*old(self), event),
    {
        match self.stage {
            Stage::Igniting => {
                self.stage = Stage::Sweeping;
            },
            Stage::Sweeping => {
                self.stage =
                match event {
                    Event::Next(Some(next)) => Stage::Waking { next },
                    _ => Stage::Sealing,
                };
            },
            Stage::Waking { next } => {
                self.atom = next;
                self.completed = false;
                self.stage = Stage::Sweeping;
            },
            Stage::Sealing => {
                self.stage =
                match event {
                    Event::Closed(true) => Stage::WakingLast,
                    _ => Stage::Awaiting,
                };
            },
            Stage::WakingLast => {
                self.stage = Stage::Spent;
            },
            Stage::Awaiting => {
                if let Event::Next(Some(_)) = event {
                    self.stage = Stage::Sweeping;
                }
            },
            Stage::Spent => {},
        }
    }
}

/// Whether `chain` is the whole queue from `atom` on, with every link in place.
pub open spec fn is_queue_from(memory: Memory, atom: NodeId, chain: Seq<NodeId>) -> bool {
    &&& chain.len() > 0
    &&& chain[0] == atom
    &&& chain.no_duplicates()
    &&& forall|k: int| 0 <= k < chain.len() ==> (#[trigger] chain[k]) < memory.nodes.len()
    &&& forall|k: int|
        0 <= k < chain.len() - 1 ==> memory.nodes[#[trigger] chain[k] as int].next == Some(
            chain[k + 1],
        )
    &&& memory.nodes[chain.last() as int].next is None
    &&& memory.tail == Some(chain.last())
}

/// The state that a heavy bomb leaves in the node at place `k` of the queue.
pub open spec fn swept_state(completed: bool, k: int) -> u32 {
    if completed && k == 0 {
        DONE
    } else {
        POISONED
    }
}

/// Whether `after` is `before` with the first `count` nodes of the queue woken.
pub open spec fn is_swept(
    before: Seq<NodeView>,
    after: Seq<NodeView>,
    chain: Seq<NodeId>,
    count: int,
    completed: bool,
) -> bool {
    &&& after.len() == before.len()
    &&& forall|k: int|
        0 <= k < count ==> after[#[trigger] chain[k] as int] == told(
            before[chain[k] as int],
            swept_state(completed, k),
        )
    &&& forall|j: NodeId|
        j < before.len() && !chain.take(count).contains(j) ==> #[trigger] after[j as int]
            == before[j as int]
}

/// How far a heavy bomb has burned on its own.
pub ghost struct Burn {
    /// The words and nodes of the lock.
    pub memory: Memory,
    /// What comes next.
    pub fuse: Fuse,
    /// The actions so far.
    pub actions: Seq<Action>,
}

/// One action further.
pub open spec fn burn_on(b: Burn) -> Burn {
    match fuse_action(b.fuse) {
        Some(action) => Burn {
            memory: effect(b.memory, action),
            fuse: fuse_next(b.fuse, reply(b.memory, action)),
            actions: b.actions.push(action),
        },
        None => b,
    }
}

/// A fuse that burns from `memory` on, after `steps` actions that no other thread's come
/// between.
pub open spec fn burn(memory: Memory, fuse: Fuse, steps: nat) -> Burn
    decreases steps,
{
    if steps == 0 {
        Burn { memory, fuse, actions: Seq::empty() }
    } else {
        burn_on(burn(memory, fuse, (steps - 1) as nat))
    }
}

/// Whether an action tells a requester something.
pub open spec fn is_wake_up(action: Action) -> bool {
    action is WakeDone || action is WakeHead || action is WakePoisoned
}

/// The actions that tell a requester something, in their order.
pub open spec fn wake_ups(actions: Seq<Action>) -> Seq<Action>
    decreases actions.len(),
{
    if actions.len() == 0 {
        Seq::empty()
    } else if is_wake_up(actions.last()) {
        wake_ups(actions.drop_last()).push(actions.last())
    } else {
        wake_ups(actions.drop_last())
    }
}

/// One wake-up for each node of a queue, in the order of the queue: the first as done if it
/// was completed, the others as cancelled.
pub open spec fn one_wake_up_each(chain: Seq<NodeId>, completed: bool) -> Seq<Action> {
    Seq::new(
        chain.len(),
        |k: int|
            if completed && k == 0 {
                Action::WakeDone { node: chain[k] }
            } else {
                Action::WakePoisoned { node: chain[k] }
            },
    )
}

/// After how many actions a heavy bomb has told every requester of a queue.
pub open spec fn burning_time(chain: Seq<NodeId>) -> nat {
    2 * chain.len() + 2
}

/// How many nodes are swept when the fuse has come to place `k`.
spec fn swept_count(stage: Stage, chain: Seq<NodeId>, k: int) -> int {
    if stage is Spent {
        chain.len() as int
    } else {
        k
    }
}

/// How many actions it takes to come to place `k` and this stage.
spec fn elapsed(stage: Stage, k: int) -> int {
    2 * k + match stage {
        Stage::Igniting => 0int,
        Stage::Sweeping => 1,
        Stage::Waking { .. } => 2,
        Stage::Sealing => 2,
        Stage::WakingLast => 3,
        Stage::Spent => 4,
        Stage::Awaiting => 0,
    }
}

/// Whether a bomb that burns on the queue `chain` has come to place `k`.
spec fn is_burned_to(start: Memory, chain: Seq<NodeId>, completed: bool, b: Burn, k: int) -> bool {
    let stage = b.fuse.stage;
    let closed = stage is WakingLast || stage is Spent;
    &&& is_queue_from(start, chain[0], chain)
    &&& 0 <= k < chain.len()
    &&& b.fuse.atom == chain[k]
    &&& b.fuse.completed == (completed && k == 0)
    &&& is_swept(start.nodes, b.memory.nodes, chain, swept_count(stage, chain, k), completed)
    &&& b.memory.status == (if stage is Igniting {
        start.status
    } else {
        super::rawlock::POISONED
    })
    &&& b.memory.tail == (if closed {
        None
    } else {
        start.tail
    })
    &&& stage matches Stage::Waking { next } ==> k + 1 < chain.len() && next == chain[k + 1]
    &&& stage is Igniting ==> k == 0
    &&& stage is Sealing || closed ==> k == chain.len() - 1
    &&& !(stage is Awaiting)
    &&& b.actions.len() == elapsed(stage, k)
    &&& wake_ups(b.actions) == one_wake_up_each(chain, completed).take(
        swept_count(stage, chain, k),
    )
}

proof fn lemma_wake_ups_push(actions: Seq<Action>, action: Action)
    ensures
        wake_ups(actions.push(action)) == (if is_wake_up(action) {
            wake_ups(actions).push(action)
        } else {
            wake_ups(actions)
        }),
{
    assert(actions.push(action).drop_last() =~= actions);
}

/// Where the bomb is at the beginning.
proof fn lemma_burn_begins(start: Memory, fuse: Fuse, chain: Seq<NodeId>)
    requires
        is_queue_from(start, fuse.atom, chain),
        fuse.stage is Igniting,
    ensures
        is_burned_to(start, chain, fuse.completed, burn(start, fuse, 0), 0),
{
    assert(chain.take(0) =~= Seq::<NodeId>::empty());
    assert(one_wake_up_each(chain, fuse.completed).take(0) =~= Seq::<Action>::empty());
}

/// Where the bomb is one action later.
proof fn lemma_burn_on(start: Memory, chain: Seq<NodeId>, completed: bool, b: Burn, k: int)
    requires
        is_burned_to(start, chain, completed, b, k),
        !(b.fuse.stage is Spent),
    ensures
        is_burned_to(
            start,
            chain,
            completed,
            burn_on(b),
            if b.fuse.stage is Waking {
                k + 1
            } else {
                k
            },
        ),
        b.memory.nodes.len() == start.nodes.len(),
        chain[k] < start.nodes.len(),
{
    let each = one_wake_up_each(chain, completed);
    let action = fuse_action(b.fuse)->0;
    lemma_not_swept_yet(start.nodes, b.memory.nodes, chain, k, completed);
    lemma_wake_ups_push(b.actions, action);
    if b.fuse.stage is Waking || b.fuse.stage is WakingLast {
        lemma_sweep_one(
            start.nodes,
            b.memory.nodes,
            burn_on(b).memory.nodes,
            chain,
            k,
            completed,
        );
        assert(each.take(k).push(each[k]) =~= each.take(k + 1));
    }
    if k < chain.len() - 1 {
        assert(start.nodes[chain[k] as int].next == Some(chain[k + 1]));
    }
}

/// Where the bomb is after so many actions.
proof fn lemma_burn(start: Memory, fuse: Fuse, chain: Seq<NodeId>, steps: nat) -> (k: int)
    requires
        is_queue_from(start, fuse.atom, chain),
        fuse.stage is Igniting,
        steps <= burning_time(chain),
    ensures
        is_burned_to(start, chain, fuse.completed, burn(start, fuse, steps), k),
        burn(start, fuse, steps).actions.len() == steps,
    decreases steps,
{
    if steps == 0 {
        lemma_burn_begins(start, fuse, chain);
        0
    } else {
        let before = burn(start, fuse, (steps - 1) as nat);
        let k = lemma_burn(start, fuse, chain, (steps - 1) as nat);
        lemma_burn_on(start, chain, fuse.completed, before, k);
        if before.fuse.stage is Waking {
            k + 1
        } else {
            k
        }
    }
}

/// A heavy bomb that is lit at the first node of a queue tells each requester of the queue
/// something once, in the order of the queue: the first that its task was run, if it was,
/// and the others that theirs will not be. It disables the lock, closes the queue, and is
/// through after [`burning_time`] actions.
pub proof fn lit_bomb_wakes_each_once(memory: Memory, fuse: Fuse, chain: Seq<NodeId>)
    requires
        is_queue_from(memory, fuse.atom, chain),
        fuse.stage is Igniting,
    ensures
        ({
            let b = burn(memory, fuse, burning_time(chain));
            &&& b.fuse.stage is Spent
            &&& b.actions.len() == burning_time(chain)
            &&& b.actions[0] == Action::Poison
            &&& wake_ups(b.actions) == one_wake_up_each(chain, fuse.completed)
            &&& b.memory.status == super::rawlock::POISONED
            &&& b.memory.tail is None
            &&& is_swept(
                memory.nodes,
                b.memory.nodes,
                chain,
                chain.len() as int,
                fuse.completed,
            )
        }),
{
    let k = lemma_burn(memory, fuse, chain, burning_time(chain));
    let each = one_wake_up_each(chain, fuse.completed);
    assert(each.take(chain.len() as int) =~= each);
    lemma_first_action(memory, fuse, burning_time(chain));
}

proof fn lemma_first_action(memory: Memory, fuse: Fuse, steps: nat)
    requires
        steps > 0,
        fuse_action(fuse) is Some,
    ensures
        burn(memory, fuse, steps).actions.len() > 0,
        burn(memory, fuse, steps).actions[0] == fuse_action(fuse)->0,
    decreases steps,
{
    if steps > 1 {
        lemma_first_action(memory, fuse, (steps - 1) as nat);
    } else {
        assert(burn(memory, fuse, 0).fuse == fuse);
    }
}

/// A bomb that disables the lock and cancels the queue from a node on.
///
/// It goes off by [`HeavyWeightBomb::detonate`] alone. A bomb that goes out of scope does
/// nothing, also on an unwind: whoever catches the unwind lets it go off.
pub struct HeavyWeightBomb<'a> {
    ignitor: LightWeightBomb<'a>,
    atom: NodeId,
    current_completed: bool,
}

impl<'a> HeavyWeightBomb<'a> {
    /// The lock that the bomb is set on.
    pub closed spec fn raw(self) -> &'a mut RawLock {
        self.ignitor.raw()
    }

    /// The node that the combiner is at.
    pub closed spec fn atom(self) -> NodeId {
        self.atom
    }

    /// Whether that node's task was run to its end.
    pub closed spec fn current_completed(self) -> bool {
        self.current_completed
    }

    /// Sets a bomb on a lock whose combiner is at `atom`.
    pub fn new(lock: &'a mut RawLock, atom: NodeId) -> (bomb: Self)
        ensures
            *bomb.raw() == *old(lock),
            *final(bomb.raw()) == *final(lock),
            bomb.atom() == atom,
            !bomb.current_completed(),
    {
        HeavyWeightBomb { ignitor: LightWeightBomb::new(lock), atom, current_completed: false }
    }

    /// Takes the bomb off: the lock stays as it is.
    pub fn diffuse(self)
        ensures
            *final(self.raw()) == *self.raw(),
    {
        self.ignitor.diffuse();
    }

    /// Notes whether the task of the combiner's node was run to its end.
    pub fn set_current_completed(&mut self, completed: bool)
        ensures
            final(self).current_completed() == completed,
            final(self).atom() == old(self).atom(),
            final(self).raw() == old(self).raw(),
    {
        self.current_completed = completed;
    }

    /// Moves on with the combiner to another node.
    pub fn reset(&mut self, new_atom: NodeId)
        ensures
            final(self).atom() == new_atom,
            !final(self).current_completed(),
            final(self).raw() == old(self).raw(),
    {
        self.atom = new_atom;
        self.current_completed = false;
    }

    /// Lets the bomb go off: the lock is disabled, its queue is closed, and the
    /// requester of each node from the combiner's on is woken: with its result if
    /// the combiner's node was completed, and else as cancelled. A requester that
    /// has joined but not linked itself yet is waited for; it cannot run during
    /// an exclusive borrow, so all links have to be in place.
    ///
    /// Returns the actions of the bomb; see [`lit_bomb_wakes_each_once`] for what they tell
    /// whom, and in which order.
    pub fn detonate(self, nodes: &mut Vec<Node>) -> (actions: Ghost<Seq<Action>>)
        requires
            exists|chain: Seq<NodeId>|
                is_queue_from(memory_of(*self.raw(), old(nodes)@), self.atom(), chain),
        ensures
            final(self.raw()).status() == super::rawlock::POISONED,
            final(self.raw()).tail() is None,
            forall|chain: Seq<NodeId>|
                is_queue_from(memory_of(*self.raw(), old(nodes)@), self.atom(), chain) ==> is_swept(
                    memory_of(*self.raw(), old(nodes)@).nodes,
                    memory_of(*final(self.raw()), final(nodes)@).nodes,
                    chain,
                    chain.len() as int,
                    self.current_completed(),
                ),
            forall|chain: Seq<NodeId>|
                #![trigger one_wake_up_each(chain, self.current_completed())]
                is_queue_from(memory_of(*self.raw(), old(nodes)@), self.atom(), chain) ==> {
                    &&& actions@ == burn(
                        memory_of(*self.raw(), old(nodes)@),
                        lit_fuse(self.atom(), self.current_completed()),
                        burning_time(chain),
                    ).actions
                    &&& wake_ups(actions@) == one_wake_up_each(chain, self.current_completed())
                },
            forall|chain: Seq<NodeId>, k: int|
                is_queue_from(memory_of(*self.raw(), old(nodes)@), self.atom(), chain) && 0 <= k
                    < chain.len() ==> {
                    let before = old(nodes)@[(#[trigger] chain[k]) as int]@;
                    let after = final(nodes)@[chain[k] as int]@;
                    let state = if k == 0 && self.current_completed() {
                        DONE
                    } else {
                        POISONED
                    };
                    &&& after.state == state
                    &&& after.told == before.told.push(state)
                    &&& after.next == before.next
                },
    {
        let ghost start = memory_of(*self.raw(), nodes@);
        let ghost completed = self.current_completed;
        let mut fuse = Fuse::new(self.atom, self.current_completed);
        let ghost lit = fuse;
        let ghost chain = choose|chain: Seq<NodeId>| is_queue_from(start, lit.atom, chain);
        let ghost mut k: int = 0;
        let ghost mut steps: nat = 0;
        let raw = self.ignitor.raw;
        proof {
            lemma_burn_begins(start, lit, chain);
        }
        while !matches!(fuse.stage, Stage::Spent)
            invariant
                nodes@.len() == start.nodes.len(),
                lit.completed == completed,
                burn(start, lit, steps).memory == memory_of(*raw, nodes@),
                burn(start, lit, steps).fuse == fuse,
                burn(start, lit, steps).actions.len() == steps,
                is_burned_to(start, chain, completed, burn(start, lit, steps), k),
            decreases burning_time(chain) - steps,
        {
            proof {
                lemma_burn_on(start, chain, completed, burn(start, lit, steps), k);
            }
            if let Some(action) = fuse.action() {
                let event = perform(raw, nodes, action);
                proof {
                    if fuse.stage is Waking {
                        k = k + 1;
                    }
                    steps = steps + 1;
                }
                fuse.observe(event);
            }
        }
        proof {
            assert forall|other: Seq<NodeId>| is_queue_from(start, lit.atom, other) implies other
                == chain by {
                lemma_queue_unique(start, lit.atom, chain, other);
            }
            let each = one_wake_up_each(chain, completed);
            assert(each.take(chain.len() as int) =~= each);
        }
        Ghost(burn(start, lit, steps).actions)
    }
}

/// The node at place `k` is still as it was.
proof fn lemma_not_swept_yet(
    before: Seq<NodeView>,
    now: Seq<NodeView>,
    chain: Seq<NodeId>,
    k: int,
    completed: bool,
)
    requires
        is_swept(before, now, chain, k, completed),
        0 <= k < chain.len(),
        chain.no_duplicates(),
        chain[k] < before.len(),
    ensures
        now[chain[k] as int] == before[chain[k] as int],
{
    assert(!chain.take(k).contains(chain[k]));
}

/// Waking the node at place `k` sweeps one node more.
proof fn lemma_sweep_one(
    before: Seq<NodeView>,
    now: Seq<NodeView>,
    after: Seq<NodeView>,
    chain: Seq<NodeId>,
    k: int,
    completed: bool,
)
    requires
        is_swept(before, now, chain, k, completed),
        0 <= k < chain.len(),
        chain.no_duplicates(),
        forall|i: int| 0 <= i < chain.len() ==> (#[trigger] chain[i]) < before.len(),
        now[chain[k] as int] == before[chain[k] as int],
        after == now.update(
            chain[k] as int,
            told(now[chain[k] as int], swept_state(completed, k)),
        ),
    ensures
        is_swept(before, after, chain, k + 1, completed),
{
    assert forall|i: int| 0 <= i < k + 1 implies after[#[trigger] chain[i] as int] == told(
        before[chain[i] as int],
        swept_state(completed, i),
    ) by {
        if i < k {
            assert(chain[i] != chain[k]);
        }
    }
    assert forall|j: NodeId|
        j < before.len() && !chain.take(k + 1).contains(j) implies #[trigger] after[j as int]
        == before[j as int] by {
        assert(chain.take(k + 1)[k] == chain[k]);
        assert(j != chain[k]);
        if chain.take(k).contains(j) {
            let i = choose|i: int| 0 <= i < k && chain.take(k)[i] == j;
            assert(chain.take(k + 1)[i] == j);
        }
    }
}

/// The queue from a node on is determined by the links.
proof fn lemma_queue_unique(memory: Memory, atom: NodeId, a: Seq<NodeId>, b: Seq<NodeId>)
    requires
        is_queue_from(memory, atom, a),
        is_queue_from(memory, atom, b),
    ensures
        a == b,
{
    let common = if a.len() < b.len() {
        a.len() as int
    } else {
        b.len() as int
    };
    lemma_queue_prefix(memory, atom, a, b, common);
    if a.len() < b.len() {
        let k = a.len() - 1;
        assert(memory.nodes[b[k] as int].next == Some(b[k + 1]));
    } else if b.len() < a.len() {
        let k = b.len() - 1;
        assert(memory.nodes[a[k] as int].next == Some(a[k + 1]));
    }
    assert(a =~= b);
}

proof fn lemma_queue_prefix(
    memory: Memory,
    atom: NodeId,
    a: Seq<NodeId>,
    b: Seq<NodeId>,
    count: int,
)
    requires
        is_queue_from(memory, atom, a),
        is_queue_from(memory, atom, b),
        0 <= count <= a.len(),
        count <= b.len(),
    ensures
        forall|i: int| 0 <= i < count ==> a[i] == b[i],
    decreases count,
{
    if count > 0 {
        lemma_queue_prefix(memory, atom, a, b, count - 1);
        if count > 1 {
            assert(memory.nodes[a[count - 2] as int].next == Some(a[count - 2 + 1]));
            assert(memory.nodes[b[count - 2] as int].next == Some(b[count - 2 + 1]));
        }
    }
}

} // verus!
