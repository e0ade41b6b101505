//! A lock with all its requesters, driven one action at a time.
//!
//! The caller plays the scheduler: it picks which requester acts next. Whatever it
//! picks, the crowd goes through the worlds of [`super::protocol`].

use super::action::{memory_of, perform, Action, Event};
use super::attach::{Attach, Outcome, Phase};
use super::held::Held;
use super::node::{fresh_node, Node};
use super::nonpoison::{accepts, CombinedNode};
use super::protocol::{
    acts, caught_panics_do_no_harm, consistent, direct_thread_holds_the_lock, enters,
    healthy_requests_complete, initial_is_consistent, initial_world, is_healthy, joins, leaves,
    no_access_after_return, one_thread_holds_the_lock, only_joined_tasks_run, outcomes_are_true,
    requesters_go_on, takes_turn, takes_turns, tasks_run_in_order, tasks_run_once,
    transition_keeps_consistent, World,
};
use super::rawlock::{NodeId, QueueError, RawLock, LOCKED, UNLOCKED};
use super::serial::{
    are_guarded, leads_to, lemma_queued_run, lemma_run_more, queued_nodes, Call, Run,
};
use core::sync::atomic::Ordering;
use vstd::prelude::*;

verus! {

/// What a request comes to.
#[derive(Debug, PartialEq, Eq)]
pub enum Ending<R, P> {
    /// The task was run and returned.
    Returned(R),
    /// The task was run and panicked: its payload is resumed on its requester.
    Resumed(P),
    /// An unwinding combiner has disabled the queue.
    Cancelled(QueueError),
    /// A task that this requester ran has panicked, and unwinds through it.
    Unwound(P),
}

/// Whether a closure may be called on any data.
pub open spec fn accepts_all<T, R, F: FnOnce(&mut T) -> R>(f: F) -> bool {
    forall|data: T| #[trigger] accepts(f, data)
}

proof fn lemma_push_contains<A>(s: Seq<A>, x: A, y: A)
    ensures
        s.push(x).contains(y) <==> s.contains(y) || x == y,
{
    assert(s.push(x)[s.len() as int] == x);
    if s.contains(y) {
        let a = choose|a: int| 0 <= a < s.len() && s[a] == y;
        assert(s.push(x)[a] == y);
    }
}

/// A lock and its requesters. A task returns its result, or the payload with which
/// it panicked.
pub struct Crowd<T, F, R, P> {
    lock: Held<T>,
    nodes: Vec<Node>,
    tasks: Vec<CombinedNode<F, Result<R, P>>>,
    requesters: Vec<Attach>,
    thrown: Vec<Option<P>>,
    collected: Vec<bool>,
    direct: bool,
    transport: bool,
    started: Ghost<Seq<NodeId>>,
    completed: Ghost<Seq<bool>>,
    closures: Ghost<Seq<F>>,
    history: Ghost<Seq<Run<T, F, Result<R, P>>>>,
    since: Ghost<nat>,
}

impl<T, F, R, P> View for Crowd<T, F, R, P> {
    type V = World;

    closed spec fn view(&self) -> World {
        World {
            memory: memory_of(self.lock.raw(), self.nodes@),
            who: self.requesters@.map_values(|requester: Attach| requester.phase()),
            direct: self.direct,
            started: self.started@,
            completed: self.completed@,
        }
    }
}

/// Whether `after` is `before` with the result of the task of `node` put down, which
/// requester `id` has run.
pub open spec fn is_recorded<T, F: FnOnce(&mut T) -> Result<R, P>, R, P>(
    before: Crowd<T, F, R, P>,
    after: Crowd<T, F, R, P>,
    id: NodeId,
    node: NodeId,
    result: Result<R, P>,
) -> bool {
    let unwinds = result is Err && !before.transport();
    let n = before@.who.len();
    &&& after.task(node as int).closure() is None
    &&& after.task(node as int).result() == (if unwinds {
        None
    } else {
        Some(result)
    })
    &&& after.thrown(id as int) == (if unwinds {
        Some(result->Err_0)
    } else {
        before.thrown(id as int)
    })
    &&& forall|i: int| 0 <= i < n && i != node ==> after.task(i) == before.task(i)
    &&& forall|i: int| 0 <= i < n && i != id ==> after.thrown(i) == before.thrown(i)
}

/// What the request of a requester that is through comes to.
pub open spec fn ending_of<T, F: FnOnce(&mut T) -> Result<R, P>, R, P>(
    crowd: Crowd<T, F, R, P>,
    id: NodeId,
) -> Ending<R, P> {
    match crowd@.who[id as int]->outcome {
        Outcome::Completed => match crowd.task(id as int).result()->0 {
            Ok(value) => Ending::Returned(value),
            Err(payload) => Ending::Resumed(payload),
        },
        Outcome::Cancelled => Ending::Cancelled(QueueError),
        Outcome::Unwound => Ending::Unwound(crowd.thrown(id as int)->0),
    }
}

/// Whether a payload unwinds through a requester that is here.
pub open spec fn is_unwinding(phase: Phase) -> bool {
    match phase {
        Phase::Detonating { unwound, .. } => unwound,
        Phase::Finished { outcome } => outcome is Unwound,
        _ => false,
    }
}

/// What holds of the entry of requester `i`.
spec fn entry_ok<T, F: FnOnce(&mut T) -> Result<R, P>, R, P>(
    i: int,
    task: CombinedNode<F, Result<R, P>>,
    requester: Attach,
    thrown: Option<P>,
    collected: bool,
    started: bool,
    completed: bool,
    closure: F,
) -> bool {
    &&& requester.node() == i
    &&& task.closure() is Some <==> !started
    &&& task.closure() matches Some(f) ==> f == closure && accepts_all::<T, Result<R, P>, F>(f)
    &&& collected ==> requester.phase() is Finished
    &&& !collected ==> {
        &&& task.result() is Some <==> completed
        &&& thrown is Some <==> is_unwinding(requester.phase())
    }
}

/// Whether what came of the run of a task is still with its requester, if the requester
/// has not got it.
spec fn is_kept<T, F, R, P>(
    run: Run<T, F, Result<R, P>>,
    tasks: Seq<CombinedNode<F, Result<R, P>>>,
    closures: Seq<F>,
    collected: Seq<bool>,
    completed: Seq<bool>,
    started: Seq<NodeId>,
    transport: bool,
) -> bool {
    run matches Run::Queued { node, f, result, .. } ==> {
        &&& node < tasks.len()
        &&& started.contains(node)
        &&& f == closures[node as int]
        &&& completed[node as int] == (result is Ok || transport)
        &&& completed[node as int] && !collected[node as int] ==> tasks[node as int].result()
            == Some(result)
    }
}

impl<T, F, R, P> Crowd<T, F, R, P> where F: FnOnce(&mut T) -> Result<R, P> {
    /// The data behind the lock.
    pub closed spec fn data(self) -> T {
        self.lock.data()
    }

    /// The calls of closures on the data so far. Each says whether the lock was held when it
    /// was made.
    pub closed spec fn calls(self) -> Seq<Call<T>> {
        self.lock.calls()
    }

    /// The task of a requester.
    pub closed spec fn task(self, i: int) -> CombinedNode<F, Result<R, P>> {
        self.tasks@[i]
    }

    /// The payload that unwinds through a requester.
    pub closed spec fn thrown(self, i: int) -> Option<P> {
        self.thrown@[i]
    }

    /// Whether a requester has got what its request came to.
    pub closed spec fn collected(self, i: int) -> bool {
        self.collected@[i]
    }

    /// Whether a panic is caught and handed to the requester of the task.
    pub closed spec fn transport(self) -> bool {
        self.transport
    }

    /// Whether the tasks and what became of them are as in `other`.
    pub open spec fn has_same_tasks(self, other: Self) -> bool {
        &&& self.transport() == other.transport()
        &&& forall|i: int| 0 <= i < other@.who.len() ==> #[trigger] self.task(i) == other.task(i)
        &&& forall|i: int|
            0 <= i < other@.who.len() ==> #[trigger] self.thrown(i) == other.thrown(i)
        &&& forall|i: int|
            0 <= i < other@.who.len() ==> #[trigger] self.collected(i) == other.collected(i)
    }

    #[verifier::inline]
    spec fn requester_ok(self, i: int) -> bool {
        entry_ok::<T, F, R, P>(
            i,
            self.tasks@[i],
            self.requesters@[i],
            self.thrown@[i],
            self.collected@[i],
            self.started@.contains(i as NodeId),
            self.completed@[i],
            self.closures@[i],
        )
    }

    /// The invariant of a crowd.
    pub closed spec fn wf(self) -> bool {
        let n = self.requesters@.len();
        &&& consistent(self@)
        &&& self.transport ==> is_healthy(self@)
        &&& self.nodes@.len() == n
        &&& self.tasks@.len() == n
        &&& self.thrown@.len() == n
        &&& self.collected@.len() == n
        &&& self.completed@.len() == n
        &&& self.closures@.len() == n
        &&& forall|i: int| 0 <= i < n ==> #[trigger] self.requester_ok(i)
        &&& leads_to(self.history@, self.data())
        &&& self.since@ <= self.started@.len()
        &&& queued_nodes(self.history@) == self.started@.skip(self.since@ as int)
        &&& forall|k: int|
            0 <= k < self.history@.len() ==> is_kept(
                #[trigger] self.history@[k],
                self.tasks@,
                self.closures@,
                self.collected@,
                self.completed@,
                self.started@,
                self.transport,
            )
    }

    /// The closure with which a requester has joined.
    pub closed spec fn closure(self, i: int) -> F {
        self.closures@[i]
    }

    /// The closures that were run since the data was last lent out, in their order.
    pub closed spec fn history(self) -> Seq<Run<T, F, Result<R, P>>> {
        self.history@
    }

    /// How many tasks had been run when the data was last lent out.
    pub closed spec fn since(self) -> nat {
        self.since@
    }

    /// Whether the closures and their runs are as in `other`.
    pub open spec fn has_same_history(self, other: Self) -> bool {
        &&& self.history() == other.history()
        &&& self.since() == other.since()
        &&& forall|i: int|
            0 <= i < other@.who.len() ==> #[trigger] self.closure(i) == other.closure(i)
    }

    /// A lock that nobody has asked for yet. With `transport`, a panic of a task is
    /// caught and handed to its requester; without, it unwinds through the thread
    /// that runs the task.
    pub fn new(data: T, transport: bool) -> (crowd: Self)
        ensures
            crowd.wf(),
            crowd@ == initial_world(),
            crowd.data() == data,
            crowd.transport() == transport,
            crowd.history().len() == 0,
            crowd.since() == 0,
            crowd.calls().len() == 0,
    {
        let crowd = Crowd {
            lock: Held::new(data),
            nodes: Vec::new(),
            tasks: Vec::new(),
            requesters: Vec::new(),
            thrown: Vec::new(),
            collected: Vec::new(),
            direct: false,
            transport,
            started: Ghost(Seq::empty()),
            completed: Ghost(Seq::empty()),
            closures: Ghost(Seq::empty()),
            history: Ghost(Seq::empty()),
            since: Ghost(0),
        };
        proof {
            assert(crowd.started@.skip(0) =~= Seq::<NodeId>::empty());
            assert(crowd@.who =~= initial_world().who);
            assert(crowd@.memory.nodes =~= initial_world().memory.nodes);
            initial_is_consistent();
        }
        crowd
    }

    /// A requester joins the queue with its task. Returns its number.
    pub fn join(&mut self, f: F) -> (id: NodeId)
        requires
            old(self).wf(),
            old(self)@.who.len() < NodeId::MAX,
            accepts_all::<T, Result<R, P>, F>(f),
        ensures
            final(self).wf(),
            joins(old(self)@, final(self)@),
            id == old(self)@.who.len(),
            final(self).task(id as int).closure() == Some(f),
            final(self).closure(id as int) == f,
            final(self).has_same_history(*old(self)),
            final(self).task(id as int).result() is None,
            !final(self).collected(id as int),
            forall|i: int| 0 <= i < id ==> final(self).task(i) == old(self).task(i),
            forall|i: int| 0 <= i < id ==> final(self).thrown(i) == old(self).thrown(i),
            forall|i: int| 0 <= i < id ==> final(self).collected(i) == old(self).collected(i),
            final(self).data() == old(self).data(),
            final(self).calls() == old(self).calls(),
            final(self).transport() == old(self).transport(),
    {
        let ghost before = *self;
        let id: NodeId = self.requesters.len();
        let mut requester = Attach::new(id);
        self.nodes.push(Node::new());
        self.tasks.push(CombinedNode::new(f));
        self.thrown.push(None);
        self.collected.push(false);
        let ghost fresh = memory_of(self.lock.raw(), self.nodes@);
        let event = perform(self.lock.raw_mut(), &mut self.nodes, Action::SwapTail { node: id });
        requester.observe(event);
        self.requesters.push(requester);
        proof {
            self.completed@ = self.completed@.push(false);
            self.closures@ = self.closures@.push(f);
            assert(fresh.nodes =~= before@.memory.nodes.push(fresh_node()));
            assert(self@.who =~= before@.who.push(requester.phase()));
            assert(joins(before@, self@));
            transition_keeps_consistent(before@, self@);
            if self.transport {
                caught_panics_do_no_harm(before@, self@);
            }
            assert forall|i: int|
                0 <= i < self.requesters@.len() implies #[trigger] self.requester_ok(i) by {
                if i < id {
                    assert(before.requester_ok(i));
                } else if self.started@.contains(id) {
                    let a = choose|a: int| 0 <= a < self.started@.len() && self.started@[a] == id;
                    only_joined_tasks_run(before@, a);
                }
            }
        }
        id
    }

    /// A requester acts. Returns what its action gave back, or `None` if the requester
    /// is through.
    ///
    /// An action that runs a task runs its closure on the data. If the closure panics
    /// and panics are not transported, the payload goes to the requester that runs the
    /// task; everything else that the closure hands out is kept as the task's result.
    pub fn step(&mut self, id: NodeId) -> (event: Option<Event>)
        requires
            old(self).wf(),
            id < old(self)@.who.len(),
        ensures
            final(self).wf(),
            event is None <==> old(self)@.who[id as int] is Finished,
            event is None ==> final(self)@ == old(self)@,
            event matches Some(event) ==> acts(old(self)@, final(self)@, id as int, event),
            old(self)@.who[id as int] matches Phase::Executing { cursor } ==> exists|
                d: &mut T,
                result: Result<R, P>,
            | #[trigger]
                call_ensures(old(self).task(cursor as int).closure()->0, (d,), result) && *d == old(
                    self).data() && *final(d) == final(self).data() && is_recorded(
                    *old(self),
                    *final(self),
                    id,
                    cursor,
                    result,
                ) && event == Some(
                    if result is Err && !old(self).transport() {
                        Event::Unwound
                    } else {
                        Event::Returned
                    },
                ) && final(self).history() == old(self).history().push(
                    Run::Queued {
                        node: cursor,
                        f: old(self).task(cursor as int).closure()->0,
                        before: old(self).data(),
                        after: final(self).data(),
                        result,
                    },
                ),
            old(self)@.who[id as int] matches Phase::Executing { cursor } ==> old(self).closure(
                cursor as int,
            ) == old(self).task(cursor as int).closure()->0,
            final(self).since() == old(self).since(),
            forall|i: int|
                0 <= i < old(self)@.who.len() ==> final(self).closure(i) == old(self).closure(i),
            !(old(self)@.who[id as int] is Executing) ==> {
                &&& final(self).data() == old(self).data()
                &&& final(self).history() == old(self).history()
                &&& forall|i: int|
                    0 <= i < old(self)@.who.len() ==> final(self).task(i) == old(self).task(i)
                &&& forall|i: int|
                    0 <= i < old(self)@.who.len() ==> final(self).thrown(i) == old(self).thrown(i)
            },
            forall|i: int|
                0 <= i < old(self)@.who.len() ==> final(self).collected(i) == old(self).collected(
                    i,
                ),
            final(self).transport() == old(self).transport(),
            final(self).calls() == (if old(self)@.who[id as int] is Executing {
                old(self).calls().push(
                    Call { before: old(self).data(), after: final(self).data(), guarded: true },
                )
            } else {
                old(self).calls()
            }),
    {
        let ghost before = *self;
        proof {
            assert(before.requester_ok(id as int));
            requesters_go_on(before@, id as int);
        }
        let action = match self.requesters[id].action() {
            None => {
                return None;
            },
            Some(action) => action,
        };
        proof {
            no_access_after_return(before@, id as int);
        }
        let event = match action {
            Action::Execute { node } => {
                proof {
                    tasks_run_once(before@, id as int, node);
                    one_thread_holds_the_lock(before@, id as int, id as int);
                    assert(before.requester_ok(node as int));
                    assert(accepts(before.tasks@[node as int].closure()->0, before.data()));
                }
                self.execute(id, node)
            },
            _ => perform(self.lock.raw_mut(), &mut self.nodes, action),
        };
        self.requesters[id].observe(event);
        proof {
            assert(self@.who =~= before@.who.update(
                id as int,
                self.requesters@[id as int].phase(),
            ));
            assert(acts(before@, self@, id as int, event));
            transition_keeps_consistent(before@, self@);
            if self.transport {
                caught_panics_do_no_harm(before@, self@);
            }
            assert forall|i: int|
                0 <= i < self.requesters@.len() implies #[trigger] self.requester_ok(i) by {
                assert(before.requester_ok(i));
                if let Action::Execute { node } = action {
                    lemma_push_contains(before.started@, node, i as NodeId);
                    assert(i != node ==> self.task(i) == before.task(i));
                    assert(i != id ==> self.thrown(i) == before.thrown(i));
                }
            }
            if let Action::Execute { node } = action {
                let run = self.history@.last();
                let since = self.since@ as int;
                assert(self.history@ == before.history@.push(run));
                lemma_run_more(before.history@, run, before.data());
                assert(before.started@.push(node).skip(since) =~= before.started@.skip(since).push(
                    node,
                ));
                lemma_push_contains(before.started@, node, node);
                assert forall|k: int| 0 <= k < self.history@.len() implies is_kept(
                    #[trigger] self.history@[k],
                    self.tasks@,
                    self.closures@,
                    self.collected@,
                    self.completed@,
                    self.started@,
                    self.transport,
                ) by {
                    if k < before.history@.len() {
                        assert(self.history@[k] == before.history@[k]);
                        if let Run::Queued { node: other, .. } = before.history@[k] {
                            lemma_push_contains(before.started@, node, other);
                            assert(self.task(other as int) == before.task(other as int));
                        }
                    } else {
                        assert(self.history@[k] == run);
                        assert(self.task(node as int) == self.tasks@[node as int]);
                    }
                }
            }
        }
        Some(event)
    }

    /// Requester `id` runs the task of `node`.
    fn execute(&mut self, id: NodeId, node: NodeId) -> (event: Event)
        requires
            id < old(self)@.who.len(),
            node < old(self)@.who.len(),
            old(self).tasks@.len() == old(self)@.who.len(),
            old(self).thrown@.len() == old(self)@.who.len(),
            old(self).completed@.len() == old(self)@.who.len(),
            old(self).lock.raw().status() == LOCKED,
            old(self).tasks@[node as int].closure() matches Some(f) && accepts(f, old(self).data()),
        ensures
            exists|d: &mut T, result: Result<R, P>| #[trigger]
                call_ensures(old(self).tasks@[node as int].closure()->0, (d,), result) && *d == old(
                    self).data() && *final(d) == final(self).data() && is_recorded(
                    *old(self),
                    *final(self),
                    id,
                    node,
                    result,
                ) && event == (if result is Err && !old(self).transport {
                    Event::Unwound
                } else {
                    Event::Returned
                }) && final(self).history@ == old(self).history@.push(
                    Run::Queued {
                        node,
                        f: old(self).tasks@[node as int].closure()->0,
                        before: old(self).data(),
                        after: final(self).data(),
                        result,
                    },
                ),
            final(self).closures == old(self).closures,
            final(self).since == old(self).since,
            final(self).lock.raw() == old(self).lock.raw(),
            final(self).lock.calls() == old(self).lock.calls().push(
                Call { before: old(self).data(), after: final(self).data(), guarded: true },
            ),
            final(self).nodes == old(self).nodes,
            final(self).requesters == old(self).requesters,
            final(self).tasks@.len() == old(self).tasks@.len(),
            final(self).thrown@.len() == old(self).thrown@.len(),
            final(self).collected == old(self).collected,
            final(self).direct == old(self).direct,
            final(self).transport == old(self).transport,
            final(self).started@ == old(self).started@.push(node),
            final(self).completed@ == (if event is Returned {
                old(self).completed@.update(node as int, true)
            } else {
                old(self).completed@
            }),
    {
        let ghost before = *self;
        self.lock.execute(&mut self.tasks[node]);
        proof {
            self.started@ = self.started@.push(node);
            self.history@ = self.history@.push(
                Run::Queued {
                    node,
                    f: before.tasks@[node as int].closure()->0,
                    before: before.data(),
                    after: self.data(),
                    result: self.tasks@[node as int].result()->0,
                },
            );
        }
        if !self.transport {
            let panic = self.tasks[node].take_panic();
            if panic.is_some() {
                self.thrown[id] = panic;
                return Event::Unwound;
            }
        }
        proof {
            self.completed@ = self.completed@.update(node as int, true);
        }
        Event::Returned
    }

    /// Lets requesters act in a given order. What comes of it is what comes of the tasks that
    /// were run, one after another: each is a call of its closure on the data that the one
    /// before it left.
    pub fn run_schedule(&mut self, order: &Vec<NodeId>)
        requires
            old(self).wf(),
            forall|i: int| 0 <= i < order@.len() ==> order@[i] < old(self)@.who.len(),
        ensures
            final(self).wf(),
            takes_turns(old(self)@, final(self)@, order@),
            final(self)@.who.len() == old(self)@.who.len(),
            final(self).transport() == old(self).transport(),
            forall|i: int|
                0 <= i < old(self)@.who.len() ==> final(self).closure(i) == old(self).closure(i),
            forall|i: int|
                0 <= i < old(self)@.who.len() ==> final(self).collected(i) == old(self).collected(
                    i,
                ),
            old(self).history().len() <= final(self).history().len(),
            final(self).history().take(old(self).history().len() as int) == old(self).history(),
            final(self).since() == old(self).since(),
            forall|j: int|
                old(self).history().len() <= j < final(self).history().len() ==> exists|
                    d: &mut T,
                    f: F,
                    result: Result<R, P>,
                | #[trigger]
                    call_ensures(f, (d,), result) && (#[trigger] final(self).history()[j]) == (
                    Run::Queued {
                        node: final(self).history()[j]->node,
                        f,
                        before: *d,
                        after: *final(d),
                        result,
                    }),
            leads_to(final(self).history(), final(self).data()),
            old(self).calls().is_prefix_of(final(self).calls()),
            are_guarded(final(self).calls(), old(self).calls().len() as int),
            final(self).history().len() == old(self).history().len() ==> final(self).data() == old(
                self).data(),
            final(self).history().len() > old(self).history().len() ==> final(self).history()[old(
                self).history().len() as int].before() == old(self).data(),
    {
        let ghost first = self.history();
        let ghost data = self.data();
        let ghost n = self@.who.len();
        let mut k: usize = 0;
        assert(order@.take(0) =~= Seq::<NodeId>::empty());
        assert(first.take(first.len() as int) =~= first);
        while k < order.len()
            invariant
                self.wf(),
                k <= order@.len(),
                self@.who.len() == n,
                n == old(self)@.who.len(),
                takes_turns(old(self)@, self@, order@.take(k as int)),
                self.transport() == old(self).transport(),
                forall|i: int| 0 <= i < n ==> self.closure(i) == old(self).closure(i),
                forall|i: int| 0 <= i < n ==> self.collected(i) == old(self).collected(i),
                forall|i: int| 0 <= i < order@.len() ==> order@[i] < n,
                first.len() <= self.history().len(),
                self.history().take(first.len() as int) == first,
                self.since() == old(self).since(),
                forall|j: int|
                    first.len() <= j < self.history().len() ==> exists|
                        d: &mut T,
                        f: F,
                        result: Result<R, P>,
                    | #[trigger]
                        call_ensures(f, (d,), result) && (#[trigger] self.history()[j]) == (
                        Run::Queued {
                            node: self.history()[j]->node,
                            f,
                            before: *d,
                            after: *final(d),
                            result,
                        }),
                old(self).calls().is_prefix_of(self.calls()),
                are_guarded(self.calls(), old(self).calls().len() as int),
                self.history().len() == first.len() ==> self.data() == data,
                self.history().len() > first.len() ==> self.history()[first.len() as int].before()
                    == data,
            decreases order@.len() - k,
        {
            let ghost before = self.history();
            let ghost world = self@;
            self.step(order[k]);
            proof {
                let now = self.history();
                let turns = order@.take(k + 1);
                assert(turns.drop_last() =~= order@.take(k as int));
                assert(takes_turn(world, self@, turns.last() as int));
                assert(now == before || now.drop_last() =~= before);
                assert forall|j: int| 0 <= j < before.len() implies #[trigger] now[j]
                    == before[j] by {}
                assert(now.take(first.len() as int) =~= before.take(first.len() as int));
            }
            k += 1;
        }
        assert(order@.take(k as int) =~= order@);
    }

    /// How a request ended, once its requester is through.
    pub fn outcome(&self, id: NodeId) -> (outcome: Option<Outcome>)
        requires
            self.wf(),
            id < self@.who.len(),
        ensures
            outcome == (match self@.who[id as int] {
                Phase::Finished { outcome } => Some(outcome),
                _ => None::<Outcome>,
            }),
    {
        self.requesters[id].outcome()
    }

    /// Hands a requester that is through what its request came to, once.
    pub fn collect(&mut self, id: NodeId) -> (ending: Option<Ending<R, P>>)
        requires
            old(self).wf(),
            id < old(self)@.who.len(),
        ensures
            final(self).wf(),
            final(self)@ == old(self)@,
            final(self).data() == old(self).data(),
            final(self).calls() == old(self).calls(),
            final(self).transport() == old(self).transport(),
            final(self).has_same_history(*old(self)),
            ending is None <==> !(old(self)@.who[id as int] is Finished) || old(self).collected(
                id as int,
            ),
            ending is None ==> *final(self) == *old(self),
            ending is Some ==> {
                &&& final(self).collected(id as int)
                &&& ending->0 == ending_of(*old(self), id)
                &&& old(self).transport() ==> ending->0 is Returned || ending->0 is Resumed
            },
            ending matches Some(ending) ==> match ending {
                Ending::Returned(value) => old(self)@.completed[id as int] && old(self).task(
                    id as int,
                ).result() == Some(Ok::<R, P>(value)),
                Ending::Resumed(payload) => old(self)@.completed[id as int] && old(self).task(
                    id as int,
                ).result() == Some(Err::<R, P>(payload)),
                Ending::Cancelled(_) => {
                    &&& !old(self)@.completed[id as int]
                    &&& old(self)@.who[id as int] == (Phase::Finished {
                        outcome: Outcome::Cancelled,
                    })
                },
                Ending::Unwound(payload) => old(self)@.who[id as int] == (Phase::Finished {
                    outcome: Outcome::Unwound,
                }) && old(self).thrown(id as int) == Some(payload),
            },
            forall|i: int|
                0 <= i < old(self)@.who.len() && i != id ==> {
                    &&& #[trigger] final(self).collected(i) == old(self).collected(i)
                    &&& final(self).task(i) == old(self).task(i)
                    &&& final(self).thrown(i) == old(self).thrown(i)
                },
    {
        let ghost before = *self;
        let outcome = match self.requesters[id].outcome() {
            None => {
                return None;
            },
            Some(outcome) => outcome,
        };
        if self.collected[id] {
            return None;
        }
        proof {
            assert(before.requester_ok(id as int));
            outcomes_are_true(before@, id as int);
            if self.transport {
                healthy_requests_complete(before@, id as int);
            }
        }
        self.collected.set(id, true);
        let result = self.tasks[id].take_result();
        let thrown = self.thrown[id].take();
        proof {
            assert(self@.who =~= before@.who);
            assert forall|i: int|
                0 <= i < self.requesters@.len() implies #[trigger] self.requester_ok(i) by {
                assert(before.requester_ok(i));
            }
        }
        Some(
            match outcome {
                Outcome::Completed => match result {
                    Some(Ok(value)) => Ending::Returned(value),
                    Some(Err(payload)) => Ending::Resumed(payload),
                    None => vstd::pervasive::unreached(),
                },
                Outcome::Cancelled => Ending::Cancelled(QueueError),
                Outcome::Unwound => match thrown {
                    Some(payload) => Ending::Unwound(payload),
                    None => vstd::pervasive::unreached(),
                },
            },
        )
    }

    /// A thread tries to take the lock without queuing: `Ok(true)` if it holds the
    /// lock now, `Ok(false)` if it has to queue, an error if the lock is disabled.
    pub fn enter(&mut self) -> (entered: Result<bool, QueueError>)
        requires
            old(self).wf(),
        ensures
            final(self).wf(),
            entered == (if old(self)@.memory.tail is Some || old(self)@.memory.status == LOCKED {
                Ok::<bool, QueueError>(false)
            } else if old(self)@.memory.status == UNLOCKED {
                Ok::<bool, QueueError>(true)
            } else {
                Err::<bool, QueueError>(QueueError)
            }),
            old(self).transport() ==> entered is Ok,
            entered == Ok::<bool, QueueError>(true) ==> enters(old(self)@, final(self)@),
            entered != Ok::<bool, QueueError>(true) ==> final(self)@ == old(self)@,
            final(self).has_same_tasks(*old(self)),
            final(self).has_same_history(*old(self)),
            final(self).data() == old(self).data(),
            final(self).calls() == old(self).calls(),
    {
        let ghost before = *self;
        if self.lock.get_raw().has_tail(Ordering::Relaxed) {
            return Ok(false);
        }
        let entered = match self.lock.raw_mut().try_acquire() {
            Ok(true) => {
                self.direct = true;
                Ok(true)
            },
            Ok(false) => Ok(false),
            Err(_) => Err(QueueError),
        };
        proof {
            if entered == Ok::<bool, QueueError>(true) {
                assert(enters(before@, self@));
                transition_keeps_consistent(before@, self@);
                if self.transport {
                    caught_panics_do_no_harm(before@, self@);
                }
            }
            assert forall|i: int|
                0 <= i < self.requesters@.len() implies #[trigger] self.requester_ok(i) by {
                assert(before.requester_ok(i));
            }
        }
        entered
    }

    /// The thread that has taken the lock without queuing runs its closure and gives
    /// the lock back, whatever the closure hands out.
    pub fn run_entered<G, S>(&mut self, f: G) -> (result: S) where G: FnOnce(&mut T) -> S
        requires
            old(self).wf(),
            old(self)@.direct,
            accepts(f, old(self).data()),
        ensures
            final(self).wf(),
            leaves(old(self)@, final(self)@),
            final(self).has_same_tasks(*old(self)),
            final(self).history() == old(self).history().push(
                Run::Direct { before: old(self).data(), after: final(self).data() },
            ),
            final(self).calls() == old(self).calls().push(
                Call { before: old(self).data(), after: final(self).data(), guarded: true },
            ),
            final(self).since() == old(self).since(),
            forall|i: int|
                0 <= i < old(self)@.who.len() ==> final(self).closure(i) == old(self).closure(i),
            exists|d: &mut T| #[trigger]
                call_ensures(f, (d,), result) && *d == old(self).data() && *final(d)
                    == final(self).data(),
    {
        let ghost before = *self;
        proof {
            direct_thread_holds_the_lock(before@);
        }
        let result = self.lock.call(f);
        self.lock.raw_mut().release();
        self.direct = false;
        proof {
            let run = Run::Direct { before: before.data(), after: self.data() };
            lemma_run_more(before.history@, run, before.data());
            self.history@ = before.history@.push(run);
            assert(leaves(before@, self@));
            transition_keeps_consistent(before@, self@);
            if self.transport {
                caught_panics_do_no_harm(before@, self@);
            }
            assert forall|i: int|
                0 <= i < self.requesters@.len() implies #[trigger] self.requester_ok(i) by {
                assert(before.requester_ok(i));
            }
        }
        result
    }

    /// The words of the lock.
    pub fn raw(&self) -> (raw: &RawLock)
        ensures
            raw.status() == self@.memory.status,
            raw.tail() == self@.memory.tail,
    {
        self.lock.get_raw()
    }

    /// Mutable access to the data through an exclusive borrow.
    pub fn get_mut(&mut self) -> (data: &mut T)
        requires
            old(self).wf(),
        ensures
            *data == old(self).data(),
            final(self).data() == *final(data),
            final(self).calls() == old(self).calls(),
            final(self)@ == old(self)@,
            final(self).has_same_tasks(*old(self)),
            final(self).history().len() == 0,
            final(self).since() == old(self)@.started.len(),
            forall|i: int|
                0 <= i < old(self)@.who.len() ==> final(self).closure(i) == old(self).closure(i),
            final(self).wf(),
    {
        proof {
            self.history@ = Seq::empty();
            self.since@ = self.started@.len();
            assert(self.started@.skip(self.since@ as int) =~= Seq::<NodeId>::empty());
        }
        self.lock.get_mut()
    }
}

/// All that [`super::protocol`] proves of consistent worlds holds of every crowd, and where
/// panics are transported, nothing unwinds through its threads.
pub proof fn crowds_are_consistent<T, F: FnOnce(&mut T) -> Result<R, P>, R, P>(
    crowd: Crowd<T, F, R, P>,
)
    requires
        crowd.wf(),
    ensures
        consistent(crowd@),
        crowd.transport() ==> is_healthy(crowd@),
{
}

/// The data behind the lock is what is left when the closures of the history run one after
/// another, each on what the one before it left. The tasks among them are those that were
/// run since the data was last lent out, in the order of joining, each with the closure
/// that its requester has joined with.
pub proof fn data_is_that_of_a_serial_run<T, F: FnOnce(&mut T) -> Result<R, P>, R, P>(
    crowd: Crowd<T, F, R, P>,
)
    requires
        crowd.wf(),
    ensures
        leads_to(crowd.history(), crowd.data()),
        crowd.since() <= crowd@.started.len(),
        queued_nodes(crowd.history()) == crowd@.started.skip(crowd.since() as int),
        forall|a: int, b: int|
            0 <= a < b < crowd@.started.len() ==> (#[trigger] crowd@.started[a]) < (
            #[trigger] crowd@.started[b]),
        forall|k: int|
            0 <= k < crowd.history().len() ==> (#[trigger] crowd.history()[k] matches Run::Queued {
                node,
                f,
                ..
            } ==> node < crowd@.who.len() && f == crowd.closure(node as int)),
{
    assert forall|a: int, b: int| 0 <= a < b < crowd@.started.len() implies (
    #[trigger] crowd@.started[a]) < (#[trigger] crowd@.started[b]) by {
        tasks_run_in_order(crowd@, a, b);
    }
    assert forall|k: int| 0 <= k < crowd.history().len() implies (
    #[trigger] crowd.history()[k] matches Run::Queued { node, f, .. } ==> node < crowd@.who.len()
        && f == crowd.closure(node as int)) by {
        assert(crowd.history()[k] == crowd.history@[k]);
    }
}

/// A request that ends as completed comes to what its closure returned in that serial run.
pub proof fn results_are_those_of_a_serial_run<T, F: FnOnce(&mut T) -> Result<R, P>, R, P>(
    crowd: Crowd<T, F, R, P>,
    id: NodeId,
    k: int,
)
    requires
        crowd.wf(),
        id < crowd@.who.len(),
        crowd@.who[id as int] == (Phase::Finished { outcome: Outcome::Completed }),
        !crowd.collected(id as int),
        0 <= k < crowd.history().len(),
        crowd.history()[k] matches Run::Queued { node, .. } && node == id,
    ensures
        ending_of(crowd, id) == (match crowd.history()[k]->result {
            Ok(value) => Ending::<R, P>::Returned(value),
            Err(payload) => Ending::<R, P>::Resumed(payload),
        }),
{
    outcomes_are_true(crowd@, id as int);
    assert(crowd.history()[k] == crowd.history@[k]);
}

/// Every task that was run to its end is in the history, if the data was never lent out.
pub proof fn completed_tasks_are_in_the_history<T, F: FnOnce(&mut T) -> Result<R, P>, R, P>(
    crowd: Crowd<T, F, R, P>,
    id: NodeId,
)
    requires
        crowd.wf(),
        crowd.since() == 0,
        id < crowd@.who.len(),
        crowd@.completed[id as int],
    ensures
        exists|k: int|
            0 <= k < crowd.history().len() && (#[trigger] crowd.history()[k] matches Run::Queued {
                node,
                ..
            } && node == id),
{
    outcomes_are_true(crowd@, id as int);
    assert(crowd@.started.skip(0) =~= crowd@.started);
    lemma_queued_run(crowd.history(), id);
}

/// Whether the history of `after` is that of `before` with one task more.
pub open spec fn has_one_task_more<T, F: FnOnce(&mut T) -> Result<R, P>, R, P>(
    before: Crowd<T, F, R, P>,
    after: Crowd<T, F, R, P>,
) -> bool {
    &&& after.history().len() > 0
    &&& after.history().drop_last() == before.history()
    &&& after.history().last() is Queued
}

/// Whether the history of `after` is that of `before`, or with one closure more that was
/// run without queuing, or begins anew.
pub open spec fn has_no_task_more<T, F: FnOnce(&mut T) -> Result<R, P>, R, P>(
    before: Crowd<T, F, R, P>,
    after: Crowd<T, F, R, P>,
) -> bool {
    ||| after.history() == before.history()
    ||| after.history().len() == 0
    ||| after.history().drop_last() == before.history() && after.history().last() is Direct
}

/// However the actions of any number of threads interleave, the results and the data are
/// those of the closures run one after another. In words of the contracts: let a crowd be
/// as in `states` before and after each call of its methods, where a task that was run came
/// with a call of its closure, as [`Crowd::step`] says. Then every task in the history at
/// the end is such a call, from the data that the run before it left to the data that it
/// left itself, and the last run left the data behind the lock.
pub proof fn whole_runs_are_serial<T, F: FnOnce(&mut T) -> Result<R, P>, R, P>(
    states: Seq<Crowd<T, F, R, P>>,
)
    requires
        states.len() > 0,
        states[0].history().len() == 0,
        states.last().wf(),
        forall|k: int|
            0 < k < states.len() ==> has_no_task_more(states[k - 1], #[trigger] states[k]) || (
            has_one_task_more(states[k - 1], states[k]) && exists|
                d: &mut T,
                f: F,
                result: Result<R, P>,
            | #[trigger]
                call_ensures(f, (d,), result) && states[k].history().last() == (Run::Queued {
                    node: states[k].history().last()->node,
                    f,
                    before: *d,
                    after: *final(d),
                    result,
                })),
    ensures
        leads_to(states.last().history(), states.last().data()),
        forall|j: int|
            0 <= j < states.last().history().len() && (#[trigger] states.last().history()[j])
                is Queued ==> exists|d: &mut T, f: F, result: Result<R, P>| #[trigger]
                call_ensures(f, (d,), result) && states.last().history()[j] == (Run::Queued {
                    node: states.last().history()[j]->node,
                    f,
                    before: *d,
                    after: *final(d),
                    result,
                }),
{
    lemma_tasks_were_called(states);
}

proof fn lemma_tasks_were_called<T, F: FnOnce(&mut T) -> Result<R, P>, R, P>(
    states: Seq<Crowd<T, F, R, P>>,
)
    requires
        states.len() > 0,
        states[0].history().len() == 0,
        forall|k: int|
            0 < k < states.len() ==> has_no_task_more(states[k - 1], #[trigger] states[k]) || (
            has_one_task_more(states[k - 1], states[k]) && exists|
                d: &mut T,
                f: F,
                result: Result<R, P>,
            | #[trigger]
                call_ensures(f, (d,), result) && states[k].history().last() == (Run::Queued {
                    node: states[k].history().last()->node,
                    f,
                    before: *d,
                    after: *final(d),
                    result,
                })),
    ensures
        forall|j: int|
            0 <= j < states.last().history().len() && (#[trigger] states.last().history()[j])
                is Queued ==> exists|d: &mut T, f: F, result: Result<R, P>| #[trigger]
                call_ensures(f, (d,), result) && states.last().history()[j] == (Run::Queued {
                    node: states.last().history()[j]->node,
                    f,
                    before: *d,
                    after: *final(d),
                    result,
                }),
    decreases states.len(),
{
    if states.len() > 1 {
        let earlier = states.drop_last();
        assert forall|k: int| 0 < k < earlier.len() implies #[trigger] earlier[k] == states[k]
            && earlier[k - 1] == states[k - 1] by {}
        lemma_tasks_were_called(earlier);
        let now = states.last().history();
        let then = earlier.last().history();
        assert(states[states.len() - 1] == states.last());
        assert(earlier.last() == states[states.len() - 2]);
        assert forall|j: int| 0 <= j < now.len() - 1 && now.len() == then.len() + 1 && then
            == now.drop_last() implies #[trigger] now[j] == then[j] by {}
    }
}

} // verus!
