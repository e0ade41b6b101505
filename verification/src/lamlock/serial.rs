//! Closures that were run on data one after another.

use super::rawlock::NodeId;
use vstd::prelude::*;

verus! {

/// A closure that was run on the data behind a lock.
pub ghost enum Run<T, F, R> {
    /// The task of a node, and what it returned.
    Queued { node: NodeId, f: F, before: T, after: T, result: R },
    /// The closure of a thread that had taken the lock without queuing.
    Direct { before: T, after: T },
}

impl<T, F, R> Run<T, F, R> {
    /// The data that the closure found.
    pub open spec fn before(self) -> T {
        match self {
            Run::Queued { before, .. } => before,
            Run::Direct { before, .. } => before,
        }
    }

    /// The data that the closure left.
    pub open spec fn after(self) -> T {
        match self {
            Run::Queued { after, .. } => after,
            Run::Direct { after, .. } => after,
        }
    }
}

/// A call of a closure on data that a word guards.
pub ghost struct Call<T> {
    /// The data that the closure found.
    pub before: T,
    /// The data that the closure left.
    pub after: T,
    /// Whether the word guarded the data when the closure was called.
    pub guarded: bool,
}

/// Whether the data was guarded when each closure from place `start` on was called.
pub open spec fn are_guarded<T>(calls: Seq<Call<T>>, start: int) -> bool {
    forall|i: int| start <= i < calls.len() ==> (#[trigger] calls[i]).guarded
}

/// Whether each closure has found what the one before it left, and the last has left
/// `data`.
pub open spec fn leads_to<T, F, R>(history: Seq<Run<T, F, R>>, data: T) -> bool {
    &&& forall|a: int, b: int|
        0 <= a < history.len() && b == a + 1 && b < history.len() ==> (
        #[trigger] history[a]).after() == (#[trigger] history[b]).before()
    &&& history.len() > 0 ==> history.last().after() == data
}

/// The nodes whose tasks were run, in the order of the runs.
pub open spec fn queued_nodes<T, F, R>(history: Seq<Run<T, F, R>>) -> Seq<NodeId>
    decreases history.len(),
{
    if history.len() == 0 {
        Seq::empty()
    } else {
        match history.last() {
            Run::Queued { node, .. } => queued_nodes(history.drop_last()).push(node),
            Run::Direct { .. } => queued_nodes(history.drop_last()),
        }
    }
}

/// One run more.
pub proof fn lemma_run_more<T, F, R>(history: Seq<Run<T, F, R>>, run: Run<T, F, R>, data: T)
    requires
        leads_to(history, data),
        run.before() == data,
    ensures
        leads_to(history.push(run), run.after()),
        queued_nodes(history.push(run)) == (match run {
            Run::Queued { node, .. } => queued_nodes(history).push(node),
            Run::Direct { .. } => queued_nodes(history),
        }),
{
    assert(history.push(run).drop_last() =~= history);
}

/// A node whose task was run has its run in the history.
pub proof fn lemma_queued_run<T, F, R>(history: Seq<Run<T, F, R>>, id: NodeId)
    requires
        queued_nodes(history).contains(id),
    ensures
        exists|k: int|
            0 <= k < history.len() && (#[trigger] history[k] matches Run::Queued { node, .. }
                && node == id),
    decreases history.len(),
{
    let earlier = history.drop_last();
    if queued_nodes(earlier).contains(id) {
        lemma_queued_run(earlier, id);
        let k = choose|k: int|
            0 <= k < earlier.len() && (#[trigger] earlier[k] matches Run::Queued { node, .. }
                && node == id);
        assert(history[k] == earlier[k]);
    } else {
        let nodes = queued_nodes(history);
        let a = choose|a: int| 0 <= a < nodes.len() && nodes[a] == id;
        if a < queued_nodes(earlier).len() {
            assert(queued_nodes(earlier)[a] == id);
        }
        assert(history[history.len() - 1] == history.last());
    }
}

} // verus!
