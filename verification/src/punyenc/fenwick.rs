//! The Fenwick tree of the `ftree` crate over `u64` values, and the sums that
//! its contracts speak of.

use ftree::FenwickTree;
use vstd::prelude::*;

verus! {

/// `ftree::FenwickTree`, opaque; see [`fenwick_values`] for what it holds.
#[verifier::external_type_specification]
#[verifier::external_body]
#[verifier::reject_recursive_types(T)]
pub struct ExFenwickTree<T>(FenwickTree<T>);

/// The values that a tree holds, one for each position.
pub uninterp spec fn fenwick_values(tree: FenwickTree<u64>) -> Seq<u64>;

/// The sum of a sequence of values.
pub open spec fn values_sum(values: Seq<u64>) -> int
    decreases values.len(),
{
    if values.len() == 0 {
        0
    } else {
        values_sum(values.drop_last()) + values.last()
    }
}

/// `FenwickTree::from_iter`: the tree holds the given values in their order.
/// Each slot is a sum of some of the values, so none overflows where the sum of
/// all of them fits.
#[verifier::external_body]
pub(crate) fn fenwick_from_values(values: Vec<u64>) -> (tree: FenwickTree<u64>)
    requires
        values_sum(values@) <= u64::MAX,
    ensures
        fenwick_values(tree) == values@,
{
    FenwickTree::from_iter(values)
}

/// `FenwickTree::prefix_sum`: the sum of the values before `index`, added to
/// `sum`. It panics for an `index` above the number of values.
#[verifier::external_body]
pub(crate) fn fenwick_prefix_sum(tree: &FenwickTree<u64>, index: usize, sum: u64) -> (total: u64)
    requires
        index <= fenwick_values(*tree).len(),
        sum + values_sum(fenwick_values(*tree).take(index as int)) <= u64::MAX,
    ensures
        total == sum + values_sum(fenwick_values(*tree).take(index as int)),
{
    tree.prefix_sum(index, sum)
}

/// `FenwickTree::add_at`: adds `diff` to the value at `index` and leaves every
/// other value as it is. Each slot is a sum of some of the values, so none
/// overflows where the new sum of all of them fits.
#[verifier::external_body]
pub(crate) fn fenwick_add_at(tree: &mut FenwickTree<u64>, index: usize, diff: u64)
    requires
        index < fenwick_values(*old(tree)).len(),
        values_sum(fenwick_values(*old(tree))) + diff <= u64::MAX,
    ensures
        fenwick_values(*final(tree)) == fenwick_values(*old(tree)).update(
            index as int,
            (fenwick_values(*old(tree))[index as int] + diff) as u64,
        ),
{
    tree.add_at(index, diff)
}

/// Values of at most one sum to at most their number.
pub proof fn lemma_sum_of_indicators(values: Seq<u64>)
    requires
        forall|j: int| 0 <= j < values.len() ==> values[j] <= 1,
    ensures
        0 <= values_sum(values) <= values.len(),
    decreases values.len(),
{
    if values.len() > 0 {
        lemma_sum_of_indicators(values.drop_last());
    }
}

/// Replacing one value changes the sum by the difference.
pub proof fn lemma_sum_of_update(values: Seq<u64>, index: int, value: u64)
    requires
        0 <= index < values.len(),
    ensures
        values_sum(values.update(index, value)) == values_sum(values) - values[index] + value,
    decreases values.len(),
{
    let updated = values.update(index, value);
    if index == values.len() - 1 {
        assert(updated.drop_last() =~= values.drop_last());
    } else {
        lemma_sum_of_update(values.drop_last(), index, value);
        assert(updated.drop_last() =~= values.drop_last().update(index, value));
    }
}

} // verus!
