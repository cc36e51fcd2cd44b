//! Sorting a table by first address.
//!
//! The tables are sorted by the standard library. What its sort promises is
//! stated here over the entries of the table: the sorted table holds the
//! entries of the input in an order that is ascending in the first address
//! and that leaves entries with the same first address in their order.

use vstd::prelude::*;
use crate::table::{entries, sorted_by_start, well_formed_ranges, AddressRange, RangeEntry};

verus! {

/// Whether `order` names the position `k`.
pub open spec fn names(order: Seq<int>, k: int) -> bool {
    exists|i: int| 0 <= i < order.len() && order[i] == k
}

/// Whether `order` names each position below `n` exactly once.
pub open spec fn is_reordering(order: Seq<int>, n: nat) -> bool {
    &&& order.len() == n
    &&& forall|i: int| 0 <= i < n ==> 0 <= #[trigger] order[i] < n
    &&& forall|i: int, j: int| 0 <= i < j < n ==> order[i] != order[j]
    &&& forall|k: int| 0 <= k < n ==> #[trigger] names(order, k)
}

/// Whether `table` holds the entries of `input` in the given order, and that
/// order is ascending in the first address and keeps entries with the same
/// first address as they were.
pub open spec fn sorted_in_order(
    table: Seq<RangeEntry>,
    input: Seq<RangeEntry>,
    order: Seq<int>,
) -> bool {
    &&& is_reordering(order, input.len())
    &&& table.len() == input.len()
    &&& forall|i: int| 0 <= i < table.len() ==> (#[trigger] table[i]) == input[order[i]]
    &&& sorted_by_start(table)
    &&& forall|i: int, j: int|
        0 <= i < j < table.len() && table[i].start == table[j].start ==> order[i] < order[j]
}

/// Whether `table` is `input` sorted by first address, stably: it holds the
/// same entries, each as often, in ascending order of their first address,
/// and entries with the same first address in the order of `input`.
pub open spec fn is_stable_sort_of(table: Seq<RangeEntry>, input: Seq<RangeEntry>) -> bool {
    exists|order: Seq<int>| sorted_in_order(table, input, order)
}

/// Only one table is a given input sorted: the order of the input decides
/// between entries with the same first address.
pub proof fn lemma_stable_sort_is_unique(
    first: Seq<RangeEntry>,
    second: Seq<RangeEntry>,
    input: Seq<RangeEntry>,
)
    requires
        is_stable_sort_of(first, input),
        is_stable_sort_of(second, input),
    ensures
        first == second,
{
    let o1 = choose|order: Seq<int>| sorted_in_order(first, input, order);
    let o2 = choose|order: Seq<int>| sorted_in_order(second, input, order);
    assert forall|i: int| 0 <= i < first.len() implies first[i] == second[i] by {
        lemma_orders_agree(first, second, input, o1, o2, i);
    }
    assert(first =~= second);
}

/// Two orders that sort one input agree at every position.
proof fn lemma_orders_agree(
    first: Seq<RangeEntry>,
    second: Seq<RangeEntry>,
    input: Seq<RangeEntry>,
    o1: Seq<int>,
    o2: Seq<int>,
    i: int,
)
    requires
        sorted_in_order(first, input, o1),
        sorted_in_order(second, input, o2),
        0 <= i < input.len(),
    ensures
        o1[i] == o2[i],
    decreases i,
{
    assert forall|k: int| 0 <= k < i implies o1[k] == o2[k] by {
        lemma_orders_agree(first, second, input, o1, o2, k);
    }
    let a = o1[i];
    let b = o2[i];
    assert(names(o2, a));
    let j = choose|j: int| 0 <= j < o2.len() && o2[j] == a;
    assert(names(o1, b));
    let k = choose|k: int| 0 <= k < o1.len() && o1[k] == b;
    assert(j >= i) by {
        if j < i {
            assert(o1[j] == o2[j]);
        }
    }
    assert(k >= i) by {
        if k < i {
            assert(o2[k] == o1[k]);
        }
    }
    assert(first[i] == input[a] && first[k] == input[b]);
    assert(second[i] == input[b] && second[j] == input[a]);
    assert(first[i].start <= first[k].start);
    assert(second[i].start <= second[j].start);
}

/// Sorting keeps every entry as it is: where each input block ends at or
/// after its start, so does each entry of the table.
pub proof fn lemma_sort_keeps_ranges(table: Seq<RangeEntry>, input: Seq<RangeEntry>)
    requires
        is_stable_sort_of(table, input),
        well_formed_ranges(input),
    ensures
        well_formed_ranges(table),
        sorted_by_start(table),
        table.len() == input.len(),
{
    let order = choose|order: Seq<int>| sorted_in_order(table, input, order);
    assert forall|i: int| 0 <= i < table.len() implies (#[trigger] table[i]).start
        <= table[i].end by {
        assert(table[i] == input[order[i]]);
    }
}

/// `<[T]>::sort_by_key`, with the first address as the key: puts the ranges
/// in ascending order of their first address and keeps ranges with the same
/// first address in the order they had.
///
/// The contract is taken on trust from the documentation of the standard
/// library; the body is not verified.
#[verifier::external_body]
pub(crate) fn sort_by_start<R: AddressRange>(ranges: &mut Vec<R>)
    ensures
        is_stable_sort_of(entries(final(ranges)@), entries(old(ranges)@)),
{
    ranges.sort_by_key(|r| r.first());
}

} // verus!
