//! The range table builder: from allocation records to the sorted table of
//! each address family.
//!
//! Every record becomes one entry: its first address, the last address of
//! its block and the classification of its country. The entries of a family
//! are then put in ascending order of their first address. Blocks are taken
//! as they are given: the builder does not merge or reject blocks that
//! overlap.

use vstd::prelude::*;
use crate::policy::{classification, classify};
use crate::record::{allocations, Allocation, IpRange};
use crate::sorting::{
    is_stable_sort_of, lemma_sort_keeps_ranges, names, sort_by_start, sorted_in_order,
};
use crate::table::{
    entries, lemma_lookup_within_entry, lemma_predecessor_in_range, lookup_in, non_overlapping,
    predecessor, sorted_by_start, well_formed_ranges, AddressRange, RangeEntry, V4Range, V6Range,
};

verus! {

/// The last address of the block of `count` addresses that starts at
/// `start`, in an address space whose last address is `ceiling`: a block
/// that would run past the ceiling ends at it, and a block of no addresses
/// ends where it starts.
pub open spec fn block_end(start: int, count: int, ceiling: int) -> int {
    if count <= 1 {
        start
    } else if start + count - 1 > ceiling {
        ceiling
    } else {
        start + count - 1
    }
}

/// The entry that a record makes in the IPv4 table. A record is an IPv4
/// record where it has an IPv4 start address.
pub open spec fn v4_entry_of(record: Allocation) -> Option<RangeEntry> {
    match record.start_v4 {
        Some(start) => Some(
            RangeEntry {
                start: start as int,
                end: block_end(start as int, record.count as int, u32::MAX as int),
                info: classification(record.country),
            },
        ),
        None => None,
    }
}

/// The entry that a record makes in the IPv6 table. A record is an IPv6
/// record where it has an IPv6 start address and no IPv4 one.
pub open spec fn v6_entry_of(record: Allocation) -> Option<RangeEntry> {
    match (record.start_v4, record.start_v6) {
        (None, Some(start)) => Some(
            RangeEntry {
                start: start as int,
                end: block_end(start as int, record.count as int, u128::MAX as int),
                info: classification(record.country),
            },
        ),
        _ => None,
    }
}

/// The entries of the IPv4 records among `records`, in their order.
pub open spec fn v4_entries_of(records: Seq<Allocation>) -> Seq<RangeEntry> {
    records.filter_map(|record: Allocation| v4_entry_of(record))
}

/// The entries of the IPv6 records among `records`, in their order.
pub open spec fn v6_entries_of(records: Seq<Allocation>) -> Seq<RangeEntry> {
    records.filter_map(|record: Allocation| v6_entry_of(record))
}

/// Whether no two of the blocks share an address.
pub open spec fn pairwise_disjoint(input: Seq<RangeEntry>) -> bool {
    forall|i: int, j: int|
        0 <= i < j < input.len() ==> input[i].end < input[j].start || input[j].end
            < input[i].start
}

/// In a table built from blocks of which no two share an address, every
/// entry ends before the next one starts.
pub proof fn lemma_disjoint_blocks_give_non_overlapping_table(
    table: Seq<RangeEntry>,
    input: Seq<RangeEntry>,
)
    requires
        is_stable_sort_of(table, input),
        well_formed_ranges(input),
        pairwise_disjoint(input),
    ensures
        non_overlapping(table),
{
    let order = choose|order: Seq<int>| sorted_in_order(table, input, order);
    assert forall|i: int| 0 <= i && i + 1 < table.len() implies (#[trigger] table[i]).end
        < table[i + 1].start by {
        let a = order[i];
        let b = order[i + 1];
        assert(table[i] == input[a]);
        assert(table[i + 1] == input[b]);
        assert(a != b);
        assert(table[i].start <= table[i + 1].start);
        assert(input[b].start <= input[b].end);
        if a < b {
            assert(input[a].end < input[b].start || input[b].end < input[a].start);
        } else {
            assert(input[b].end < input[a].start || input[a].end < input[b].start);
        }
    }
}

/// Whether `address` lies within the block of `entry`.
pub open spec fn holds_address(entry: RangeEntry, address: int) -> bool {
    entry.start <= address <= entry.end
}

/// An address within one of the blocks that a table was built from is found
/// in the table, with the classification of that block, where no two of the
/// blocks share an address.
pub proof fn lemma_address_of_block_is_found(
    table: Seq<RangeEntry>,
    input: Seq<RangeEntry>,
    k: int,
    address: int,
)
    requires
        is_stable_sort_of(table, input),
        well_formed_ranges(input),
        pairwise_disjoint(input),
        0 <= k < input.len(),
        holds_address(input[k], address),
    ensures
        lookup_in(table, address) == Some(input[k].info),
{
    lemma_disjoint_blocks_give_non_overlapping_table(table, input);
    let order = choose|order: Seq<int>| sorted_in_order(table, input, order);
    assert(names(order, k));
    let p = choose|p: int| 0 <= p < order.len() && order[p] == k;
    assert(table[p] == input[order[p]]);
    lemma_lookup_within_entry(table, p, address);
}

/// An address within none of the blocks that a table was built from is not
/// found in the table.
pub proof fn lemma_address_outside_blocks_is_not_found(
    table: Seq<RangeEntry>,
    input: Seq<RangeEntry>,
    address: int,
)
    requires
        is_stable_sort_of(table, input),
        forall|k: int| 0 <= k < input.len() ==> !holds_address(#[trigger] input[k], address),
    ensures
        lookup_in(table, address) is None,
{
    let order = choose|order: Seq<int>| sorted_in_order(table, input, order);
    if predecessor(table, address) is Some {
        lemma_predecessor_in_range(table, address);
        let p = predecessor(table, address).unwrap();
        assert(table[p] == input[order[p]]);
        assert(!holds_address(input[order[p]], address));
    }
}

/// Every entry made from a record ends at or after its start.
pub proof fn lemma_entries_of_records_are_ranges(records: Seq<Allocation>)
    ensures
        well_formed_ranges(v4_entries_of(records)),
        well_formed_ranges(v6_entries_of(records)),
    decreases records.len(),
{
    if records.len() > 0 {
        lemma_entries_of_records_are_ranges(records.drop_last());
        assert(v4_entry_of(records.last()) matches Some(entry) ==> entry.start <= entry.end);
        assert(v6_entry_of(records.last()) matches Some(entry) ==> entry.start <= entry.end);
    }
}

/// The tables of both families that the given records make.
pub fn build_tables(records: &Vec<IpRange>) -> (tables: (Vec<V4Range>, Vec<V6Range>))
    ensures
        is_stable_sort_of(entries(tables.0@), v4_entries_of(allocations(records@))),
        is_stable_sort_of(entries(tables.1@), v6_entries_of(allocations(records@))),
        sorted_by_start(entries(tables.0@)),
        sorted_by_start(entries(tables.1@)),
        well_formed_ranges(entries(tables.0@)),
        well_formed_ranges(entries(tables.1@)),
{
    let ghost input = allocations(records@);
    let mut v4_ranges: Vec<V4Range> = Vec::new();
    let mut v6_ranges: Vec<V6Range> = Vec::new();
    let mut k: usize = 0;
    assert(input.take(0) == Seq::<Allocation>::empty());
    assert(entries(v4_ranges@) == Seq::<RangeEntry>::empty());
    assert(entries(v6_ranges@) == Seq::<RangeEntry>::empty());
    while k < records.len()
        invariant
            input == allocations(records@),
            k <= records@.len(),
            entries(v4_ranges@) == v4_entries_of(input.take(k as int)),
            entries(v6_ranges@) == v6_entries_of(input.take(k as int)),
            well_formed_ranges(entries(v4_ranges@)),
            well_formed_ranges(entries(v6_ranges@)),
        decreases records@.len() - k,
    {
        let r = &records[k];
        proof {
            assert(input[k as int] == r@);
            input.lemma_filter_map_take_succ(|record: Allocation| v4_entry_of(record), k as int);
            input.lemma_filter_map_take_succ(|record: Allocation| v6_entry_of(record), k as int);
        }
        let info = classify(r.country.as_str());
        if let Some(start) = r.start_v4 {
            let span: u128 = r.count.saturating_sub(1);
            let end: u32 = if span > (u32::MAX - start) as u128 {
                u32::MAX
            } else {
                start + span as u32
            };
            let range = V4Range { start, end, info };
            proof {
                assert(entries(v4_ranges@.push(range)) == entries(v4_ranges@) + seq![range.entry()]);
            }
            v4_ranges.push(range);
        } else if let Some(start) = r.start_v6 {
            let end: u128 = start.saturating_add(r.count.saturating_sub(1));
            let range = V6Range { start, end, info };
            proof {
                assert(entries(v6_ranges@.push(range)) == entries(v6_ranges@) + seq![range.entry()]);
            }
            v6_ranges.push(range);
        }
        k += 1;
    }
    assert(input.take(records@.len() as int) == input);
    let ghost v4_input = entries(v4_ranges@);
    let ghost v6_input = entries(v6_ranges@);
    sort_by_start(&mut v4_ranges);
    sort_by_start(&mut v6_ranges);
    proof {
        lemma_sort_keeps_ranges(entries(v4_ranges@), v4_input);
        lemma_sort_keeps_ranges(entries(v6_ranges@), v6_input);
    }
    (v4_ranges, v6_ranges)
}

} // verus!
