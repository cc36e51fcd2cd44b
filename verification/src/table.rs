//! Range tables and the lookup engine.
//!
//! A table holds the allocated ranges of one address family, sorted by their
//! first address. A lookup finds the last range that starts at or below the
//! address and reports it if the address is not beyond its end.

use vstd::prelude::*;
use crate::geo::GeoInfo;

verus! {

/// One range of a table, in either family: its first and last address and
/// the classification of the addresses between them.
pub struct RangeEntry {
    pub start: int,
    pub end: int,
    pub info: GeoInfo,
}

/// What the ranges of both families have in common: each is an entry, whose
/// parts can be read.
pub trait AddressRange: Sized {
    /// The entry that this range is.
    spec fn entry(&self) -> RangeEntry;

    /// The first address of the range.
    fn first(&self) -> (address: u128)
        ensures
            address == self.entry().start,
    ;

    /// The last address of the range.
    fn last(&self) -> (address: u128)
        ensures
            address == self.entry().end,
    ;

    /// The classification of the addresses of the range.
    fn info(&self) -> (info: &GeoInfo)
        ensures
            *info == self.entry().info,
    ;
}

/// A range of IPv4 addresses, both ends included.
#[derive(Debug, Clone, Copy)]
pub struct V4Range {
    pub start: u32,
    pub end: u32,
    pub info: GeoInfo,
}

/// A range of IPv6 addresses, both ends included.
#[derive(Debug, Clone, Copy)]
pub struct V6Range {
    pub start: u128,
    pub end: u128,
    pub info: GeoInfo,
}

impl AddressRange for V4Range {
    open spec fn entry(&self) -> RangeEntry {
        RangeEntry { start: self.start as int, end: self.end as int, info: self.info }
    }

    fn first(&self) -> (address: u128) {
        self.start as u128
    }

    fn last(&self) -> (address: u128) {
        self.end as u128
    }

    fn info(&self) -> (info: &GeoInfo) {
        &self.info
    }
}

impl AddressRange for V6Range {
    open spec fn entry(&self) -> RangeEntry {
        RangeEntry { start: self.start as int, end: self.end as int, info: self.info }
    }

    fn first(&self) -> (address: u128) {
        self.start
    }

    fn last(&self) -> (address: u128) {
        self.end
    }

    fn info(&self) -> (info: &GeoInfo) {
        &self.info
    }
}

/// The entries that the given ranges are, in their order.
pub open spec fn entries<R: AddressRange>(ranges: Seq<R>) -> Seq<RangeEntry> {
    ranges.map_values(|r: R| r.entry())
}

/// Whether the entries are in ascending order of their first address.
pub open spec fn sorted_by_start(table: Seq<RangeEntry>) -> bool {
    forall|i: int, j: int| 0 <= i <= j < table.len() ==> table[i].start <= table[j].start
}

/// Whether every entry ends at or after its first address.
pub open spec fn well_formed_ranges(table: Seq<RangeEntry>) -> bool {
    forall|i: int| 0 <= i < table.len() ==> (#[trigger] table[i]).start <= table[i].end
}

/// Whether each entry ends before the next one starts.
pub open spec fn non_overlapping(table: Seq<RangeEntry>) -> bool {
    forall|i: int| 0 <= i && i + 1 < table.len() ==> (#[trigger] table[i]).end < table[i + 1].start
}

/// The position of the last entry that starts at or below `address`, if
/// there is one.
pub open spec fn predecessor(table: Seq<RangeEntry>, address: int) -> Option<int>
    decreases table.len(),
{
    if table.len() == 0 {
        None
    } else if table.last().start <= address {
        Some(table.len() - 1)
    } else {
        predecessor(table.drop_last(), address)
    }
}

/// The classification that a lookup of `address` reports: that of its
/// predecessor entry, where there is one and `address` is not beyond its end.
pub open spec fn lookup_in(table: Seq<RangeEntry>, address: int) -> Option<GeoInfo> {
    match predecessor(table, address) {
        Some(i) if address <= table[i].end => Some(table[i].info),
        _ => None,
    }
}

/// Whether `found` is what a lookup of `address` in `table` reports.
pub open spec fn is_lookup_result(
    found: Option<&GeoInfo>,
    table: Seq<RangeEntry>,
    address: int,
) -> bool {
    match found {
        Some(info) => lookup_in(table, address) == Some(*info),
        None => lookup_in(table, address) is None,
    }
}

/// A predecessor is an entry of the table that starts at or below the
/// address.
pub proof fn lemma_predecessor_in_range(table: Seq<RangeEntry>, address: int)
    requires
        predecessor(table, address) is Some,
    ensures
        0 <= predecessor(table, address).unwrap() < table.len(),
        table[predecessor(table, address).unwrap()].start <= address,
    decreases table.len(),
{
    if table.len() > 0 && !(table.last().start <= address) {
        lemma_predecessor_in_range(table.drop_last(), address);
    }
}

/// In a sorted table the predecessor is told by the number of entries that
/// start at or below the address.
pub proof fn lemma_predecessor_of_sorted(table: Seq<RangeEntry>, address: int, below: int)
    requires
        sorted_by_start(table),
        0 <= below <= table.len(),
        forall|j: int| 0 <= j < below ==> table[j].start <= address,
        forall|j: int| below <= j < table.len() ==> table[j].start > address,
    ensures
        predecessor(table, address) == if below == 0 {
            None
        } else {
            Some(below - 1)
        },
    decreases table.len(),
{
    if table.len() > 0 && below < table.len() {
        let front = table.drop_last();
        assert(sorted_by_start(front)) by {
            assert forall|i: int, j: int| 0 <= i <= j < front.len() implies front[i].start
                <= front[j].start by {
                assert(front[i] == table[i] && front[j] == table[j]);
            }
        }
        lemma_predecessor_of_sorted(front, address, below);
    }
}

/// A table in which every entry ends at or after its start and before the
/// next one starts is in ascending order of first addresses.
pub proof fn lemma_chain_is_sorted(table: Seq<RangeEntry>)
    requires
        well_formed_ranges(table),
        non_overlapping(table),
    ensures
        sorted_by_start(table),
{
    assert forall|i: int, j: int| 0 <= i <= j < table.len() implies table[i].start
        <= table[j].start by {
        lemma_chain_step(table, i, j);
    }
}

/// Along such a table first addresses do not fall.
proof fn lemma_chain_step(table: Seq<RangeEntry>, i: int, j: int)
    requires
        well_formed_ranges(table),
        non_overlapping(table),
        0 <= i <= j < table.len(),
    ensures
        table[i].start <= table[j].start,
    decreases j - i,
{
    if i < j {
        lemma_chain_step(table, i, j - 1);
        assert(table[j - 1].start <= table[j - 1].end);
        assert(table[j - 1].end < table[j - 1 + 1].start);
    }
}

/// An address within an entry of a sorted table without overlaps is found,
/// and has the classification of that entry.
pub proof fn lemma_lookup_within_entry(table: Seq<RangeEntry>, i: int, address: int)
    requires
        sorted_by_start(table),
        non_overlapping(table),
        0 <= i < table.len(),
        table[i].start <= address <= table[i].end,
    ensures
        lookup_in(table, address) == Some(table[i].info),
{
    assert forall|j: int| 0 <= j < i + 1 implies table[j].start <= address by {
        assert(table[j].start <= table[i].start);
    }
    assert forall|j: int| i + 1 <= j < table.len() implies table[j].start > address by {
        assert(table[i].end < table[i + 1].start);
        assert(table[i + 1].start <= table[j].start);
    }
    lemma_predecessor_of_sorted(table, address, i + 1);
}

/// An address strictly between the end of one entry of a sorted table and
/// the start of the next is not found.
pub proof fn lemma_lookup_between_entries(table: Seq<RangeEntry>, i: int, address: int)
    requires
        sorted_by_start(table),
        well_formed_ranges(table),
        0 <= i,
        i + 1 < table.len(),
        table[i].end < address < table[i + 1].start,
    ensures
        lookup_in(table, address) is None,
{
    assert(table[i].start <= table[i].end);
    assert forall|j: int| 0 <= j < i + 1 implies table[j].start <= address by {
        assert(table[j].start <= table[i].start);
    }
    assert forall|j: int| i + 1 <= j < table.len() implies table[j].start > address by {
        assert(table[i + 1].start <= table[j].start);
    }
    lemma_predecessor_of_sorted(table, address, i + 1);
}

/// An address beyond the end of the last entry of a sorted table is not
/// found.
pub proof fn lemma_lookup_above_last(table: Seq<RangeEntry>, address: int)
    requires
        sorted_by_start(table),
        well_formed_ranges(table),
        table.len() > 0,
        table.last().end < address,
    ensures
        lookup_in(table, address) is None,
{
    assert(table.last().start <= table.last().end);
}

/// An address below the first entry of a sorted table is not found, and in
/// an empty table no address is.
pub proof fn lemma_lookup_below_first(table: Seq<RangeEntry>, address: int)
    requires
        sorted_by_start(table),
        table.len() > 0 ==> address < table[0].start,
    ensures
        lookup_in(table, address) is None,
{
    assert forall|j: int| 0 <= j < table.len() implies table[j].start > address by {
        assert(table[0].start <= table[j].start);
    }
    lemma_predecessor_of_sorted(table, address, 0);
}

/// Counts the ranges of a sorted table that start at or below `address`, by
/// halving the part of the table in which the count can lie.
fn count_at_or_below<R: AddressRange>(ranges: &Vec<R>, address: u128) -> (below: usize)
    requires
        sorted_by_start(entries(ranges@)),
    ensures
        below <= ranges@.len(),
        forall|j: int| 0 <= j < below ==> entries(ranges@)[j].start <= address,
        forall|j: int| below <= j < ranges@.len() ==> entries(ranges@)[j].start > address,
{
    let ghost table = entries(ranges@);
    let mut lo: usize = 0;
    let mut hi: usize = ranges.len();
    while lo < hi
        invariant
            table == entries(ranges@),
            sorted_by_start(table),
            lo <= hi <= ranges@.len(),
            forall|j: int| 0 <= j < lo ==> table[j].start <= address,
            forall|j: int| hi <= j < ranges@.len() ==> table[j].start > address,
        decreases hi - lo,
    {
        let mid = lo + (hi - lo) / 2;
        assert(table[mid as int] == ranges@[mid as int].entry());
        if address < ranges[mid].first() {
            assert forall|j: int| mid <= j < ranges@.len() implies table[j].start > address by {
                assert(table[mid as int].start <= table[j].start);
            }
            hi = mid;
        } else {
            assert forall|j: int| 0 <= j < mid + 1 implies table[j].start <= address by {
                assert(table[j].start <= table[mid as int].start);
            }
            lo = mid + 1;
        }
    }
    lo
}

/// Looks `address` up in a sorted table.
///
/// The search finds how many ranges start at or below `address`; the last of
/// them is the one candidate, and it matches if `address` is not beyond its
/// end.
pub fn find<'a, R: AddressRange>(ranges: &'a Vec<R>, address: u128) -> (found: Option<&'a GeoInfo>)
    requires
        sorted_by_start(entries(ranges@)),
    ensures
        is_lookup_result(found, entries(ranges@), address as int),
{
    let below = count_at_or_below(ranges, address);
    proof {
        lemma_predecessor_of_sorted(entries(ranges@), address as int, below as int);
    }
    if below == 0 {
        return None;
    }
    let range = &ranges[below - 1];
    assert(entries(ranges@)[below - 1] == range.entry());
    if address <= range.last() {
        Some(range.info())
    } else {
        None
    }
}

} // verus!
