//! The database: both range tables behind one set of operations.
//!
//! A database is made once, from the built-in snapshot or from the text of a
//! statistics file, and is only read after that.

use vstd::prelude::*;
use vstd::string::*;
use vstd::utf8::encode_utf8;
use crate::address::IpAddress;
use crate::builder::{
    block_end, build_tables, holds_address, lemma_address_of_block_is_found,
    lemma_address_outside_blocks_is_not_found, lemma_disjoint_blocks_give_non_overlapping_table,
    lemma_entries_of_records_are_ranges, pairwise_disjoint, v4_entries_of, v4_entry_of,
    v6_entries_of, v6_entry_of,
};
use crate::embedded::{
    embedded_v4_ranges, embedded_v4_table, embedded_v6_ranges, embedded_v6_table,
    lemma_embedded_tables_in_order,
};
use crate::geo::GeoInfo;
use crate::policy::classification;
use crate::record::{
    allocations, lemma_line_with_record, parse_records, parse_ripe_delegated, record_of,
    Allocation, IpRange,
};
use crate::sorting::is_stable_sort_of;
use crate::text::NEWLINE;
use crate::table::{
    entries, find, is_lookup_result, lookup_in, non_overlapping, sorted_by_start,
    well_formed_ranges, AddressRange, RangeEntry, V4Range, V6Range,
};

verus! {

/// Offline, in-memory lookup database for allocation-based IP classification.
///
/// The default constructor (`new`) uses the built-in range tables.
/// Lookups are performed with binary search and do not allocate.
pub struct GeoIpDb {
    v4_ranges: Vec<V4Range>,
    v6_ranges: Vec<V6Range>,
}

/// Summary counts for the database contents.
#[derive(Debug)]
pub struct DbStats {
    pub total_v4_ranges: usize,
    pub total_v6_ranges: usize,
    pub eu_v4_ranges: usize,
    pub eu_v6_ranges: usize,
    pub non_eu_v4_ranges: usize,
    pub non_eu_v6_ranges: usize,
}

/// Whether a table is fit for lookups: in ascending order of first
/// addresses, every entry ending at or after its start.
pub open spec fn is_table(table: Seq<RangeEntry>) -> bool {
    sorted_by_start(table) && well_formed_ranges(table)
}

/// The number of entries of `table` that are classified as EU.
pub open spec fn eu_count(table: Seq<RangeEntry>) -> nat {
    table.filter(|entry: RangeEntry| entry.info.is_eu).len()
}

/// Counts the ranges that are classified as EU.
fn count_eu<R: AddressRange>(ranges: &Vec<R>) -> (count: usize)
    ensures
        count == eu_count(entries(ranges@)),
{
    let ghost table = entries(ranges@);
    let mut count: usize = 0;
    let mut i: usize = 0;
    assert(table.take(0) == Seq::<RangeEntry>::empty());
    while i < ranges.len()
        invariant
            table == entries(ranges@),
            i <= ranges@.len(),
            count == eu_count(table.take(i as int)),
            count <= i,
        decreases ranges@.len() - i,
    {
        proof {
            assert(table.take(i + 1) == table.take(i as int).push(ranges@[i as int].entry()));
            table.take(i as int).lemma_filter_len_push(
                |entry: RangeEntry| entry.info.is_eu,
                ranges@[i as int].entry(),
            );
        }
        if ranges[i].info().is_eu {
            count += 1;
        }
        i += 1;
    }
    assert(table.take(ranges@.len() as int) == table);
    count
}

impl GeoIpDb {
    /// Both tables of a database are fit for lookups, always.
    #[verifier::type_invariant]
    spec fn tables_in_order(self) -> bool {
        is_table(entries(self.v4_ranges@)) && is_table(entries(self.v6_ranges@))
    }

    /// The IPv4 table of the database.
    pub closed spec fn v4_table(&self) -> Seq<RangeEntry> {
        entries(self.v4_ranges@)
    }

    /// The IPv6 table of the database.
    pub closed spec fn v6_table(&self) -> Seq<RangeEntry> {
        entries(self.v6_ranges@)
    }

    /// Whether the tables are those that the given records make: each
    /// family's entries, sorted by first address, entries with the same first
    /// address in the order of the records.
    pub open spec fn is_built_from(&self, records: Seq<Allocation>) -> bool {
        &&& is_stable_sort_of(self.v4_table(), v4_entries_of(records))
        &&& is_stable_sort_of(self.v6_table(), v6_entries_of(records))
    }

    /// Whether the tables are those of the built-in snapshot.
    pub open spec fn is_embedded(&self) -> bool {
        &&& self.v4_table() == embedded_v4_table()
        &&& self.v6_table() == embedded_v6_table()
    }

    /// What a lookup of `ip` reports: what the table of its family holds for
    /// it.
    pub open spec fn lookup_spec(&self, ip: IpAddress) -> Option<GeoInfo> {
        match ip {
            IpAddress::V4(a) => lookup_in(self.v4_table(), a as int),
            IpAddress::V6(a) => lookup_in(self.v6_table(), a as int),
        }
    }

    /// Whether `found` is what a lookup of `ip` reports.
    pub open spec fn is_lookup_of(&self, found: Option<&GeoInfo>, ip: IpAddress) -> bool {
        match found {
            Some(info) => self.lookup_spec(ip) == Some(*info),
            None => self.lookup_spec(ip) is None,
        }
    }

    /// Construct a database using the built-in range tables.
    ///
    /// This is the fastest and most predictable option: no I/O and no parsing
    /// at runtime.
    pub fn new() -> (db: GeoIpDb)
        ensures
            db.is_embedded(),
            is_table(db.v4_table()),
            is_table(db.v6_table()),
            non_overlapping(db.v4_table()),
            non_overlapping(db.v6_table()),
    {
        let v4_ranges = embedded_v4_ranges();
        let v6_ranges = embedded_v6_ranges();
        proof {
            lemma_embedded_tables_in_order();
        }
        GeoIpDb { v4_ranges, v6_ranges }
    }

    /// Build a database from allocation records: each family's records become
    /// that family's table, sorted by first address.
    pub fn from_records(records: &Vec<IpRange>) -> (db: GeoIpDb)
        ensures
            db.is_built_from(allocations(records@)),
            is_table(db.v4_table()),
            is_table(db.v6_table()),
    {
        let (v4_ranges, v6_ranges) = build_tables(records);
        GeoIpDb { v4_ranges, v6_ranges }
    }

    /// Build a database by parsing delegated statistics content at runtime.
    ///
    /// This is useful when you want to load newer data from a cache or ship
    /// your own dataset. The resulting ranges are sorted for efficient lookup.
    /// Lines that hold no record are passed over; no content makes this fail.
    pub fn from_ripe_delegated_str(content: &str) -> (db: GeoIpDb)
        ensures
            db.is_built_from(parse_records(content.spec_bytes())),
            is_table(db.v4_table()),
            is_table(db.v6_table()),
    {
        let parsed = parse_ripe_delegated(content);
        GeoIpDb::from_records(&parsed)
    }

    /// Build a database from what reading a statistics file gave: from its
    /// content where it was read, and not at all where reading failed.
    ///
    /// # Errors
    /// Returns the error of the read. No content makes this fail.
    pub fn from_ripe_delegated_file<E>(read: Result<String, E>) -> (loaded: Result<GeoIpDb, E>)
        ensures
            match read {
                Ok(content) => loaded is Ok && loaded->Ok_0.is_built_from(
                    parse_records(encode_utf8(content@)),
                ),
                Err(error) => loaded is Err && loaded->Err_0 == error,
            },
            loaded matches Ok(db) ==> is_table(db.v4_table()) && is_table(db.v6_table()),
    {
        match read {
            Ok(content) => Ok(GeoIpDb::from_ripe_delegated_str(content.as_str())),
            Err(error) => Err(error),
        }
    }

    /// Build the database from the content of a cache file where there is
    /// one, falling back to the built-in tables where there is none.
    ///
    /// `cached` is what reading the cache gave: its content, or nothing where
    /// it could not be read.
    pub fn from_cache_or_embedded(cached: Option<&str>) -> (db: GeoIpDb)
        ensures
            match cached {
                Some(content) => db.is_built_from(parse_records(content.spec_bytes())),
                None => db.is_embedded(),
            },
            is_table(db.v4_table()),
            is_table(db.v6_table()),
    {
        match cached {
            Some(content) => GeoIpDb::from_ripe_delegated_str(content),
            None => GeoIpDb::new(),
        }
    }

    /// The ranges of the IPv4 table, in their order.
    pub fn v4_ranges(&self) -> (ranges: &Vec<V4Range>)
        ensures
            entries(ranges@) == self.v4_table(),
            is_table(self.v4_table()),
    {
        proof {
            use_type_invariant(self);
        }
        &self.v4_ranges
    }

    /// The ranges of the IPv6 table, in their order.
    pub fn v6_ranges(&self) -> (ranges: &Vec<V6Range>)
        ensures
            entries(ranges@) == self.v6_table(),
            is_table(self.v6_table()),
    {
        proof {
            use_type_invariant(self);
        }
        &self.v6_ranges
    }

    /// Look up a single IPv4 address, given as its 32-bit number.
    ///
    /// Returns [`None`] if the address is not covered by the loaded ranges.
    pub fn lookup_v4(&self, ip: u32) -> (found: Option<&GeoInfo>)
        ensures
            is_lookup_result(found, self.v4_table(), ip as int),
            is_table(self.v4_table()),
    {
        proof {
            use_type_invariant(self);
        }
        find(&self.v4_ranges, ip as u128)
    }

    /// Look up a single IPv6 address, given as its 128-bit number.
    ///
    /// Returns [`None`] if the address is not covered by the loaded ranges.
    pub fn lookup_v6(&self, ip: u128) -> (found: Option<&GeoInfo>)
        ensures
            is_lookup_result(found, self.v6_table(), ip as int),
            is_table(self.v6_table()),
    {
        proof {
            use_type_invariant(self);
        }
        find(&self.v6_ranges, ip)
    }

    /// Look up an IP address (IPv4 or IPv6).
    pub fn lookup(&self, ip: IpAddress) -> (found: Option<&GeoInfo>)
        ensures
            self.is_lookup_of(found, ip),
    {
        match ip {
            IpAddress::V4(v4) => self.lookup_v4(v4),
            IpAddress::V6(v6) => self.lookup_v6(v6),
        }
    }

    /// Return `true` if the IP is covered by the database and classified as
    /// EU.
    ///
    /// Addresses not found in the database return `false`.
    pub fn is_eu(&self, ip: IpAddress) -> (eu: bool)
        ensures
            eu == match self.lookup_spec(ip) {
                Some(info) => info.is_eu,
                None => false,
            },
    {
        match self.lookup(ip) {
            Some(info) => info.is_eu,
            None => false,
        }
    }

    /// Return basic statistics about the loaded database.
    ///
    /// This can be useful for sanity checks (e.g., validating that data
    /// loaded correctly).
    pub fn stats(&self) -> (stats: DbStats)
        ensures
            stats.total_v4_ranges == self.v4_table().len(),
            stats.total_v6_ranges == self.v6_table().len(),
            stats.eu_v4_ranges == eu_count(self.v4_table()),
            stats.eu_v6_ranges == eu_count(self.v6_table()),
            stats.non_eu_v4_ranges == self.v4_table().len() - eu_count(self.v4_table()),
            stats.non_eu_v6_ranges == self.v6_table().len() - eu_count(self.v6_table()),
    {
        let total_v4_ranges = self.v4_ranges.len();
        let total_v6_ranges = self.v6_ranges.len();
        let eu_v4_ranges = count_eu(&self.v4_ranges);
        let eu_v6_ranges = count_eu(&self.v6_ranges);
        DbStats {
            total_v4_ranges,
            total_v6_ranges,
            eu_v4_ranges,
            eu_v6_ranges,
            non_eu_v4_ranges: total_v4_ranges - eu_v4_ranges,
            non_eu_v6_ranges: total_v6_ranges - eu_v6_ranges,
        }
    }
}

impl Default for GeoIpDb {
    /// The database of the built-in tables.
    fn default() -> (db: GeoIpDb)
        ensures
            db.is_embedded(),
    {
        GeoIpDb::new()
    }
}

/// In a database built from records of which no two blocks of one family
/// share an address, the tables have no overlaps: every entry ends before the
/// next one starts.
pub proof fn lemma_disjoint_blocks_give_tables_without_overlap(
    db: GeoIpDb,
    records: Seq<Allocation>,
)
    requires
        db.is_built_from(records),
        pairwise_disjoint(v4_entries_of(records)),
        pairwise_disjoint(v6_entries_of(records)),
    ensures
        non_overlapping(db.v4_table()),
        non_overlapping(db.v6_table()),
{
    lemma_entries_of_records_are_ranges(records);
    lemma_disjoint_blocks_give_non_overlapping_table(db.v4_table(), v4_entries_of(records));
    lemma_disjoint_blocks_give_non_overlapping_table(db.v6_table(), v6_entries_of(records));
}

/// From a line to a lookup, for IPv4: in a database built from a text of one
/// line that holds an IPv4 record, exactly the addresses of the record's
/// block are found, and with the classification of the record's country.
pub proof fn lemma_one_line_round_trip_v4(db: GeoIpDb, line: Seq<u8>, address: u32)
    requires
        forall|i: int| 0 <= i < line.len() ==> line[i] != NEWLINE,
        record_of(line) matches Some(record) && record.start_v4 is Some,
        db.is_built_from(parse_records(line)),
    ensures
        db.lookup_spec(IpAddress::V4(address)) == {
            let record = record_of(line).unwrap();
            let start = record.start_v4.unwrap();
            if start <= address <= block_end(start as int, record.count as int, u32::MAX as int) {
                Some(classification(record.country))
            } else {
                None
            }
        },
{
    let record = record_of(line).unwrap();
    let entry = v4_entry_of(record).unwrap();
    let input = v4_entries_of(parse_records(line));
    lemma_line_with_record(line);
    Seq::lemma_filter_map_singleton(record, |r: Allocation| v4_entry_of(r));
    assert(input == seq![entry]);
    if holds_address(entry, address as int) {
        lemma_address_of_block_is_found(db.v4_table(), input, 0, address as int);
    } else {
        lemma_address_outside_blocks_is_not_found(db.v4_table(), input, address as int);
    }
}

/// From a line to a lookup, for IPv6: in a database built from a text of one
/// line that holds an IPv6 record, exactly the addresses of the record's
/// block are found, and with the classification of the record's country.
pub proof fn lemma_one_line_round_trip_v6(db: GeoIpDb, line: Seq<u8>, address: u128)
    requires
        forall|i: int| 0 <= i < line.len() ==> line[i] != NEWLINE,
        record_of(line) matches Some(record) && record.start_v6 is Some,
        db.is_built_from(parse_records(line)),
    ensures
        db.lookup_spec(IpAddress::V6(address)) == {
            let record = record_of(line).unwrap();
            let start = record.start_v6.unwrap();
            if start <= address <= block_end(start as int, record.count as int, u128::MAX as int) {
                Some(classification(record.country))
            } else {
                None
            }
        },
{
    let record = record_of(line).unwrap();
    let entry = v6_entry_of(record).unwrap();
    let input = v6_entries_of(parse_records(line));
    lemma_line_with_record(line);
    Seq::lemma_filter_map_singleton(record, |r: Allocation| v6_entry_of(r));
    assert(input == seq![entry]);
    if holds_address(entry, address as int) {
        lemma_address_of_block_is_found(db.v6_table(), input, 0, address as int);
    } else {
        lemma_address_outside_blocks_is_not_found(db.v6_table(), input, address as int);
    }
}

/// Two lookups of one address in one database report the same.
pub proof fn lemma_lookup_is_repeatable(
    db: GeoIpDb,
    ip: IpAddress,
    first: Option<&GeoInfo>,
    second: Option<&GeoInfo>,
)
    requires
        db.is_lookup_of(first, ip),
        db.is_lookup_of(second, ip),
    ensures
        first is Some <==> second is Some,
        first is Some ==> *first.unwrap() == *second.unwrap(),
{
}

} // verus!
