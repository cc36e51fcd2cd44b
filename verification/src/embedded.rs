//! The built-in snapshot: a table of each family that ships with the
//! library, already in order, so that a database can be had without reading
//! or parsing anything.
//!
//! The snapshot is a small selection of long-standing allocations. A fuller
//! and fresher table is built from a statistics file at run time.

use vstd::prelude::*;
use vstd::string::*;
use crate::policy::{classification, classify};
use crate::table::{
    entries, lemma_chain_is_sorted, non_overlapping, sorted_by_start, well_formed_ranges,
    AddressRange, RangeEntry, V4Range, V6Range,
};

verus! {

/// The IPv4 ranges of the snapshot: first address, last address, country.
pub const IPV4_RANGES: [(u32, u32, &'static str); 32] = [
    // 2.72.0.0/13
    (0x0248_0000, 0x024f_ffff, "KZ"),
    // 5.3.0.0/16
    (0x0503_0000, 0x0503_ffff, "RU"),
    // 31.13.24.0/21
    (0x1f0d_1800, 0x1f0d_1fff, "IE"),
    // 46.4.0.0/16
    (0x2e04_0000, 0x2e04_ffff, "DE"),
    // 51.15.0.0/16
    (0x330f_0000, 0x330f_ffff, "FR"),
    // 62.210.0.0/16
    (0x3ed2_0000, 0x3ed2_ffff, "FR"),
    // 62.219.0.0/16
    (0x3edb_0000, 0x3edb_ffff, "IL"),
    // 77.88.0.0/18
    (0x4d58_0000, 0x4d58_3fff, "RU"),
    // 78.46.0.0/15
    (0x4e2e_0000, 0x4e2f_ffff, "DE"),
    // 85.10.192.0/18
    (0x550a_c000, 0x550a_ffff, "DE"),
    // 88.198.0.0/16
    (0x58c6_0000, 0x58c6_ffff, "DE"),
    // 88.255.0.0/16
    (0x58ff_0000, 0x58ff_ffff, "TR"),
    // 91.198.174.0/24
    (0x5bc6_ae00, 0x5bc6_aeff, "NL"),
    // 93.72.0.0/13
    (0x5d48_0000, 0x5d4f_ffff, "UA"),
    // 94.200.0.0/14
    (0x5ec8_0000, 0x5ecb_ffff, "AE"),
    // 109.74.192.0/20
    (0x6d4a_c000, 0x6d4a_cfff, "GB"),
    // 129.132.0.0/16
    (0x8184_0000, 0x8184_ffff, "CH"),
    // 130.225.0.0/16
    (0x82e1_0000, 0x82e1_ffff, "DK"),
    // 130.237.0.0/16
    (0x82ed_0000, 0x82ed_ffff, "SE"),
    // 131.159.0.0/16
    (0x839f_0000, 0x839f_ffff, "DE"),
    // 145.220.0.0/16
    (0x91dc_0000, 0x91dc_ffff, "NL"),
    // 147.83.0.0/16
    (0x9353_0000, 0x9353_ffff, "ES"),
    // 176.9.0.0/16
    (0xb009_0000, 0xb009_ffff, "DE"),
    // 185.60.216.0/22
    (0xb93c_d800, 0xb93c_dbff, "IE"),
    // 188.48.0.0/13
    (0xbc30_0000, 0xbc37_ffff, "SA"),
    // 193.0.0.0/21
    (0xc100_0000, 0xc100_07ff, "NL"),
    // 195.154.0.0/16
    (0xc39a_0000, 0xc39a_ffff, "FR"),
    // 195.175.0.0/16
    (0xc3af_0000, 0xc3af_ffff, "TR"),
    // 212.58.224.0/19
    (0xd43a_e000, 0xd43a_ffff, "GB"),
    // 212.77.96.0/19
    (0xd44d_6000, 0xd44d_7fff, "PL"),
    // 213.180.192.0/19
    (0xd5b4_c000, 0xd5b4_dfff, "RU"),
    // 217.160.0.0/16
    (0xd9a0_0000, 0xd9a0_ffff, "DE"),
];

/// The IPv6 ranges of the snapshot: first address, last address, country.
pub const IPV6_RANGES: [(u128, u128, &'static str); 13] = [
    // 2001:610::/32
    (
        0x2001_0610_0000_0000_0000_0000_0000_0000,
        0x2001_0610_ffff_ffff_ffff_ffff_ffff_ffff,
        "NL",
    ),
    // 2001:638::/32
    (
        0x2001_0638_0000_0000_0000_0000_0000_0000,
        0x2001_0638_ffff_ffff_ffff_ffff_ffff_ffff,
        "DE",
    ),
    // 2001:660::/32
    (
        0x2001_0660_0000_0000_0000_0000_0000_0000,
        0x2001_0660_ffff_ffff_ffff_ffff_ffff_ffff,
        "FR",
    ),
    // 2001:67c:2e8::/48
    (
        0x2001_067c_02e8_0000_0000_0000_0000_0000,
        0x2001_067c_02e8_ffff_ffff_ffff_ffff_ffff,
        "NL",
    ),
    // 2001:6b0::/32
    (
        0x2001_06b0_0000_0000_0000_0000_0000_0000,
        0x2001_06b0_ffff_ffff_ffff_ffff_ffff_ffff,
        "SE",
    ),
    // 2001:700::/32
    (
        0x2001_0700_0000_0000_0000_0000_0000_0000,
        0x2001_0700_ffff_ffff_ffff_ffff_ffff_ffff,
        "NO",
    ),
    // 2001:708::/32
    (
        0x2001_0708_0000_0000_0000_0000_0000_0000,
        0x2001_0708_ffff_ffff_ffff_ffff_ffff_ffff,
        "FI",
    ),
    // 2001:41d0::/32
    (
        0x2001_41d0_0000_0000_0000_0000_0000_0000,
        0x2001_41d0_ffff_ffff_ffff_ffff_ffff_ffff,
        "FR",
    ),
    // 2a00:1098::/32
    (
        0x2a00_1098_0000_0000_0000_0000_0000_0000,
        0x2a00_1098_ffff_ffff_ffff_ffff_ffff_ffff,
        "GB",
    ),
    // 2a00:1450::/32
    (
        0x2a00_1450_0000_0000_0000_0000_0000_0000,
        0x2a00_1450_ffff_ffff_ffff_ffff_ffff_ffff,
        "IE",
    ),
    // 2a01:4f8::/32
    (
        0x2a01_04f8_0000_0000_0000_0000_0000_0000,
        0x2a01_04f8_ffff_ffff_ffff_ffff_ffff_ffff,
        "DE",
    ),
    // 2a02:6b8::/32
    (
        0x2a02_06b8_0000_0000_0000_0000_0000_0000,
        0x2a02_06b8_ffff_ffff_ffff_ffff_ffff_ffff,
        "RU",
    ),
    // 2a03:2880::/32
    (
        0x2a03_2880_0000_0000_0000_0000_0000_0000,
        0x2a03_2880_ffff_ffff_ffff_ffff_ffff_ffff,
        "IE",
    ),
];

/// The entry that a row of the IPv4 snapshot stands for.
pub open spec fn v4_row_entry(row: (u32, u32, &'static str)) -> RangeEntry {
    RangeEntry {
        start: row.0 as int,
        end: row.1 as int,
        info: classification(row.2.spec_bytes()),
    }
}

/// The entry that a row of the IPv6 snapshot stands for.
pub open spec fn v6_row_entry(row: (u128, u128, &'static str)) -> RangeEntry {
    RangeEntry {
        start: row.0 as int,
        end: row.1 as int,
        info: classification(row.2.spec_bytes()),
    }
}

/// The IPv4 table of the snapshot.
pub open spec fn embedded_v4_table() -> Seq<RangeEntry> {
    IPV4_RANGES@.map_values(|row: (u32, u32, &'static str)| v4_row_entry(row))
}

/// The IPv6 table of the snapshot.
pub open spec fn embedded_v6_table() -> Seq<RangeEntry> {
    IPV6_RANGES@.map_values(|row: (u128, u128, &'static str)| v6_row_entry(row))
}

/// The tables of the snapshot are in order: every range ends at or after its
/// start and before the next one starts.
pub proof fn lemma_embedded_tables_in_order()
    ensures
        well_formed_ranges(embedded_v4_table()),
        non_overlapping(embedded_v4_table()),
        sorted_by_start(embedded_v4_table()),
        well_formed_ranges(embedded_v6_table()),
        non_overlapping(embedded_v6_table()),
        sorted_by_start(embedded_v6_table()),
{
    let v4 = embedded_v4_table();
    assert forall|i: int| 0 <= i < v4.len() implies (#[trigger] v4[i]).start <= v4[i].end by {
        assert(v4[i] == v4_row_entry(IPV4_RANGES@[i]));
    }
    assert forall|i: int| 0 <= i && i + 1 < v4.len() implies (#[trigger] v4[i]).end < v4[i
        + 1].start by {
        assert(v4[i] == v4_row_entry(IPV4_RANGES@[i]));
        assert(v4[i + 1] == v4_row_entry(IPV4_RANGES@[i + 1]));
    }
    lemma_chain_is_sorted(v4);
    let v6 = embedded_v6_table();
    assert forall|i: int| 0 <= i < v6.len() implies (#[trigger] v6[i]).start <= v6[i].end by {
        assert(v6[i] == v6_row_entry(IPV6_RANGES@[i]));
    }
    assert forall|i: int| 0 <= i && i + 1 < v6.len() implies (#[trigger] v6[i]).end < v6[i
        + 1].start by {
        assert(v6[i] == v6_row_entry(IPV6_RANGES@[i]));
        assert(v6[i + 1] == v6_row_entry(IPV6_RANGES@[i + 1]));
    }
    lemma_chain_is_sorted(v6);
}

/// The IPv4 ranges of the snapshot, each with the classification of its
/// country.
pub fn embedded_v4_ranges() -> (ranges: Vec<V4Range>)
    ensures
        entries(ranges@) == embedded_v4_table(),
{
    let mut ranges: Vec<V4Range> = Vec::with_capacity(IPV4_RANGES.len());
    let mut i: usize = 0;
    while i < IPV4_RANGES.len()
        invariant
            i <= IPV4_RANGES@.len(),
            entries(ranges@) == embedded_v4_table().take(i as int),
        decreases IPV4_RANGES@.len() - i,
    {
        let (start, end, country) = IPV4_RANGES[i];
        let range = V4Range { start, end, info: classify(country) };
        proof {
            assert(entries(ranges@.push(range)) == entries(ranges@).push(range.entry()));
            assert(embedded_v4_table().take(i + 1) == embedded_v4_table().take(i as int).push(
                v4_row_entry(IPV4_RANGES@[i as int]),
            ));
        }
        ranges.push(range);
        i += 1;
    }
    assert(embedded_v4_table().take(IPV4_RANGES@.len() as int) == embedded_v4_table());
    ranges
}

/// The IPv6 ranges of the snapshot, each with the classification of its
/// country.
pub fn embedded_v6_ranges() -> (ranges: Vec<V6Range>)
    ensures
        entries(ranges@) == embedded_v6_table(),
{
    let mut ranges: Vec<V6Range> = Vec::with_capacity(IPV6_RANGES.len());
    let mut i: usize = 0;
    while i < IPV6_RANGES.len()
        invariant
            i <= IPV6_RANGES@.len(),
            entries(ranges@) == embedded_v6_table().take(i as int),
        decreases IPV6_RANGES@.len() - i,
    {
        let (start, end, country) = IPV6_RANGES[i];
        let range = V6Range { start, end, info: classify(country) };
        proof {
            assert(entries(ranges@.push(range)) == entries(ranges@).push(range.entry()));
            assert(embedded_v6_table().take(i + 1) == embedded_v6_table().take(i as int).push(
                v6_row_entry(IPV6_RANGES@[i as int]),
            ));
        }
        ranges.push(range);
        i += 1;
    }
    assert(embedded_v6_table().take(IPV6_RANGES@.len() as int) == embedded_v6_table());
    ranges
}

} // verus!
