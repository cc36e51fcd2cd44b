//! The record parser: from the text of allocation statistics to allocation
//! records.
//!
//! The text is a sequence of lines of fields with `|` between them:
//! `registry|country|family|start|count_or_prefix|date|status`, possibly
//! followed by more fields. Lines that are no well-formed record of an IPv4
//! or IPv6 block are passed over; none of them stops the parser.

use vstd::prelude::*;
use vstd::arithmetic::power2::{lemma2_to64, lemma_pow2_pos, lemma_pow2_unfold, pow2};
use vstd::string::*;
use vstd::utf8::{encode_utf8, valid_utf8};
use crate::address::{ipv4_address, ipv6_address, parse_ipv4, parse_ipv6};
use crate::text::{
    decimal_u32, lemma_pieces_of_text_are_text, lemma_pieces_of_two_texts,
    lemma_pieces_unbroken, parse_decimal_u32, pieces, same_bytes, split, utf8_text, views,
    DIGIT_TWO, HASH, NEWLINE, PIPE,
};

verus! {

/// A single allocation block parsed from a delegated statistics file.
///
/// For IPv4 blocks, `start_v4` is `Some` and `start_v6` is `None`.
/// For IPv6 blocks, `start_v6` is `Some` and `start_v4` is `None`.
///
/// `count` is the number of addresses in the block. For IPv6 lines, the file
/// holds a prefix length in the "count" field; the parser converts that
/// prefix length into an address count (`2^(128-prefix_len)`).
#[derive(Debug, Clone, PartialEq)]
pub struct IpRange {
    pub start_v4: Option<u32>,
    pub start_v6: Option<u128>,
    pub count: u128,
    pub country: String,
}

/// An allocation record as plain values: what an [`IpRange`] holds, with the
/// country code as the bytes of its text.
pub struct Allocation {
    pub start_v4: Option<u32>,
    pub start_v6: Option<u128>,
    pub count: u128,
    pub country: Seq<u8>,
}

impl View for IpRange {
    type V = Allocation;

    open spec fn view(&self) -> Allocation {
        Allocation {
            start_v4: self.start_v4,
            start_v6: self.start_v6,
            count: self.count,
            country: encode_utf8(self.country@),
        }
    }
}

/// What each of the given records holds.
pub open spec fn allocations(records: Seq<IpRange>) -> Seq<Allocation> {
    records.map_values(|r: IpRange| r@)
}

/// Whether a line is a comment (it starts with `#`) or a header or summary
/// line (it starts with the digit `2`).
pub open spec fn is_passed_over(line: Seq<u8>) -> bool {
    line.len() > 0 && (line[0] == HASH || line[0] == DIGIT_TWO)
}

/// The number of addresses under an IPv6 prefix of the given length:
/// `2^(128 - prefix)`, and for length 0, where that is one more than 128 bits
/// hold, the largest 128-bit number.
pub open spec fn block_size(prefix: u32) -> u128
    recommends
        prefix <= 128,
{
    if prefix == 0 {
        u128::MAX
    } else {
        pow2((128 - prefix) as nat) as u128
    }
}

/// The record that a line holds, if it holds one.
///
/// A record has at least seven fields, a country code that is text, the
/// family tag `ipv4` or `ipv6`, a start address of that family and a number.
/// For IPv4 the number counts the addresses and is not zero; for IPv6 it is
/// a prefix length of at most 128.
pub open spec fn record_of(line: Seq<u8>) -> Option<Allocation> {
    let fields = pieces(line, PIPE);
    if is_passed_over(line) || fields.len() < 7 || !valid_utf8(fields[1]) {
        None
    } else if fields[2] == "ipv4".spec_bytes() {
        match (ipv4_address(fields[3]), decimal_u32(fields[4])) {
            (Some(start), Some(count)) if count > 0 => Some(
                Allocation {
                    start_v4: Some(start),
                    start_v6: None,
                    count: count as u128,
                    country: fields[1],
                },
            ),
            _ => None,
        }
    } else if fields[2] == "ipv6".spec_bytes() {
        match (ipv6_address(fields[3]), decimal_u32(fields[4])) {
            (Some(start), Some(prefix)) if prefix <= 128 => Some(
                Allocation {
                    start_v4: None,
                    start_v6: Some(start),
                    count: block_size(prefix),
                    country: fields[1],
                },
            ),
            _ => None,
        }
    } else {
        None
    }
}

/// The records that the given lines hold, in the order of the lines.
pub open spec fn records_of(lines: Seq<Seq<u8>>) -> Seq<Allocation> {
    lines.filter_map(|line: Seq<u8>| record_of(line))
}

/// The records that a text holds: those of its lines, a line ending at each
/// `\n` and at the end of the text.
///
/// A carriage return before the `\n` belongs to the last field of its line,
/// which is never one of the fields that a record is read from.
pub open spec fn parse_records(content: Seq<u8>) -> Seq<Allocation> {
    records_of(pieces(content, NEWLINE))
}

/// The records of lines are those of the first lines and then those of the
/// lines that follow.
proof fn lemma_records_of_more_lines(first: Seq<Seq<u8>>, second: Seq<Seq<u8>>)
    ensures
        records_of(first + second) == records_of(first) + records_of(second),
    decreases second.len(),
{
    if second.len() == 0 {
        assert(first + second == first);
    } else {
        assert((first + second).drop_last() == first + second.drop_last());
        lemma_records_of_more_lines(first, second.drop_last());
    }
}

/// Every line is read by itself. The records of two texts, one after the
/// other with a line end between them, are the records of the first and then
/// those of the second; so a line that holds no record changes nothing of
/// what the lines around it give.
pub proof fn lemma_lines_are_read_one_by_one(first: Seq<u8>, second: Seq<u8>)
    ensures
        parse_records(first + seq![NEWLINE] + second) == parse_records(first) + parse_records(
            second,
        ),
{
    lemma_pieces_of_two_texts(first, second, NEWLINE);
    lemma_records_of_more_lines(pieces(first, NEWLINE), pieces(second, NEWLINE));
}

/// A line that holds no record gives no record: a text that is one such line
/// holds none.
pub proof fn lemma_line_without_record(line: Seq<u8>)
    requires
        forall|i: int| 0 <= i < line.len() ==> line[i] != NEWLINE,
        record_of(line) is None,
    ensures
        parse_records(line) == Seq::<Allocation>::empty(),
{
    lemma_pieces_of_one_line(line);
    reveal_with_fuel(Seq::filter_map, 2);
    assert(seq![line].drop_last() == Seq::<Seq<u8>>::empty());
}

/// A line that holds a record gives that record: a text that is one such
/// line holds just it.
pub proof fn lemma_line_with_record(line: Seq<u8>)
    requires
        forall|i: int| 0 <= i < line.len() ==> line[i] != NEWLINE,
        record_of(line) is Some,
    ensures
        parse_records(line) == seq![record_of(line).unwrap()],
{
    lemma_pieces_of_one_line(line);
    reveal_with_fuel(Seq::filter_map, 2);
    assert(seq![line].drop_last() == Seq::<Seq<u8>>::empty());
}

/// A text without a line end is one line.
proof fn lemma_pieces_of_one_line(line: Seq<u8>)
    requires
        forall|i: int| 0 <= i < line.len() ==> line[i] != NEWLINE,
    ensures
        pieces(line, NEWLINE) == seq![line],
{
    lemma_pieces_unbroken(line, NEWLINE);
}

/// In a text every field of every line is itself a text. So of the lines of
/// a text none is passed over for the encoding of its country code.
pub proof fn lemma_fields_of_text_are_text(content: Seq<u8>, line: int, field: int)
    requires
        valid_utf8(content),
        0 <= line < pieces(content, NEWLINE).len(),
        0 <= field < pieces(pieces(content, NEWLINE)[line], PIPE).len(),
    ensures
        valid_utf8(pieces(pieces(content, NEWLINE)[line], PIPE)[field]),
{
    lemma_pieces_of_text_are_text(content, NEWLINE);
    lemma_pieces_of_text_are_text(pieces(content, NEWLINE)[line], PIPE);
}

/// Shifting one to the left by `k` places gives the `k`-th power of two.
proof fn lemma_shift_is_power(k: u32)
    requires
        k < 128,
    ensures
        (1u128 << k) == pow2(k as nat),
    decreases k,
{
    if k == 0 {
        assert((1u128 << 0u32) == 1) by (bit_vector);
        lemma2_to64();
    } else {
        let j = (k - 1) as u32;
        lemma_shift_is_power(j);
        assert((1u128 << k) == 2 * (1u128 << j)) by (bit_vector)
            requires
                0 < k < 128,
                j == k - 1,
        ;
        lemma_pow2_unfold(k as nat);
    }
}

/// Under a prefix of length 1 to 128 there are exactly `2^(128 - prefix)`
/// addresses, at least one.
pub proof fn lemma_block_size_is_power(prefix: u32)
    requires
        1 <= prefix <= 128,
    ensures
        block_size(prefix) == pow2((128 - prefix) as nat),
        block_size(prefix) >= 1,
{
    lemma_shift_is_power((128 - prefix) as u32);
    lemma_pow2_pos((128 - prefix) as nat);
}

/// The number of addresses under an IPv6 prefix.
fn prefix_block_size(prefix: u32) -> (size: u128)
    requires
        prefix <= 128,
    ensures
        size == block_size(prefix),
{
    if prefix == 0 {
        u128::MAX
    } else {
        let host_bits: u32 = 128 - prefix;
        proof {
            lemma_shift_is_power(host_bits);
        }
        1u128 << host_bits
    }
}

/// Reads the record that one line holds.
pub fn parse_line(line: &[u8]) -> (record: Option<IpRange>)
    ensures
        match record {
            Some(r) => record_of(line@) == Some(r@),
            None => record_of(line@) is None,
        },
{
    if line.len() > 0 && (line[0] == HASH || line[0] == DIGIT_TWO) {
        return None;
    }
    let fields = split(line, PIPE);
    if fields.len() < 7 {
        return None;
    }
    assert(forall|k: int| 0 <= k < fields@.len() ==> views(fields@)[k] == fields@[k]@);
    let country = match utf8_text(fields[1]) {
        Some(text) => text.to_owned(),
        None => { return None; },
    };
    if same_bytes(fields[2], "ipv4".as_bytes()) {
        let start = match parse_ipv4(fields[3]) {
            Some(a) => a,
            None => { return None; },
        };
        let count = match parse_decimal_u32(fields[4]) {
            Some(n) => n,
            None => { return None; },
        };
        if count == 0 {
            return None;
        }
        Some(IpRange { start_v4: Some(start), start_v6: None, count: count as u128, country })
    } else if same_bytes(fields[2], "ipv6".as_bytes()) {
        let start = match parse_ipv6(fields[3]) {
            Some(a) => a,
            None => { return None; },
        };
        let prefix = match parse_decimal_u32(fields[4]) {
            Some(n) => n,
            None => { return None; },
        };
        if prefix > 128 {
            return None;
        }
        Some(
            IpRange {
                start_v4: None,
                start_v6: Some(start),
                count: prefix_block_size(prefix),
                country,
            },
        )
    } else {
        None
    }
}

/// Reads the records that a text of bytes holds.
pub fn parse_bytes(content: &[u8]) -> (records: Vec<IpRange>)
    ensures
        allocations(records@) == parse_records(content@),
{
    let lines = split(content, NEWLINE);
    let ghost texts = views(lines@);
    let mut records: Vec<IpRange> = Vec::new();
    let mut k: usize = 0;
    assert(texts.take(0) == Seq::<Seq<u8>>::empty());
    assert(allocations(records@) == Seq::<Allocation>::empty());
    while k < lines.len()
        invariant
            texts == views(lines@),
            k <= lines@.len(),
            allocations(records@) == records_of(texts.take(k as int)),
        decreases lines@.len() - k,
    {
        proof {
            assert(texts[k as int] == lines@[k as int]@);
            texts.lemma_filter_map_take_succ(|line: Seq<u8>| record_of(line), k as int);
        }
        match parse_line(lines[k]) {
            Some(record) => {
                assert(allocations(records@.push(record)) == allocations(records@) + seq![record@]);
                records.push(record);
            },
            None => {},
        }
        k += 1;
    }
    assert(texts.take(lines@.len() as int) == texts);
    records
}

/// Parse delegated statistics content into allocation ranges.
///
/// This parser is intentionally simple:
/// - Ignores comment lines (`#...`) and summary/header lines starting with `2`.
/// - Accepts only `ipv4` and `ipv6` records.
/// - Keeps the two-letter country code exactly as present in the file.
///
/// For IPv4 records, `count` is the number of addresses.
/// For IPv6 records, the file encodes the *prefix length* in the "count"
/// field; this function converts it to an address count.
///
/// The returned ranges are in the order of the file; they are neither sorted
/// nor checked for overlaps.
pub fn parse_ripe_delegated(content: &str) -> (records: Vec<IpRange>)
    ensures
        allocations(records@) == parse_records(content.spec_bytes()),
{
    parse_bytes(content.as_bytes())
}

} // verus!
