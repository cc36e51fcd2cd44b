//! IP addresses as numbers, and their textual forms.
//!
//! An IPv4 address is the 32-bit number whose bytes, most significant first,
//! are its four octets; an IPv6 address is the 128-bit number whose 16-bit
//! groups, most significant first, are its eight groups.

use vstd::prelude::*;
use vstd::slice::slice_subrange;
use vstd::string::*;
use crate::text::{
    decimal_value, is_digit, pieces, split, views, COLON, DIGIT_NINE, DIGIT_ZERO, DOT,
};

verus! {

/// An address of either family.
#[derive(Debug, Clone, Copy, PartialEq, Eq, Structural)]
pub enum IpAddress {
    V4(u32),
    V6(u128),
}

/// The octet that `s` writes: one to three decimal digits, no leading zero
/// before another digit, and a value of at most 255.
pub open spec fn octet(s: Seq<u8>) -> Option<u8> {
    if 1 <= s.len() <= 3 && (forall|i: int| 0 <= i < s.len() ==> is_digit(#[trigger] s[i])) && (s.len()
        == 1 || s[0] != DIGIT_ZERO) && decimal_value(s) <= 255 {
        Some(decimal_value(s) as u8)
    } else {
        None
    }
}

/// The address with the given octets, the first being the most significant.
pub open spec fn from_octets(a: u8, b: u8, c: u8, d: u8) -> u32 {
    (((a * 256 + b) * 256 + c) * 256 + d) as u32
}

/// The IPv4 address that `s` writes in dotted-quad form, if it writes one:
/// exactly four octets with a `.` between them.
pub open spec fn ipv4_address(s: Seq<u8>) -> Option<u32> {
    let parts = pieces(s, DOT);
    if parts.len() == 4 && octet(parts[0]) is Some && octet(parts[1]) is Some && octet(
        parts[2],
    ) is Some && octet(parts[3]) is Some {
        Some(
            from_octets(
                octet(parts[0]).unwrap(),
                octet(parts[1]).unwrap(),
                octet(parts[2]).unwrap(),
                octet(parts[3]).unwrap(),
            ),
        )
    } else {
        None
    }
}

/// `A`, the first hexadecimal digit above nine, in upper case.
pub const UPPER_A: u8 = 0x41;

/// `F`, the last hexadecimal digit, in upper case.
pub const UPPER_F: u8 = 0x46;

/// `a`, the first hexadecimal digit above nine, in lower case.
pub const LOWER_A: u8 = 0x61;

/// `f`, the last hexadecimal digit, in lower case.
pub const LOWER_F: u8 = 0x66;

/// The value of a hexadecimal digit of either case.
pub open spec fn hex_digit(b: u8) -> Option<u8> {
    if DIGIT_ZERO <= b <= DIGIT_NINE {
        Some((b - DIGIT_ZERO) as u8)
    } else if LOWER_A <= b <= LOWER_F {
        Some((b - LOWER_A + 10) as u8)
    } else if UPPER_A <= b <= UPPER_F {
        Some((b - UPPER_A + 10) as u8)
    } else {
        None
    }
}

/// The number that a run of hexadecimal digits writes, most significant
/// first.
pub open spec fn hex_value(digits: Seq<u8>) -> nat
    decreases digits.len(),
{
    if digits.len() == 0 {
        0
    } else {
        hex_value(digits.drop_last()) * 16 + hex_digit(digits.last()).unwrap() as nat
    }
}

/// The 16-bit group that `s` writes: one to four hexadecimal digits.
pub open spec fn hex_group(s: Seq<u8>) -> Option<u16> {
    if 1 <= s.len() <= 4 && (forall|i: int| 0 <= i < s.len() ==> hex_digit(#[trigger] s[i]) is Some) {
        Some(hex_value(s) as u16)
    } else {
        None
    }
}

/// The groups that colon-separated parts write, in order. Every part is one
/// hexadecimal group; only where `quad_tail` holds, the last part may instead
/// be a dotted quad, which stands for two groups.
pub open spec fn groups_of(parts: Seq<Seq<u8>>, quad_tail: bool) -> Option<Seq<u16>>
    decreases parts.len(),
{
    if parts.len() == 0 {
        Some(seq![])
    } else {
        match groups_of(parts.drop_last(), false) {
            None => None,
            Some(front) => match hex_group(parts.last()) {
                Some(group) => Some(front.push(group)),
                None => match ipv4_address(parts.last()) {
                    Some(quad) if quad_tail => Some(
                        front.push((quad / 65536) as u16).push((quad % 65536) as u16),
                    ),
                    _ => None,
                },
            },
        }
    }
}

/// The position of the first `::` in `s`, or `s.len()` where there is none.
pub open spec fn first_gap(s: Seq<u8>) -> int
    decreases s.len(),
{
    if s.len() < 2 {
        s.len() as int
    } else if s[0] == COLON && s[1] == COLON {
        0
    } else {
        1 + first_gap(s.drop_first())
    }
}

/// The groups written on one side of a `::`: none for an empty side.
pub open spec fn side_groups(side: Seq<u8>, quad_tail: bool) -> Option<Seq<u16>> {
    if side.len() == 0 {
        Some(seq![])
    } else {
        groups_of(pieces(side, COLON), quad_tail)
    }
}

/// `n` groups of zero.
pub open spec fn zero_groups(n: int) -> Seq<u16> {
    Seq::new(n as nat, |i: int| 0u16)
}

/// The eight groups of the IPv6 address that `s` writes, if it writes one.
///
/// Without `::` the text is eight groups with a `:` between them. With `::`,
/// which may occur once, the groups before it and after it are at most seven,
/// and as many zero groups as are missing stand in its place. The last two
/// groups may be written as a dotted quad, but never before a `::`.
pub open spec fn ipv6_groups(s: Seq<u8>) -> Option<Seq<u16>> {
    let gap = first_gap(s);
    if gap == s.len() {
        match groups_of(pieces(s, COLON), true) {
            Some(groups) if groups.len() == 8 => Some(groups),
            _ => None,
        }
    } else {
        let front = side_groups(s.subrange(0, gap), false);
        let back = side_groups(s.subrange(gap + 2, s.len() as int), true);
        match (front, back) {
            (Some(f), Some(b)) if f.len() + b.len() <= 7 => Some(
                f + zero_groups(8 - f.len() - b.len()) + b,
            ),
            _ => None,
        }
    }
}

/// The number whose 16-bit groups, most significant first, are `groups`.
pub open spec fn groups_value(groups: Seq<u16>) -> nat
    decreases groups.len(),
{
    if groups.len() == 0 {
        0
    } else {
        groups_value(groups.drop_last()) * 65536 + groups.last() as nat
    }
}

/// The IPv6 address that `s` writes, if it writes one.
pub open spec fn ipv6_address(s: Seq<u8>) -> Option<u128> {
    match ipv6_groups(s) {
        Some(groups) => Some(groups_value(groups) as u128),
        None => None,
    }
}

/// The address that `s` writes: an IPv4 address in dotted-quad form, or else
/// an IPv6 address.
pub open spec fn ip_address(s: Seq<u8>) -> Option<IpAddress> {
    match ipv4_address(s) {
        Some(a) => Some(IpAddress::V4(a)),
        None => match ipv6_address(s) {
            Some(a) => Some(IpAddress::V6(a)),
            None => None,
        },
    }
}

/// Reads one octet of a dotted quad.
fn parse_octet(text: &[u8]) -> (value: Option<u8>)
    ensures
        value == octet(text@),
{
    let n = text.len();
    if n < 1 || n > 3 {
        return None;
    }
    if n > 1 && text[0] == DIGIT_ZERO {
        return None;
    }
    let mut value: u32 = 0;
    let mut i: usize = 0;
    while i < n
        invariant
            n == text@.len(),
            1 <= n <= 3,
            i <= n,
            forall|j: int| 0 <= j < i ==> is_digit(#[trigger] text@[j]),
            value == decimal_value(text@.subrange(0, i as int)),
            i == 0 ==> value == 0,
            i == 1 ==> value <= 9,
            i == 2 ==> value <= 99,
            value <= 999,
        decreases n - i,
    {
        let b = text[i];
        if b < DIGIT_ZERO || b > DIGIT_NINE {
            assert(!is_digit(text@[i as int]));
            return None;
        }
        proof {
            let longer = text@.subrange(0, i + 1);
            assert(longer.drop_last() == text@.subrange(0, i as int));
            assert(longer.last() == b);
        }
        value = value * 10 + (b - DIGIT_ZERO) as u32;
        i += 1;
    }
    assert(text@.subrange(0, n as int) == text@);
    if value > 255 {
        return None;
    }
    Some(value as u8)
}

/// Reads an IPv4 address in dotted-quad form.
pub fn parse_ipv4(text: &[u8]) -> (address: Option<u32>)
    ensures
        address == ipv4_address(text@),
{
    let parts = split(text, DOT);
    if parts.len() != 4 {
        return None;
    }
    assert(forall|k: int| 0 <= k < 4 ==> views(parts@)[k] == parts@[k]@);
    let a = match parse_octet(parts[0]) {
        Some(v) => v,
        None => { return None; },
    };
    let b = match parse_octet(parts[1]) {
        Some(v) => v,
        None => { return None; },
    };
    let c = match parse_octet(parts[2]) {
        Some(v) => v,
        None => { return None; },
    };
    let d = match parse_octet(parts[3]) {
        Some(v) => v,
        None => { return None; },
    };
    Some(((a as u32 * 256 + b as u32) * 256 + c as u32) * 256 + d as u32)
}

/// Reads one hexadecimal group.
fn parse_hex_group(text: &[u8]) -> (group: Option<u16>)
    ensures
        group == hex_group(text@),
{
    let n = text.len();
    if n < 1 || n > 4 {
        return None;
    }
    let mut value: u32 = 0;
    let mut i: usize = 0;
    while i < n
        invariant
            n == text@.len(),
            1 <= n <= 4,
            i <= n,
            forall|j: int| 0 <= j < i ==> hex_digit(#[trigger] text@[j]) is Some,
            value == hex_value(text@.subrange(0, i as int)),
            i == 0 ==> value == 0,
            i == 1 ==> value <= 0xf,
            i == 2 ==> value <= 0xff,
            i == 3 ==> value <= 0xfff,
            value <= 0xffff,
        decreases n - i,
    {
        let b = text[i];
        let digit: u32 = if DIGIT_ZERO <= b && b <= DIGIT_NINE {
            (b - DIGIT_ZERO) as u32
        } else if LOWER_A <= b && b <= LOWER_F {
            (b - LOWER_A) as u32 + 10
        } else if UPPER_A <= b && b <= UPPER_F {
            (b - UPPER_A) as u32 + 10
        } else {
            assert(hex_digit(text@[i as int]) is None);
            return None;
        };
        proof {
            let longer = text@.subrange(0, i + 1);
            assert(longer.drop_last() == text@.subrange(0, i as int));
            assert(longer.last() == b);
        }
        value = value * 16 + digit;
        i += 1;
    }
    assert(text@.subrange(0, n as int) == text@);
    Some(value as u16)
}

/// Where a part before the last is no group, the parts write no groups.
proof fn lemma_groups_need_every_part(parts: Seq<Seq<u8>>, k: int, quad_tail: bool)
    requires
        0 <= k < parts.len(),
        groups_of(parts.take(k), false) is None,
    ensures
        groups_of(parts, quad_tail) is None,
    decreases parts.len(),
{
    assert(parts.drop_last() == parts.take(parts.len() - 1));
    if k < parts.len() - 1 {
        assert(parts.drop_last().take(k) == parts.take(k));
        lemma_groups_need_every_part(parts.drop_last(), k, false);
    }
}

/// Reads the groups that colon-separated parts write.
fn parse_groups(parts: &Vec<&[u8]>, quad_tail: bool) -> (groups: Option<Vec<u16>>)
    ensures
        match groups {
            Some(g) => groups_of(views(parts@), quad_tail) == Some(g@),
            None => groups_of(views(parts@), quad_tail) is None,
        },
{
    let n = parts.len();
    let ghost texts = views(parts@);
    let mut groups: Vec<u16> = Vec::new();
    let mut k: usize = 0;
    assert(texts.take(0) == Seq::<Seq<u8>>::empty());
    while k < n
        invariant
            n == parts@.len(),
            texts == views(parts@),
            k <= n,
            k < n ==> groups_of(texts.take(k as int), false) == Some(groups@),
            k == n ==> groups_of(texts, quad_tail) == Some(groups@),
        decreases n - k,
    {
        let part = parts[k];
        proof {
            assert(texts[k as int] == part@);
            assert(texts.take(k + 1).drop_last() == texts.take(k as int));
            assert(texts.take(k + 1).last() == part@);
            assert(texts.take(n as int) == texts);
        }
        match parse_hex_group(part) {
            Some(group) => {
                groups.push(group);
            },
            None => {
                if k + 1 < n || !quad_tail {
                    proof {
                        if k + 1 < n {
                            lemma_groups_need_every_part(texts, k + 1, quad_tail);
                        }
                    }
                    return None;
                }
                match parse_ipv4(part) {
                    Some(quad) => {
                        groups.push((quad / 65536) as u16);
                        groups.push((quad % 65536) as u16);
                    },
                    None => {
                        return None;
                    },
                }
            },
        }
        k += 1;
    }
    Some(groups)
}

/// `first_gap` is the one position that has no `::` before it and either a
/// `::` at it or, being the end of the text, none at all.
proof fn lemma_first_gap(s: Seq<u8>, i: int)
    requires
        0 <= i <= s.len(),
        forall|j: int| 0 <= j < i && j + 1 < s.len() ==> !(s[j] == COLON && #[trigger] s[j + 1] == COLON),
        i < s.len() ==> i + 1 < s.len() && s[i] == COLON && s[i + 1] == COLON,
    ensures
        first_gap(s) == i,
    decreases s.len(),
{
    if s.len() < 2 {
    } else if s[0] == COLON && s[1] == COLON {
        assert(s[0int + 1] == COLON);
    } else {
        let rest = s.drop_first();
        assert(i > 0);
        assert forall|j: int| 0 <= j < i - 1 && j + 1 < rest.len() implies !(rest[j] == COLON
            && #[trigger] rest[j + 1] == COLON) by {
            assert(rest[j] == s[j + 1]);
            assert(rest[j + 1] == s[(j + 1) + 1]);
        }
        lemma_first_gap(rest, i - 1);
    }
}

/// Finds the first `::`.
fn find_gap(text: &[u8]) -> (gap: usize)
    ensures
        gap == first_gap(text@),
{
    let n = text.len();
    let mut i: usize = 0;
    while i < n
        invariant
            n == text@.len(),
            i <= n,
            forall|j: int|
                0 <= j < i && j + 1 < n ==> !(text@[j] == COLON && #[trigger] text@[j + 1] == COLON),
        decreases n - i,
    {
        if i + 1 < n && text[i] == COLON && text[i + 1] == COLON {
            proof {
                lemma_first_gap(text@, i as int);
            }
            return i;
        }
        i += 1;
    }
    proof {
        lemma_first_gap(text@, n as int);
    }
    n
}

/// Reads the groups written on one side of a `::`.
fn parse_side(side: &[u8], quad_tail: bool) -> (groups: Option<Vec<u16>>)
    ensures
        match groups {
            Some(g) => side_groups(side@, quad_tail) == Some(g@),
            None => side_groups(side@, quad_tail) is None,
        },
{
    if side.len() == 0 {
        Some(Vec::new())
    } else {
        let parts = split(side, COLON);
        parse_groups(&parts, quad_tail)
    }
}

/// The least number that `n` groups cannot write.
pub open spec fn groups_span(n: nat) -> nat
    decreases n,
{
    if n == 0 {
        1
    } else {
        65536 * groups_span((n - 1) as nat)
    }
}

/// Up to eight groups write a number that fits in 128 bits.
proof fn lemma_groups_span(n: nat)
    requires
        n <= 8,
    ensures
        groups_span(n) <= 0x1_0000_0000_0000_0000_0000_0000_0000_0000,
{
    reveal_with_fuel(groups_span, 9);
}

/// Joins up to eight groups into one number.
fn join_groups(groups: &Vec<u16>) -> (value: u128)
    requires
        groups@.len() <= 8,
    ensures
        value == groups_value(groups@),
{
    let n = groups.len();
    let mut value: u128 = 0;
    let mut i: usize = 0;
    assert(groups@.take(0) == Seq::<u16>::empty());
    while i < n
        invariant
            n == groups@.len(),
            n <= 8,
            i <= n,
            value == groups_value(groups@.take(i as int)),
            value < groups_span(i as nat),
        decreases n - i,
    {
        proof {
            assert(groups@.take(i + 1).drop_last() == groups@.take(i as int));
            assert(groups@.take(i + 1).last() == groups@[i as int]);
            lemma_groups_span((i + 1) as nat);
        }
        value = value * 65536 + groups[i] as u128;
        i += 1;
    }
    assert(groups@.take(n as int) == groups@);
    value
}

/// Reads an IPv6 address.
pub fn parse_ipv6(text: &[u8]) -> (address: Option<u128>)
    ensures
        address == ipv6_address(text@),
{
    let n = text.len();
    let gap = find_gap(text);
    if gap == n {
        let parts = split(text, COLON);
        match parse_groups(&parts, true) {
            Some(groups) => {
                if groups.len() == 8 {
                    Some(join_groups(&groups))
                } else {
                    None
                }
            },
            None => None,
        }
    } else {
        proof {
            lemma_first_gap_in_range(text@);
        }
        let front = match parse_side(slice_subrange(text, 0, gap), false) {
            Some(groups) => groups,
            None => { return None; },
        };
        let back = match parse_side(slice_subrange(text, gap + 2, n), true) {
            Some(groups) => groups,
            None => { return None; },
        };
        if front.len() > 7 || back.len() > 7 - front.len() {
            return None;
        }
        let ghost missing = 8 - front@.len() - back@.len();
        let mut groups = front;
        let mut i: usize = groups.len() + back.len();
        while i < 8
            invariant
                back@.len() <= 7,
                i == groups@.len() + back@.len(),
                i <= 8,
                groups@ == front@ + zero_groups(i - front@.len() - back@.len()),
            decreases 8 - i,
        {
            groups.push(0);
            i += 1;
        }
        let mut j: usize = 0;
        while j < back.len()
            invariant
                j <= back@.len(),
                groups@ == front@ + zero_groups(missing) + back@.take(j as int),
                groups@.len() == 8 - back@.len() + j,
            decreases back@.len() - j,
        {
            proof {
                assert(back@.take(j + 1) == back@.take(j as int).push(back@[j as int]));
            }
            groups.push(back[j]);
            j += 1;
        }
        assert(back@.take(back@.len() as int) == back@);
        Some(join_groups(&groups))
    }
}

/// A `::` that is found lies wholly within the text.
proof fn lemma_first_gap_in_range(s: Seq<u8>)
    ensures
        0 <= first_gap(s) <= s.len(),
        first_gap(s) < s.len() ==> first_gap(s) + 2 <= s.len(),
    decreases s.len(),
{
    if s.len() >= 2 && !(s[0] == COLON && s[1] == COLON) {
        lemma_first_gap_in_range(s.drop_first());
    }
}

impl IpAddress {
    /// Reads an address of either family: as IPv4 where the text is a dotted
    /// quad, else as IPv6.
    pub fn parse(text: &str) -> (address: Option<IpAddress>)
        ensures
            address == ip_address(text.spec_bytes()),
    {
        let bytes = text.as_bytes();
        match parse_ipv4(bytes) {
            Some(a) => Some(IpAddress::V4(a)),
            None => match parse_ipv6(bytes) {
                Some(a) => Some(IpAddress::V6(a)),
                None => None,
            },
        }
    }
}

} // verus!
