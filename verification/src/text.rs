//! Byte-level text handling: separators, fields and unsigned numbers.
//!
//! Allocation statistics are plain text. Everything here works on the bytes
//! of that text, so that no step depends on how characters are encoded
//! beyond the ASCII separators and digits themselves.

use vstd::prelude::*;
use vstd::utf8::{
    is_char_boundary_iff_not_is_continuation_byte, is_continuation_byte, is_leading_byte_width_1,
    pop_first_scalar, valid_utf8, valid_utf8_split,
};
use vstd::slice::slice_subrange;
use vstd::string::*;

verus! {

/// `\n`, which ends a line.
pub const NEWLINE: u8 = 0x0a;

/// `#`, which opens a comment line.
pub const HASH: u8 = 0x23;

/// `+`, the one sign an unsigned number may carry.
pub const PLUS: u8 = 0x2b;

/// `.`, which separates the octets of an IPv4 address.
pub const DOT: u8 = 0x2e;

/// `0`, the first decimal digit.
pub const DIGIT_ZERO: u8 = 0x30;

/// `2`, which opens a header or summary line.
pub const DIGIT_TWO: u8 = 0x32;

/// `9`, the last decimal digit.
pub const DIGIT_NINE: u8 = 0x39;

/// `:`, which separates the groups of an IPv6 address.
pub const COLON: u8 = 0x3a;

/// `|`, which separates the fields of a record.
pub const PIPE: u8 = 0x7c;

/// The position of the first `sep` in `s`, or `s.len()` where there is none.
pub open spec fn first_index(s: Seq<u8>, sep: u8) -> int
    decreases s.len(),
{
    if s.len() == 0 || s[0] == sep {
        0
    } else {
        1 + first_index(s.drop_first(), sep)
    }
}

/// The pieces of `s` between occurrences of `sep`, in order.
///
/// There is always one piece more than there are separators: an empty text
/// has one empty piece, and a trailing separator is followed by an empty
/// piece.
pub open spec fn pieces(s: Seq<u8>, sep: u8) -> Seq<Seq<u8>>
    decreases s.len(),
{
    let i = first_index(s, sep);
    if 0 <= i < s.len() {
        seq![s.subrange(0, i)] + pieces(s.subrange(i + 1, s.len() as int), sep)
    } else {
        seq![s]
    }
}

/// `first_index` is the one position that has no separator before it and
/// either a separator at it or the end of the text.
proof fn lemma_first_index(s: Seq<u8>, sep: u8, i: int)
    requires
        0 <= i <= s.len(),
        forall|j: int| 0 <= j < i ==> s[j] != sep,
        i < s.len() ==> s[i] == sep,
    ensures
        first_index(s, sep) == i,
    decreases s.len(),
{
    if s.len() == 0 || s[0] == sep {
    } else {
        lemma_first_index(s.drop_first(), sep, i - 1);
    }
}

/// The pieces of a text, told from the position of its first separator.
proof fn lemma_pieces_step(s: Seq<u8>, sep: u8, i: int)
    requires
        0 <= i <= s.len(),
        forall|j: int| 0 <= j < i ==> s[j] != sep,
        i < s.len() ==> s[i] == sep,
    ensures
        i == s.len() ==> pieces(s, sep) == seq![s],
        i < s.len() ==> pieces(s, sep) == seq![s.subrange(0, i)] + pieces(
            s.subrange(i + 1, s.len() as int),
            sep,
        ),
{
    lemma_first_index(s, sep, i);
}

/// `first_index` lies within the text or at its end; no separator stands
/// before it, and one stands at it where it lies within the text.
proof fn lemma_first_index_in_range(s: Seq<u8>, sep: u8)
    ensures
        0 <= first_index(s, sep) <= s.len(),
        first_index(s, sep) < s.len() ==> s[first_index(s, sep)] == sep,
        forall|j: int| 0 <= j < first_index(s, sep) ==> s[j] != sep,
    decreases s.len(),
{
    if !(s.len() == 0 || s[0] == sep) {
        let rest = s.drop_first();
        lemma_first_index_in_range(rest, sep);
        assert forall|j: int| 0 <= j < first_index(s, sep) implies s[j] != sep by {
            if j > 0 {
                assert(s[j] == rest[j - 1]);
            }
        }
    }
}

/// The given parts with `sep` between each two of them.
pub open spec fn joined(parts: Seq<Seq<u8>>, sep: u8) -> Seq<u8>
    decreases parts.len(),
{
    if parts.len() == 0 {
        seq![]
    } else if parts.len() == 1 {
        parts[0]
    } else {
        parts[0] + seq![sep] + joined(parts.drop_first(), sep)
    }
}

/// The pieces of a text are the parts without a separator that, joined by
/// the separator, give the text.
pub proof fn lemma_pieces_joined(s: Seq<u8>, sep: u8)
    ensures
        pieces(s, sep).len() >= 1,
        joined(pieces(s, sep), sep) == s,
        forall|k: int, j: int|
            0 <= k < pieces(s, sep).len() && 0 <= j < pieces(s, sep)[k].len() ==> #[trigger] pieces(
                s,
                sep,
            )[k][j] != sep,
    decreases s.len(),
{
    let i = first_index(s, sep);
    lemma_first_index_in_range(s, sep);
    if i < s.len() {
        let head = s.subrange(0, i);
        let rest = s.subrange(i + 1, s.len() as int);
        lemma_pieces_joined(rest, sep);
        let all = pieces(s, sep);
        assert(all.drop_first() == pieces(rest, sep));
        assert(head + seq![sep] + rest == s);
        assert forall|k: int, j: int| 0 <= k < all.len() && 0 <= j < all[k].len() implies all[k][j]
            != sep by {
            if k > 0 {
                assert(all[k] == pieces(rest, sep)[k - 1]);
            }
        }
    }
}

/// A text without a separator is one piece.
pub proof fn lemma_pieces_unbroken(s: Seq<u8>, sep: u8)
    requires
        forall|i: int| 0 <= i < s.len() ==> s[i] != sep,
    ensures
        pieces(s, sep) == seq![s],
{
    lemma_pieces_step(s, sep, s.len() as int);
}

/// The pieces of two texts with a separator between them are the pieces of
/// the first and then those of the second.
pub proof fn lemma_pieces_of_two_texts(first: Seq<u8>, second: Seq<u8>, sep: u8)
    ensures
        pieces(first + seq![sep] + second, sep) == pieces(first, sep) + pieces(second, sep),
    decreases first.len(),
{
    let both = first + seq![sep] + second;
    let i = first_index(first, sep);
    lemma_first_index_in_range(first, sep);
    lemma_pieces_step(first, sep, i);
    assert forall|j: int| 0 <= j < i implies both[j] != sep by {
        assert(both[j] == first[j]);
    }
    if i < first.len() {
        assert(both[i] == first[i]);
    }
    lemma_pieces_step(both, sep, i);
    assert(both.subrange(0, i) == first.subrange(0, i));
    if i < first.len() {
        let rest = first.subrange(i + 1, first.len() as int);
        assert(both.subrange(i + 1, both.len() as int) == rest + seq![sep] + second);
        lemma_pieces_of_two_texts(rest, second, sep);
    } else {
        assert(both.subrange(i + 1, both.len() as int) == second);
        assert(first.subrange(0, i) == first);
    }
}

/// Cutting well-formed UTF-8 at an ASCII separator leaves well-formed UTF-8:
/// every piece of a text is a text.
pub proof fn lemma_pieces_of_text_are_text(s: Seq<u8>, sep: u8)
    requires
        valid_utf8(s),
        sep < 0x80,
    ensures
        forall|k: int| 0 <= k < pieces(s, sep).len() ==> valid_utf8(#[trigger] pieces(s, sep)[k]),
    decreases s.len(),
{
    let i = first_index(s, sep);
    lemma_first_index_in_range(s, sep);
    if i < s.len() {
        let tail = s.subrange(i, s.len() as int);
        let rest = s.subrange(i + 1, s.len() as int);
        assert(!is_continuation_byte(s[i]));
        is_char_boundary_iff_not_is_continuation_byte(s, i);
        valid_utf8_split(s, i);
        assert(valid_utf8(rest)) by {
            assert(is_leading_byte_width_1(tail[0]));
            assert(pop_first_scalar(tail) == rest);
        }
        lemma_pieces_of_text_are_text(rest, sep);
        assert forall|k: int| 0 <= k < pieces(s, sep).len() implies valid_utf8(
            #[trigger] pieces(s, sep)[k],
        ) by {
            if k > 0 {
                assert(pieces(s, sep)[k] == pieces(rest, sep)[k - 1]);
            }
        }
    }
}

/// What each of the given slices holds.
pub open spec fn views(parts: Seq<&[u8]>) -> Seq<Seq<u8>> {
    parts.map_values(|p: &[u8]| p@)
}

/// Cuts `text` at every `sep`.
pub fn split<'a>(text: &'a [u8], sep: u8) -> (parts: Vec<&'a [u8]>)
    ensures
        views(parts@) == pieces(text@, sep),
{
    let n = text.len();
    let mut parts: Vec<&'a [u8]> = Vec::new();
    let mut start: usize = 0;
    let mut i: usize = 0;
    proof {
        assert(text@.subrange(0, n as int) == text@);
        assert(views(parts@) + pieces(text@, sep) == pieces(text@, sep));
    }
    while i < n
        invariant
            n == text@.len(),
            start <= i <= n,
            forall|j: int| start <= j < i ==> text@[j] != sep,
            views(parts@) + pieces(text@.subrange(start as int, n as int), sep) == pieces(
                text@,
                sep,
            ),
        decreases n - i,
    {
        if text[i] == sep {
            let piece = slice_subrange(text, start, i);
            proof {
                let rest = text@.subrange(start as int, n as int);
                lemma_pieces_step(rest, sep, i - start);
                assert(rest.subrange(0, i - start) == piece@);
                assert(rest.subrange(i - start + 1, rest.len() as int) == text@.subrange(
                    i + 1,
                    n as int,
                ));
                assert(views(parts@.push(piece)) == views(parts@) + seq![piece@]);
            }
            parts.push(piece);
            start = i + 1;
        }
        i += 1;
    }
    let piece = slice_subrange(text, start, n);
    proof {
        lemma_pieces_step(piece@, sep, n - start);
        assert(views(parts@.push(piece)) == views(parts@) + seq![piece@]);
    }
    parts.push(piece);
    parts
}

/// Whether two slices hold the same bytes.
pub fn same_bytes(a: &[u8], b: &[u8]) -> (same: bool)
    ensures
        same == (a@ == b@),
{
    if a.len() != b.len() {
        return false;
    }
    let mut i: usize = 0;
    while i < a.len()
        invariant
            i <= a.len(),
            a.len() == b.len(),
            forall|j: int| 0 <= j < i ==> a@[j] == b@[j],
        decreases a.len() - i,
    {
        if a[i] != b[i] {
            return false;
        }
        i += 1;
    }
    assert(a@ =~= b@);
    true
}

/// Whether `b` is one of the ten decimal digits.
pub open spec fn is_digit(b: u8) -> bool {
    DIGIT_ZERO <= b <= DIGIT_NINE
}

/// The number that a run of decimal digits writes, most significant first.
pub open spec fn decimal_value(digits: Seq<u8>) -> nat
    decreases digits.len(),
{
    if digits.len() == 0 {
        0
    } else {
        (decimal_value(digits.drop_last()) * 10 + (digits.last() - DIGIT_ZERO)) as nat
    }
}

/// The digits of an unsigned number: the text without its one optional
/// leading `+`.
pub open spec fn unsigned_digits(s: Seq<u8>) -> Seq<u8> {
    if s.len() > 0 && s[0] == PLUS {
        s.subrange(1, s.len() as int)
    } else {
        s
    }
}

/// The unsigned 32-bit number that `s` writes in decimal, if it writes one.
///
/// A number is an optional `+` and then one or more decimal digits; leading
/// zeros are allowed, and a value above `u32::MAX` is no number.
pub open spec fn decimal_u32(s: Seq<u8>) -> Option<u32> {
    let digits = unsigned_digits(s);
    if digits.len() > 0 && (forall|i: int| 0 <= i < digits.len() ==> is_digit(#[trigger] digits[i]))
        && decimal_value(digits) <= u32::MAX {
        Some(decimal_value(digits) as u32)
    } else {
        None
    }
}

/// A run of digits is worth at least as much as any of its prefixes.
proof fn lemma_decimal_value_grows(digits: Seq<u8>, k: int)
    requires
        0 <= k <= digits.len(),
        forall|i: int| 0 <= i < digits.len() ==> is_digit(#[trigger] digits[i]),
    ensures
        decimal_value(digits.subrange(0, k)) <= decimal_value(digits),
    decreases digits.len() - k,
{
    if k == digits.len() {
        assert(digits.subrange(0, k) == digits);
    } else {
        let longer = digits.subrange(0, k + 1);
        assert(longer.drop_last() == digits.subrange(0, k));
        assert(is_digit(digits[k]));
        lemma_decimal_value_grows(digits, k + 1);
    }
}

/// Reads an unsigned 32-bit decimal number.
pub fn parse_decimal_u32(text: &[u8]) -> (number: Option<u32>)
    ensures
        number == decimal_u32(text@),
{
    let n = text.len();
    let start: usize = if n > 0 && text[0] == PLUS {
        1
    } else {
        0
    };
    let ghost digits = unsigned_digits(text@);
    assert(digits == text@.subrange(start as int, n as int));
    if start == n {
        return None;
    }
    let mut value: u32 = 0;
    let mut i: usize = start;
    while i < n
        invariant
            n == text@.len(),
            start <= i <= n,
            digits == unsigned_digits(text@),
            digits == text@.subrange(start as int, n as int),
            forall|j: int| 0 <= j < i - start ==> is_digit(#[trigger] digits[j]),
            value == decimal_value(digits.subrange(0, i - start)),
        decreases n - i,
    {
        let b = text[i];
        assert(b == digits[i - start]);
        if b < DIGIT_ZERO || b > DIGIT_NINE {
            assert(!is_digit(digits[i - start]));
            return None;
        }
        let next: u64 = value as u64 * 10 + (b - DIGIT_ZERO) as u64;
        proof {
            let longer = digits.subrange(0, i - start + 1);
            assert(longer.drop_last() == digits.subrange(0, i - start));
            assert(longer.last() == b);
            assert(decimal_value(longer) == next);
        }
        if next > u32::MAX as u64 {
            proof {
                if forall|j: int| 0 <= j < digits.len() ==> is_digit(#[trigger] digits[j]) {
                    lemma_decimal_value_grows(digits, i - start + 1);
                }
            }
            return None;
        }
        value = next as u32;
        i += 1;
    }
    assert(digits.subrange(0, n - start) == digits);
    Some(value)
}

/// `core::str::from_utf8`: the bytes as text, where they are well-formed
/// UTF-8, and nothing where they are not. The text borrows the same bytes.
///
/// The contract is taken on trust from the documentation of the standard
/// library; the body is not verified.
#[verifier::external_body]
pub(crate) fn utf8_text(bytes: &[u8]) -> (text: Option<&str>)
    ensures
        text is Some <==> valid_utf8(bytes@),
        text is Some ==> text.unwrap().spec_bytes() == bytes@,
{
    core::str::from_utf8(bytes).ok()
}

} // verus!
