//! Ranges of bytes within a resource.
use vstd::prelude::*;

use crate::text;

verus! {

/// `length` bytes from `start` on, or everything from `start` on.
#[derive(Debug, Clone, Copy, PartialEq, Eq, Structural)]
pub struct ByteRange {
    /// Position of the first byte.
    pub start: u64,
    /// Number of bytes; `None` reaches to the end of the resource.
    pub length: Option<u64>,
}

/// `a + b`, or the largest 64-bit number if that is smaller.
pub open spec fn saturating_sum(a: u64, b: int) -> u64 {
    if a + b > u64::MAX {
        u64::MAX
    } else {
        (a + b) as u64
    }
}

impl ByteRange {
    /// Everything from `start` to the end of the resource.
    pub fn suffix_from(start: u64) -> (range: Self)
        ensures
            range == (ByteRange { start, length: None }),
    {
        ByteRange { start, length: None }
    }

    /// Whether the range has a last byte and its end can be written as a 64-bit position.
    pub open spec fn bounded(self) -> bool {
        self.length is Some && self.start + self.length->0 <= u64::MAX
    }

    /// Whether position `at` lies in the range.
    pub open spec fn has(self, at: int) -> bool {
        self.start <= at && (self.length matches Some(length) ==> at < self.start + length)
    }

    /// Whether `inner` is a bounded part of this bounded range.
    pub open spec fn contains(self, inner: ByteRange) -> bool {
        &&& self.bounded()
        &&& inner.bounded()
        &&& self.start <= inner.start
        &&& inner.start + inner.length->0 <= self.start + self.length->0
    }
}

/// Whether `range` is a bounded part of the bounded range `container`.
pub fn range_contains(container: ByteRange, range: ByteRange) -> (yes: bool)
    ensures
        yes == container.contains(range),
{
    match (container.length, range.length) {
        (Some(container_length), Some(range_length)) => {
            match (
                container.start.checked_add(container_length),
                range.start.checked_add(range_length),
            ) {
                (Some(container_end), Some(range_end)) => range.start >= container.start
                    && range_end <= container_end,
                _ => false,
            }
        },
        _ => false,
    }
}

/// The value of the `Range` header that asks for `range`.
///
/// A range without a length, or of no bytes, asks for everything from its start on.
pub open spec fn range_header(range: ByteRange) -> Seq<char> {
    let from = "bytes="@ + text::decimal(range.start as nat) + "-"@;
    match range.length {
        Some(length) if length > 0 => from + text::decimal(
            (saturating_sum(range.start, length as int) - 1) as nat,
        ),
        _ => from,
    }
}

/// Writes the value of the `Range` header that asks for `range`.
pub fn http_range_header(range: ByteRange) -> (header: String)
    ensures
        header@ == range_header(range),
{
    let from: String = text::joined(
        text::joined_decimal("bytes=".to_string(), range.start),
        "-",
    );
    match range.length {
        Some(length) => {
            if length > 0 {
                let end: u64 = range.start.saturating_add(length).saturating_sub(1);
                text::joined_decimal(from, end)
            } else {
                from
            }
        },
        None => from,
    }
}

/// A part of a range holds no position that the range does not hold.
pub proof fn law_contained_range_has_no_other_bytes(container: ByteRange, range: ByteRange, at: int)
    requires
        container.contains(range),
        range.has(at),
    ensures
        container.has(at),
{
}

/// Containment of ranges is transitive.
pub proof fn law_containment_is_transitive(a: ByteRange, b: ByteRange, c: ByteRange)
    requires
        a.contains(b),
        b.contains(c),
    ensures
        a.contains(c),
{
}

/// Of two ranges that have a last byte, one is part of the other if and only if the other holds all
/// of its positions.
pub proof fn law_parts_hold_no_other_positions(container: ByteRange, range: ByteRange)
    requires
        container.length is Some,
        container.start + container.length->0 <= u64::MAX,
        range.length matches Some(length) && length > 0,
        range.start + range.length->0 <= u64::MAX,
    ensures
        container.contains(range) <==> (forall|at: int| #[trigger]
            range.has(at) ==> container.has(at)),
{
    if forall|at: int| #[trigger] range.has(at) ==> container.has(at) {
        assert(range.has(range.start as int));
        assert(range.has(range.start + range.length->0 - 1));
    }
}

/// An empty range is part of one that it begins in or at the end of; a range without a last byte, or
/// one that ends past the last 64-bit position, is part of none and has no parts.
pub proof fn law_empty_and_open_ranges_as_parts(container: ByteRange, range: ByteRange)
    ensures
        container.bounded() && range.length == Some(0u64) ==> (container.contains(range) <==> {
            &&& container.start <= range.start
            &&& range.start <= container.start + container.length->0
        }),
        range.length is None || container.length is None ==> !container.contains(range),
        range.length matches Some(length) ==> (range.start + length > u64::MAX
            ==> !container.contains(range)),
        container.length matches Some(length) ==> (container.start + length > u64::MAX
            ==> !container.contains(range)),
{
}

/// A position lies in a range from its first byte on, up to and without the end of it if it has
/// one.
pub proof fn law_ranges_begin_and_end(start: u64, length: u64, at: int)
    ensures
        (ByteRange { start, length: None }).has(at) <==> at >= start,
        (ByteRange { start, length: Some(length) }).has(at) <==> start <= at < start + length,
{
}

/// Sums of positions and lengths are exact as long as they fit, and never smaller than a part of
/// them.
pub proof fn law_sums_are_exact_where_they_fit(a: u64, b: u64)
    ensures
        a + b <= u64::MAX ==> saturating_sum(a, b as int) == a + b,
        a + b > u64::MAX ==> saturating_sum(a, b as int) == u64::MAX,
{
}

/// A `Range` header names the first and the last byte that it asks for, each as the whole number
/// that it is, however large. One for an open-ended range names the first byte alone.
pub proof fn law_range_headers_name_the_bytes(range: ByteRange)
    ensures
        ({
            let header = range_header(range);
            &&& text::after_prefix(header, "bytes="@) matches Some(asked)
            &&& text::split_at_first(asked, '-') matches Some((first, last))
            &&& text::u64_value(first) == Some(range.start)
            &&& header == "bytes="@ + text::decimal(range.start as nat) + "-"@ + last
            &&& match range.length {
                Some(length) if length > 0 => {
                    &&& range.start + length <= u64::MAX ==> {
                        &&& text::u64_value(last) == Some((range.start + length - 1) as u64)
                        &&& last == text::decimal((range.start + length - 1) as nat)
                    }
                    &&& range.start + length > u64::MAX ==> text::u64_value(last) == Some(
                        (u64::MAX - 1) as u64,
                    )
                },
                _ => last.len() == 0,
            }
        }),
{
    reveal_strlit("bytes=");
    reveal_strlit("-");
    let first = text::decimal(range.start as nat);
    let last = match range.length {
        Some(length) if length > 0 => text::decimal(
            (saturating_sum(range.start, length as int) - 1) as nat,
        ),
        _ => Seq::empty(),
    };
    text::law_u64_round_trip(range.start);
    text::law_decimal_reads_back(range.start as nat);
    if let Some(length) = range.length {
        if length > 0 {
            text::law_u64_round_trip((saturating_sum(range.start, length as int) - 1) as u64);
        }
    }
    assert(!first.contains('-')) by {
        assert forall|i: int| 0 <= i < first.len() implies first[i] != '-' by {
            assert(text::is_digit(first[i]));
        }
    }
    let asked = first + seq!['-'] + last;
    assert(range_header(range) =~= "bytes="@ + asked);
    text::law_prefixes_come_first("bytes="@, asked, range_header(range));
    text::law_texts_are_split_where_the_character_is(first, '-', last);
}

/// Ranges of different bytes are never asked for by the same header.
pub proof fn law_different_ranges_have_different_headers(one: ByteRange, other: ByteRange)
    requires
        one.bounded() && one.length->0 > 0,
        other.bounded() && other.length->0 > 0,
        range_header(one) == range_header(other),
    ensures
        one == other,
{
    law_range_headers_name_the_bytes(one);
    law_range_headers_name_the_bytes(other);
}

/// An open-ended range begins where it was made to and holds every position from there on.
pub proof fn law_suffixes_begin_where_they_are_made_to(start: u64, range: ByteRange, at: int)
    requires
        call_ensures(ByteRange::suffix_from, (start,), range),
    ensures
        range.has(at) <==> at >= start,
        range.start == start,
{
}

/// The header that is written for a range is one that asks for it: it names the first byte, and the
/// last if there is one.
pub proof fn law_written_headers_name_the_bytes(range: ByteRange, header: String)
    requires
        call_ensures(http_range_header, (range,), header),
    ensures
        range.length is None ==> header@ == "bytes="@ + text::decimal(range.start as nat) + "-"@,
        range.length matches Some(length) ==> (0 < length && range.start + length <= u64::MAX
            ==> header@ == "bytes="@ + text::decimal(range.start as nat) + "-"@ + text::decimal(
            (range.start + length - 1) as nat,
        )),
{
    law_range_headers_name_the_bytes(range);
}

} // verus!
