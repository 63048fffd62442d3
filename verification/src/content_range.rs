//! The `Content-Range` response header.
use vstd::prelude::*;

use crate::text;

verus! {

/// What follows the `bytes` unit in a `Content-Range` value.
pub open spec fn after_unit(value: Seq<char>) -> Option<Seq<char>> {
    match text::after_prefix(text::trim(value), "bytes"@) {
        Some(rest) => Some(text::trim_start(rest)),
        None => None,
    }
}

/// The total in `bytes start-end/total`; `bytes */total` has one too.
pub open spec fn content_range_total(value: Seq<char>) -> Option<u64> {
    match after_unit(value) {
        None => None,
        Some(rest) => match text::split_at_last(rest, '/') {
            None => None,
            Some((_, total)) => text::u64_value(text::trim(total)),
        },
    }
}

/// The position of the first byte in `bytes start-end/total`.
pub open spec fn content_range_start(value: Seq<char>) -> Option<u64> {
    match after_unit(value) {
        None => None,
        Some(rest) => match text::split_at_last(rest, '/') {
            None => None,
            Some((range, _)) => match text::split_at_first(text::trim(range), '-') {
                None => None,
                Some((start, _)) => text::u64_value(text::trim(start)),
            },
        },
    }
}

/// Reads the total length out of a `Content-Range` value.
///
/// There is none in a value of another unit or with an unknown total (`bytes 0-1/*`).
pub fn parse_content_range_total(value: &str) -> (total: Option<u64>)
    ensures
        total == content_range_total(value@),
{
    let chars: Vec<char> = text::chars_of(value);
    match text::strip_prefix(text::trimmed(chars.as_slice()), "bytes") {
        None => None,
        Some(rest) => match text::split_last(text::trimmed_start(rest), '/') {
            None => None,
            Some((_, total)) => text::parse_u64(text::trimmed(total)),
        },
    }
}

/// Reads the position of the first byte out of a `Content-Range` value.
///
/// There is none in the form that names no range (`bytes */total`).
pub fn parse_content_range_start(value: &str) -> (start: Option<u64>)
    ensures
        start == content_range_start(value@),
{
    let chars: Vec<char> = text::chars_of(value);
    match text::strip_prefix(text::trimmed(chars.as_slice()), "bytes") {
        None => None,
        Some(rest) => match text::split_last(text::trimmed_start(rest), '/') {
            None => None,
            Some((range, _)) => match text::split_first(text::trimmed(range), '-') {
                None => None,
                Some((start, _)) => text::parse_u64(text::trimmed(start)),
            },
        },
    }
}

/// The value `bytes start-end/total`.
pub open spec fn content_range(start: u64, end: u64, total: u64) -> Seq<char> {
    "bytes "@ + text::decimal(start as nat) + "-"@ + text::decimal(end as nat) + "/"@
        + text::decimal(total as nat)
}

/// The value `bytes start-end/*`, which leaves the total open.
pub open spec fn content_range_of_unknown_total(start: u64, end: u64) -> Seq<char> {
    "bytes "@ + text::decimal(start as nat) + "-"@ + text::decimal(end as nat) + "/*"@
}

/// The value `bytes */total`, which names no range.
pub open spec fn unsatisfied_content_range(total: u64) -> Seq<char> {
    "bytes */"@ + text::decimal(total as nat)
}

/// A value that begins with `bytes ` and has no whitespace after it, taken apart at its last `/`.
proof fn lemma_unit_and_slash(value: Seq<char>, range: Seq<char>, total: Seq<char>)
    requires
        value == "bytes "@ + range + "/"@ + total,
        range.len() > 0,
        total.len() > 0,
        !text::is_white_space(range[0]),
        !text::is_white_space(total.last()),
        forall|i: int| 0 <= i < total.len() ==> total[i] != '/',
    ensures
        after_unit(value) == Some(range + "/"@ + total),
        text::split_at_last(range + "/"@ + total, '/') == Some((range, total)),
{
    reveal_strlit("bytes ");
    reveal_strlit("bytes");
    reveal_strlit("/");
    text::lemma_trim_of_trimmed(value);
    assert(value.take(5) =~= "bytes"@);
    let rest = range + "/"@ + total;
    assert(value.skip(5) =~= seq![' '] + rest);
    assert((seq![' '] + rest).skip(1) =~= rest);
    assert(text::trim_start(rest) == rest);
    text::lemma_rfind_char_is(rest, '/', range.len() as int);
    assert(rest.take(range.len() as int) =~= range);
    assert(rest.skip(range.len() as int + 1) =~= total);
}

/// A range `start-end` is taken apart at its `-`, and its start is read back.
proof fn lemma_range_start(start: u64, end: u64)
    ensures
        ({
            let range = text::decimal(start as nat) + "-"@ + text::decimal(end as nat);
            &&& range.len() > 0
            &&& !text::is_white_space(range[0])
            &&& text::trim(range) == range
            &&& text::split_at_first(range, '-') is Some
            &&& text::split_at_first(range, '-')->0 == (
                text::decimal(start as nat),
                text::decimal(end as nat),
            )
            &&& text::u64_value(text::trim(text::decimal(start as nat))) == Some(start)
        }),
{
    reveal_strlit("-");
    text::law_decimal_reads_back(start as nat);
    text::law_decimal_reads_back(end as nat);
    text::law_u64_round_trip(start);
    let s = text::decimal(start as nat);
    let e = text::decimal(end as nat);
    let range = s + "-"@ + e;
    assert(text::is_digit(s[0]) && text::is_digit(s.last()) && text::is_digit(e.last()));
    text::lemma_trim_of_trimmed(range);
    text::lemma_trim_of_trimmed(s);
    assert forall|j: int| 0 <= j < s.len() implies range[j] != '-' by {
        assert(text::is_digit(s[j]));
    }
    text::lemma_find_char_is(range, '-', s.len() as int);
    assert(range.take(s.len() as int) =~= s);
    assert(range.skip(s.len() as int + 1) =~= e);
}

/// The start and the total of `bytes start-end/total` are read back.
pub proof fn law_content_range_reads_back(start: u64, end: u64, total: u64)
    ensures
        content_range_start(content_range(start, end, total)) == Some(start),
        content_range_total(content_range(start, end, total)) == Some(total),
{
    let range = text::decimal(start as nat) + "-"@ + text::decimal(end as nat);
    let t = text::decimal(total as nat);
    lemma_range_start(start, end);
    text::law_decimal_reads_back(total as nat);
    text::law_u64_round_trip(total);
    assert(text::is_digit(t[0]) && text::is_digit(t.last()));
    assert forall|i: int| 0 <= i < t.len() implies t[i] != '/' by {
        assert(text::is_digit(t[i]));
    }
    assert(content_range(start, end, total) =~= "bytes "@ + range + "/"@ + t);
    lemma_unit_and_slash(content_range(start, end, total), range, t);
    text::lemma_trim_of_trimmed(t);
}

/// `bytes start-end/*` names a start and no total.
pub proof fn law_unknown_total_is_none(start: u64, end: u64)
    ensures
        content_range_start(content_range_of_unknown_total(start, end)) == Some(start),
        content_range_total(content_range_of_unknown_total(start, end)) is None,
{
    reveal_strlit("/*");
    reveal_strlit("/");
    let range = text::decimal(start as nat) + "-"@ + text::decimal(end as nat);
    let t = seq!['*'];
    lemma_range_start(start, end);
    assert(content_range_of_unknown_total(start, end) =~= "bytes "@ + range + "/"@ + t);
    lemma_unit_and_slash(content_range_of_unknown_total(start, end), range, t);
    text::lemma_trim_of_trimmed(t);
    assert(!text::is_digit(t[0]));
}

/// `bytes */total` names a total and no start.
pub proof fn law_unsatisfied_range_names_no_start(total: u64)
    ensures
        content_range_start(unsatisfied_content_range(total)) is None,
        content_range_total(unsatisfied_content_range(total)) == Some(total),
{
    reveal_strlit("bytes */");
    reveal_strlit("bytes ");
    reveal_strlit("/");
    let range = seq!['*'];
    let t = text::decimal(total as nat);
    text::law_decimal_reads_back(total as nat);
    text::law_u64_round_trip(total);
    assert(text::is_digit(t[0]) && text::is_digit(t.last()));
    assert forall|i: int| 0 <= i < t.len() implies t[i] != '/' by {
        assert(text::is_digit(t[i]));
    }
    assert(unsatisfied_content_range(total) =~= "bytes "@ + range + "/"@ + t);
    lemma_unit_and_slash(unsatisfied_content_range(total), range, t);
    text::lemma_trim_of_trimmed(t);
    text::lemma_trim_of_trimmed(range);
    text::lemma_find_char_is(range, '-', 1);
}

/// A value of another unit than bytes names neither a start nor a total.
pub proof fn law_other_units_name_nothing(value: Seq<char>)
    requires
        !text::starts_with(text::trim(value), "bytes"@),
    ensures
        content_range_start(value) is None,
        content_range_total(value) is None,
{
}

/// Whitespace around a value, and around the numbers in it, is of no consequence.
pub proof fn law_white_space_is_of_no_consequence(
    pads: Seq<Seq<char>>,
    start: u64,
    end: u64,
    total: u64,
)
    requires
        pads.len() == 6,
        forall|i: int| 0 <= i < 6 ==> text::blank(#[trigger] pads[i]),
    ensures
        ({
            let range = pads[2] + text::decimal(start as nat) + pads[3] + "-"@ + text::decimal(
                end as nat,
            );
            let value = pads[0] + ("bytes"@ + (pads[1] + (range + "/"@ + (pads[4] + text::decimal(
                total as nat,
            ))))) + pads[5];
            &&& content_range_start(value) == Some(start)
            &&& content_range_total(value) == Some(total)
        }),
{
    reveal_strlit("bytes");
    reveal_strlit("-");
    reveal_strlit("/");
    let s = text::decimal(start as nat);
    let e = text::decimal(end as nat);
    let t = text::decimal(total as nat);
    text::law_decimal_reads_back(start as nat);
    text::law_decimal_reads_back(end as nat);
    text::law_decimal_reads_back(total as nat);
    text::law_u64_round_trip(start);
    text::law_u64_round_trip(total);
    assert(text::is_digit(s[0]) && text::is_digit(s.last()));
    assert(text::is_digit(e[0]) && text::is_digit(e.last()));
    assert(text::is_digit(t[0]) && text::is_digit(t.last()));
    let named = s + pads[3] + "-"@ + e;
    let range = pads[2] + s + pads[3] + "-"@ + e;
    let tail = pads[4] + t;
    let body = range + "/"@ + tail;
    let inner = "bytes"@ + (pads[1] + body);
    let value = pads[0] + inner + pads[5];
    let none = Seq::<char>::empty();
    assert(inner[0] == 'b');
    assert(inner.last() == t.last());
    text::law_trimming_removes_what_is_around(pads[0], inner, pads[5]);
    assert(text::trim(value) == inner);
    text::law_prefixes_come_first("bytes"@, pads[1] + body, inner);
    // What follows the unit, without the whitespace before it, still ends in the total.
    let pad = pads[1] + pads[2];
    let rest = named + "/"@ + tail;
    assert(pads[1] + body =~= pad + rest);
    assert forall|i: int| 0 <= i < pad.len() implies text::is_white_space(#[trigger] pad[i]) by {
        if i < pads[1].len() {
            assert(pad[i] == pads[1][i]);
        } else {
            assert(pad[i] == pads[2][i - pads[1].len()]);
        }
    }
    assert(rest[0] == s[0]);
    assert(rest.last() == t.last());
    text::law_trimming_removes_what_is_around(pad, rest, none);
    assert(after_unit(value) == Some(rest));
    assert(!tail.contains('/')) by {
        assert forall|i: int| 0 <= i < tail.len() implies tail[i] != '/' by {
            if i < pads[4].len() {
                assert(tail[i] == pads[4][i]);
            } else {
                assert(text::is_digit(t[i - pads[4].len()]));
            }
        }
    }
    assert(rest =~= named + seq!['/'] + tail);
    text::law_texts_are_split_where_the_character_is(named, '/', tail);
    assert(tail + none =~= tail);
    text::law_trimming_removes_what_is_around(pads[4], t, none);
    assert(named[0] == s[0] && named.last() == e.last());
    text::lemma_trim_of_trimmed(named);
    let before = s + pads[3];
    assert(!before.contains('-')) by {
        assert forall|i: int| 0 <= i < before.len() implies before[i] != '-' by {
            if i < s.len() {
                assert(text::is_digit(s[i]));
            } else {
                assert(before[i] == pads[3][i - s.len()]);
            }
        }
    }
    assert(named =~= before + seq!['-'] + e);
    text::law_texts_are_split_where_the_character_is(before, '-', e);
    assert(none + s + pads[3] =~= before);
    text::law_trimming_removes_what_is_around(none, s, pads[3]);
}

/// A value is taken apart at its last `/`, and what comes before that at its first `-`: what stands
/// there is read as a number or names nothing. A value without a `/` names nothing at all.
pub proof fn law_values_are_taken_apart_at_their_marks(range: Seq<char>, total: Seq<char>)
    requires
        range.len() > 0,
        total.len() > 0,
        !text::is_white_space(range[0]),
        !text::is_white_space(total.last()),
        !total.contains('/'),
    ensures
        ({
            let value = "bytes "@ + range + "/"@ + total;
            &&& content_range_total(value) == text::u64_value(text::trim(total))
            &&& match text::split_at_first(text::trim(range), '-') {
                Some((first, _)) => content_range_start(value) == text::u64_value(
                    text::trim(first),
                ),
                None => content_range_start(value) is None,
            }
        }),
        ({
            let value = "bytes "@ + total;
            content_range_total(value) is None && content_range_start(value) is None
        }),
{
    reveal_strlit("bytes ");
    reveal_strlit("bytes");
    assert forall|i: int| 0 <= i < total.len() implies total[i] != '/' by {
        assert(total.contains(total[i]));
    }
    lemma_unit_and_slash("bytes "@ + range + "/"@ + total, range, total);
    let value = "bytes "@ + total;
    let rest = seq![' '] + total;
    assert(value =~= "bytes"@ + rest);
    text::lemma_trim_of_trimmed(value);
    text::law_prefixes_come_first("bytes"@, rest, value);
    let left = text::trim_start(rest);
    text::lemma_trim_start_keeps(rest);
    assert(!left.contains('/')) by {
        assert forall|i: int| 0 <= i < left.len() implies left[i] != '/' by {
            let at = i + rest.len() - left.len();
            assert(left[i] == rest[at]);
            if at > 0 {
                assert(rest[at] == total[at - 1]);
            }
        }
    }
    text::law_texts_are_split_where_the_character_is(left, '/', Seq::empty());
}

} // verus!
