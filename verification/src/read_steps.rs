//! What a read does at each step, in terms of what it has and what it is told.
use vstd::prelude::*;

use crate::error::SourceErrorView;
use crate::fetch::ResponseView;
use crate::http_read::{FetchPlan, PendingView, ReadStepView, StageView};
use crate::http_source::SourceView;
use crate::length::LengthStepView;
use crate::range::ByteRange;
use crate::text;
use crate::whole_reads::ReadEvent;

verus! {

// ---------------------------------------------------------------------------
// The prefetch
// ---------------------------------------------------------------------------
/// While a piece is in flight, a read begins by seeing whether it has landed, and changes nothing
/// before it knows. With none in flight it asks nothing of the sort.
pub proof fn law_reads_begin_with_the_piece_in_flight(source: SourceView, range: ByteRange)
    ensures
        source.prefetch is Some ==> {
            &&& source.begun(range).0 == source
            &&& source.begun(range).1 == ReadStepView::Poll(
                PendingView { range, stage: StageView::Settle },
            )
        },
        source.prefetch is None ==> !(source.begun(range).1 is Poll) && !(source.begun(range).1
            is Join),
{
}

/// A piece that lands while a read is served from the cache is taken in before the read ends, all of
/// it and no matter when it lands; one that does not land stays in flight.
pub proof fn law_pieces_are_taken_in_as_they_land(
    source: SourceView,
    range: ByteRange,
    pending: ByteRange,
    response: ResponseView,
)
    requires
        source.cache_start + source.cache.len() + response.bytes.len() <= u64::MAX,
        source.slice(range) is Some,
        source.prefetch == Some(pending),
        pending.start == source.cache_start + source.cache.len(),
        response.bytes.len() > 0,
        range.start <= source.cache_start + 16_777_216,
    ensures
        ({
            let landed = Some(Ok::<_, SourceErrorView>(response));
            let late = source.read(range, seq![ReadEvent::Polled(None), ReadEvent::Polled(landed)]);
            let early = source.read(range, seq![ReadEvent::Polled(landed)]);
            let never = source.read(range, seq![ReadEvent::Polled(None), ReadEvent::Polled(None)]);
            &&& late.1 is Done && late.0.cache == source.cache + response.bytes
            &&& early.1 is Done && early.0.cache == source.cache + response.bytes
            &&& never.1 is Done && never.0 == source
        }),
{
    reveal_with_fuel(SourceView::run, 3);
    let landed = Some(Ok::<_, SourceErrorView>(response));
    let (one, two) = (ReadEvent::Polled(None), ReadEvent::Polled(landed));
    assert(seq![one, two].skip(1) =~= seq![two]);
    assert(seq![one, one].skip(1) =~= seq![one]);
    assert(seq![two].skip(1) =~= Seq::empty());
    assert(seq![one].skip(1) =~= Seq::empty());
    assert(source.cache.skip(0) =~= source.cache);
    assert(source.trimmed(range) == source);
    let longer = source.landed(Ok(response));
    assert(longer.cache.skip(0) =~= longer.cache);
    assert(longer.trimmed(range) == longer);
}

// ---------------------------------------------------------------------------
// The length
// ---------------------------------------------------------------------------
/// A length that is known is the answer to a search for it, and one that is not has to be searched.
pub proof fn law_a_known_length_is_the_answer(source: SourceView, n: u64)
    ensures
        source.content_length == Some(n) ==> source.length_step() == Some(
            LengthStepView::Done(Ok(Some(n))),
        ),
        source.content_length is None ==> source.length_step() is None,
{
}

/// What a search for the length finds is recorded as it is, also that none is known, and nothing else
/// changes; a search that fails changes nothing.
pub proof fn law_found_lengths_are_recorded(
    source: SourceView,
    n: u64,
    error: SourceErrorView,
)
    ensures
        source.with_length(Ok(Some(n))) == (SourceView { content_length: Some(n), ..source }),
        source.with_length(Ok(None)) == (SourceView { content_length: None, ..source }),
        source.with_length(Err(error)) == source,
{
}

/// A bounded read that lacks bytes of a resource of unknown length asks for the length first. Once
/// that is known, the read goes on as if it had always been; and if it cannot be found out, the read
/// goes on all the same, and asks for its bytes.
pub proof fn law_reads_go_on_once_the_length_is_asked_for(
    source: SourceView,
    range: ByteRange,
    n: u64,
    error: SourceErrorView,
)
    requires
        source.cache_start + source.cache.len() <= u64::MAX,
        source.prefetch is None,
        source.content_length is None,
        source.slice(range) is None,
        range.bounded(),
        range.length->0 > 0,
    ensures
        ({
            let waiting = source.looked_up(range);
            let told = |found: Result<Option<u64>, SourceErrorView>|
                waiting.0.advanced(waiting.1, ReadEvent::Learned(found));
            let known = SourceView { content_length: Some(n), ..source };
            &&& waiting.1 matches ReadStepView::Learn(read) && read.range == range
            &&& told(Ok(Some(n))) == known.looked_up(range)
            &&& told(Err(error)) == told(Ok(None))
            &&& told(Err(error)).1 is Fetch
        }),
{
}

// ---------------------------------------------------------------------------
// What is asked for
// ---------------------------------------------------------------------------
/// A bounded read that lacks bytes asks for those after the cache if it begins in the cache or not
/// more than four mebibytes after it, and else for those from its own start on. It asks for enough to
/// reach the end of the read, unless a single request may not be as long or the resource ends before.
pub proof fn law_bounded_reads_ask_for_what_they_lack(
    source: SourceView,
    range: ByteRange,
    total: u64,
)
    requires
        source.cache_start + source.cache.len() <= u64::MAX,
        source.prefetch is None,
        source.content_length == Some(total),
        source.slice(range) is None,
        range.bounded(),
        range.length->0 > 0,
        range.start < total,
        source.cache_start + source.cache.len() < total,
    ensures
        ({
            let end = source.cache_start + source.cache.len();
            let near = source.cache.len() > 0 && source.cache_start <= range.start && range.start
                <= end + 4_194_304;
            let next = source.looked_up(range);
            &&& next.1 matches ReadStepView::Fetch(read, piece)
            &&& read.range == range
            &&& next.0 == source
            &&& piece.start == if near {
                end
            } else {
                range.start as int
            }
            &&& piece.length matches Some(asked)
            &&& 0 < asked <= 4_194_304
            &&& piece.start + asked <= total
            &&& asked == 4_194_304 || piece.start + asked == total || piece.start + asked
                >= range.start + range.length->0
        }),
{
}

/// An open-ended read forgets the cache and the prefetch and asks for the first four mebibytes from
/// its start on, unless it begins at the known end of the resource or after it; then it is empty.
pub proof fn law_open_ended_reads_start_over(source: SourceView, start: u64)
    ensures
        ({
            let range = ByteRange { start, length: None };
            let next = source.looked_up(range);
            let past = source.content_length matches Some(total) && start >= total;
            &&& next.0 == (SourceView {
                prefetch: None,
                cache_start: start,
                cache: Seq::empty(),
                ..source
            })
            &&& !past ==> next.1 == ReadStepView::Fetch(
                PendingView { range, stage: StageView::Fetch(FetchPlan::Stream) },
                ByteRange { start, length: Some(4_194_304) },
            )
            &&& past ==> (next.1 matches ReadStepView::Done(Ok(bytes), None) && bytes.len() == 0)
        }),
{
}

// ---------------------------------------------------------------------------
// What arrives
// ---------------------------------------------------------------------------
/// A piece that arrives for an open-ended read is added to what the read has. The read asks for the
/// next four mebibytes, or for what is left up to its limit, as long as the limit is not reached and
/// the resource goes on: before its total if that is known, and after a piece of full length if it is
/// not. Otherwise the read ends with all that it has.
pub proof fn law_streams_go_on_to_the_end(
    source: SourceView,
    read: PendingView,
    response: ResponseView,
)
    requires
        read.stage == StageView::Fetch(FetchPlan::Stream),
        read.range.length is None,
        source.prefetch is None,
        source.cache_start == read.range.start,
        response.bytes.len() > 0,
        source.cache_start + source.cache.len() + response.bytes.len() <= u64::MAX,
    ensures
        ({
            let whole = source.cache + response.bytes;
            let end = source.cache_start + whole.len();
            let total = if source.content_length is Some {
                source.content_length
            } else {
                response.total
            };
            let goes_on = {
                &&& whole.len() < 268_435_456
                &&& source.content_length is None ==> response.bytes.len() >= 4_194_304
                &&& total matches Some(total) ==> end < total
            };
            let next = source.fetched(read, Ok(response));
            &&& next.0.cache == whole
            &&& next.0.cache_start == source.cache_start
            &&& next.0.content_length == total
            &&& goes_on ==> (next.1 matches ReadStepView::Fetch(later, piece) && {
                &&& later == read
                &&& piece.start == end
                &&& piece.length matches Some(asked) && 0 < asked <= 4_194_304 && whole.len()
                    + asked <= 268_435_456 && (asked == 4_194_304 || whole.len() + asked
                    == 268_435_456)
            })
            &&& !goes_on ==> (next.1 matches ReadStepView::Done(Ok(bytes), _) && bytes == whole)
        }),
{
    let whole = source.cache + response.bytes;
    assert(whole.skip(0) =~= whole);
}

/// An empty piece ends an open-ended read with all that it has, if it has anything.
pub proof fn law_an_empty_piece_ends_a_stream(
    source: SourceView,
    read: PendingView,
    response: ResponseView,
)
    requires
        read.stage == StageView::Fetch(FetchPlan::Stream),
        read.range.length is None,
        source.prefetch is None,
        source.cache_start == read.range.start,
        source.cache.len() > 0,
        response.bytes.len() == 0,
    ensures
        source.fetched(read, Ok(response)).1 matches ReadStepView::Done(Ok(bytes), _) && bytes
            == source.cache,
{
    assert(source.cache + response.bytes =~= source.cache);
    assert(source.cache.skip(0) =~= source.cache);
}

/// A piece that arrives for a bounded read is added to the cache, all of it; the first of a new window
/// takes the place of the cache. It shows that the origin is alive, and the total that it names is kept
/// unless one was known.
pub proof fn law_fetched_pieces_are_kept(
    source: SourceView,
    read: PendingView,
    plan: FetchPlan,
    response: ResponseView,
)
    requires
        read.stage == StageView::Fetch(plan),
        source.prefetch is None,
    ensures
        ({
            let next = source.fetched(read, Ok(response)).0;
            &&& plan == FetchPlan::Anchor ==> {
                &&& next.cache == response.bytes
                &&& next.cache_start == read.range.start
            }
            &&& plan != FetchPlan::Anchor ==> {
                &&& next.cache == source.cache + response.bytes
                &&& next.cache_start == source.cache_start
            }
            &&& next.failures == 0
            &&& next.content_length == if source.content_length is Some {
                source.content_length
            } else {
                response.total
            }
        }),
{
    if response.bytes.len() == 0 {
        assert(source.cache + response.bytes =~= source.cache);
    }
}

/// A bounded read goes on after a piece as long as its end is not reached, the piece was not empty
/// and fewer than 64 were fetched. After 64 it fails, with an error that names what it was for.
pub proof fn law_bounded_reads_go_on_piece_by_piece(
    source: SourceView,
    read: PendingView,
    end: u64,
    pieces: u32,
    response: ResponseView,
    total: u64,
)
    requires
        read.stage == StageView::Fetch(FetchPlan::Fill { end, pieces }),
        source.prefetch is None,
        source.content_length == Some(total),
        source.cache_start <= read.range.start,
        source.cache_start + source.cache.len() + response.bytes.len() < end,
        end <= total,
    ensures
        ({
            let reached = source.cache_start + source.cache.len() + response.bytes.len();
            let next = source.fetched(read, Ok(response));
            &&& response.bytes.len() > 0 && pieces < 64 ==> (next.1 matches ReadStepView::Fetch(
                later,
                piece,
            ) && {
                &&& later.range == read.range
                &&& later.stage == StageView::Fetch(
                    FetchPlan::Fill { end, pieces: (pieces + 1) as u32 },
                )
                &&& piece.start == reached
                &&& piece.length matches Some(asked) && (asked == 4_194_304 || reached + asked
                    >= end)
            })
            &&& response.bytes.len() > 0 && pieces >= 64 ==> next.1 == ReadStepView::Done(
                Err(
                    SourceErrorView::Http(
                        "origin answered "@ + text::decimal(pieces as nat)
                            + " short pieces without covering bytes "@ + text::decimal(
                            read.range.start as nat,
                        ) + ".."@ + text::decimal(end as nat),
                    ),
                ),
                None,
            )
            &&& response.bytes.len() == 0 ==> (next.1 matches ReadStepView::Done(result, _)
                && result == source.served(read.range))
        }),
{
}

/// A bounded read ends with the bytes it was for once the pieces cover it, whether they continue the
/// cache or begin a new window. Where a new window begins with less, the read gets what there is of it.
pub proof fn law_covered_reads_end_with_their_bytes(
    source: SourceView,
    read: PendingView,
    plan: FetchPlan,
    response: ResponseView,
    length: u64,
)
    requires
        read.stage == StageView::Fetch(plan),
        read.range.length == Some(length),
        read.range.bounded(),
        source.prefetch is None,
        response.bytes.len() > 0,
        length > 0,
        source.cache_start + source.cache.len() + response.bytes.len() <= u64::MAX,
    ensures
        ({
            let result = |bytes: Seq<u8>|
                source.fetched(read, Ok(response)).1 matches ReadStepView::Done(result, _) && result
                    == Ok::<_, SourceErrorView>(bytes);
            let whole = source.cache + response.bytes;
            let from = read.range.start - source.cache_start;
            &&& plan == FetchPlan::Anchor && length <= response.bytes.len() ==> result(
                response.bytes.take(length as int),
            )
            &&& plan == FetchPlan::Anchor && length > response.bytes.len() ==> result(
                response.bytes,
            )
            &&& plan matches FetchPlan::Fill { end, .. } ==> (end == read.range.start + length
                && 0 <= from && from + length <= whole.len() ==> result(
                whole.subrange(from, from + length),
            ))
        }),
{
    let whole = source.cache + response.bytes;
    let from = read.range.start - source.cache_start;
    assert(response.bytes.skip(0) =~= response.bytes);
    if plan is Fill && 0 <= from && from + length <= whole.len() {
        assert(whole.skip(from).take(length as int) =~= whole.subrange(from, from + length));
        if from + length == whole.len() {
            assert(whole.skip(from) =~= whole.subrange(from, from + length));
        }
    }
}

// ---------------------------------------------------------------------------
// What becomes of the cache and of the piece in flight
// ---------------------------------------------------------------------------
/// Every read first cuts off what lies too far behind it, whether the cache covers it or not: what is
/// then cached is what trimming leaves, or nothing at all.
pub proof fn law_every_read_trims_first(source: SourceView, range: ByteRange)
    ensures
        ({
            let next = source.settled(range).0;
            let trimmed = source.trimmed(range);
            &&& next.cache.len() == 0 || (next.cache == trimmed.cache && next.cache_start
                == trimmed.cache_start)
            &&& trimmed.slice(range) is Some ==> next.cache == trimmed.cache && next.cache_start
                == trimmed.cache_start
        }),
{
}

/// A read that the cache does not cover goes on without a piece in flight that it has passed, waits
/// for one that covers it or that continues a cache which it reaches past, and leaves any other in
/// flight while it looks for its bytes.
pub proof fn law_the_piece_in_flight_is_settled_first(
    source: SourceView,
    range: ByteRange,
    pending: ByteRange,
)
    requires
        source.cache_start + source.cache.len() <= u64::MAX,
        source.prefetch == Some(pending),
        pending.bounded(),
        range.length is None || range.bounded(),
        source.trimmed(range).slice(range) is None,
        source.content_length matches Some(total) ==> range.start < total,
    ensures
        ({
            let trimmed = source.trimmed(range);
            let passed = range.start >= pending.start + pending.length->0;
            let covered = range.length is Some && pending.start <= range.start && range.start
                + range.length->0 <= pending.start + pending.length->0;
            let past = range.length is Some && range.start + range.length->0 > source.cache_start
                + source.cache.len();
            let next = source.settled(range);
            &&& passed ==> next == (SourceView { prefetch: None, ..trimmed }).looked_up(range)
            &&& !passed && (covered || past) ==> next.0 == trimmed && next.1 == ReadStepView::Join(
                PendingView { range, stage: StageView::Join },
            )
            &&& !passed && !covered && !past ==> next == trimmed.looked_up(range)
        }),
{
    assert(source.trimmed(range).end() == source.end());
}

} // verus!
