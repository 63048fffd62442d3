//! What a read never does: ask for too much, go on for ever, fetch what it has.
use vstd::prelude::*;

use crate::error::SourceErrorView;
use crate::fetch::ResponseView;
use crate::http_read::{FetchPlan, PendingView, ReadStepView, StageView};
use crate::http_source::{
    SourceView, HTTP_CACHE_RETAIN_BYTES, HTTP_CACHE_TRIM_SLACK,
    HTTP_FETCH_MAX_PIECES_PER_READ, HTTP_PREFETCH_MAX_FAILURES, HTTP_REQUEST_MAX_BYTES,
    HTTP_STREAM_TO_EOF_BYTE_LIMIT,
};
use crate::range::ByteRange;
use crate::retry;
use crate::whole_reads::ReadEvent;

verus! {

// ---------------------------------------------------------------------------
// How much is asked for
// ---------------------------------------------------------------------------
/// Whether a request is for at least one byte and no more than one request may carry.
pub open spec fn modest(piece: ByteRange) -> bool {
    piece.length matches Some(length) && 0 < length <= HTTP_REQUEST_MAX_BYTES
}

impl SourceView {
    /// Whether a piece lies within the resource, as far as its length is known.
    pub open spec fn within(self, piece: ByteRange) -> bool {
        self.content_length matches Some(total) ==> (piece.length matches Some(length)
            && piece.start + length <= total)
    }

    /// Whether what a step asks for keeps within the limits.
    pub open spec fn asks_within_limits(self, step: ReadStepView) -> bool {
        match step {
            ReadStepView::Fetch(read, piece) => {
                &&& modest(piece)
                &&& read.range.length is Some ==> self.within(piece)
                &&& read.stage == StageView::Fetch(FetchPlan::Stream) ==> self.cache.len()
                    + piece.length->0 <= HTTP_STREAM_TO_EOF_BYTE_LIMIT
            },
            ReadStepView::Done(_, Some(piece)) => {
                &&& modest(piece)
                &&& self.within(piece)
                &&& piece.start == self.end()
                &&& self.prefetch == Some(piece)
            },
            _ => true,
        }
    }

    /// Whether a read that waits for the length will then ask for pieces of a bounded range.
    pub open spec fn measures_bounded_reads(self, step: ReadStepView) -> bool {
        match step {
            ReadStepView::Learn(read) => read.stage matches StageView::Measure(plan) && plan
                != FetchPlan::Stream && read.range.length is Some,
            ReadStepView::Fetch(read, _) => read.stage matches StageView::Fetch(plan) && (plan
                == FetchPlan::Stream <==> read.range.length is None),
            ReadStepView::Poll(read) => read.stage is Settle || read.stage is Refill,
            ReadStepView::Join(_) => true,
            ReadStepView::Done(_, _) => true,
        }
    }

    /// Whether the source is still the one it was made as: same address, same headers, same
    /// sizes.
    pub open spec fn same_configuration(self, other: SourceView) -> bool {
        &&& self.uri == other.uri
        &&& self.own == other.own
        &&& self.read_ahead == other.read_ahead
        &&& self.request == other.request
    }

    /// What every step of a read keeps.
    pub open spec fn behaves(self, step: ReadStepView, origin: SourceView) -> bool {
        &&& self.same_configuration(origin)
        &&& self.asks_within_limits(step)
        &&& self.measures_bounded_reads(step)
    }
}

proof fn lemma_looked_up_behaves(source: SourceView, range: ByteRange, origin: SourceView)
    requires
        origin.well_formed(),
        source.same_configuration(origin),
    ensures
        ({
            let next = source.looked_up(range);
            next.0.behaves(next.1, origin)
        }),
{
}

proof fn lemma_settled_behaves(source: SourceView, range: ByteRange, origin: SourceView)
    requires
        origin.well_formed(),
        source.same_configuration(origin),
    ensures
        ({
            let next = source.settled(range);
            next.0.behaves(next.1, origin)
        }),
{
    let trimmed = source.trimmed(range);
    lemma_looked_up_behaves(trimmed, range, origin);
    lemma_looked_up_behaves(SourceView { prefetch: None, ..trimmed }, range, origin);
}

proof fn lemma_filled_behaves(
    source: SourceView,
    range: ByteRange,
    end: u64,
    pieces: u32,
    origin: SourceView,
)
    requires
        origin.well_formed(),
        source.same_configuration(origin),
        range.length is Some,
    ensures
        ({
            let next = source.filled(range, end, pieces);
            next.0.behaves(next.1, origin)
        }),
{
}

proof fn lemma_fetched_behaves(
    source: SourceView,
    read: PendingView,
    piece: ByteRange,
    outcome: Result<ResponseView, SourceErrorView>,
    origin: SourceView,
)
    requires
        origin.well_formed(),
        source.behaves(ReadStepView::Fetch(read, piece), origin),
    ensures
        ({
            let next = source.fetched(read, outcome);
            next.0.behaves(next.1, origin)
        }),
{
    if let Ok(response) = outcome {
        let next = source.recorded(response.total);
        let longer = SourceView { cache: next.cache + response.bytes, ..next };
        match read.stage {
            StageView::Fetch(FetchPlan::Fill { end, pieces }) => {
                lemma_filled_behaves(longer, read.range, end, pieces, origin);
            },
            _ => {},
        }
    }
}

#[verifier::rlimit(30)]
proof fn lemma_advanced_behaves(
    source: SourceView,
    step: ReadStepView,
    event: ReadEvent,
    origin: SourceView,
)
    requires
        origin.well_formed(),
        source.behaves(step, origin),
    ensures
        ({
            let next = source.advanced(step, event);
            next.0.behaves(next.1, origin)
        }),
{
    match (step, event) {
        (ReadStepView::Poll(read), ReadEvent::Polled(polled)) => {
            let next = match polled {
                Some(outcome) => source.landed(outcome),
                None => source,
            };
            lemma_settled_behaves(next, read.range, origin);
        },
        (ReadStepView::Join(read), ReadEvent::Joined(outcome)) => {
            lemma_looked_up_behaves(source.landed(outcome), read.range, origin);
        },
        (ReadStepView::Fetch(read, piece), ReadEvent::Fetched(outcome)) => {
            lemma_fetched_behaves(source, read, piece, outcome, origin);
        },
        _ => {},
    }
}

proof fn lemma_run_behaves(
    source: SourceView,
    step: ReadStepView,
    events: Seq<ReadEvent>,
    origin: SourceView,
)
    requires
        origin.well_formed(),
        source.behaves(step, origin),
    ensures
        ({
            let last = source.run(step, events);
            last.0.behaves(last.1, origin)
        }),
    decreases events.len(),
{
    if events.len() > 0 {
        let next = source.advanced(step, events[0]);
        lemma_advanced_behaves(source, step, events[0], origin);
        lemma_run_behaves(next.0, next.1, events.skip(1), origin);
    }
}

/// No request, of a read or of a prefetch, asks for more than one request may carry, however deep
/// the window and however long the read; nor for nothing; nor, except in an open-ended read, for
/// bytes past a known end. An open-ended read never asks for bytes past its limit.
pub proof fn law_requests_are_capped(source: SourceView, range: ByteRange, events: Seq<ReadEvent>)
    requires
        source.well_formed(),
    ensures
        ({
            let last = source.read(range, events);
            last.0.asks_within_limits(last.1)
        }),
{
    let begun = source.begun(range);
    lemma_settled_behaves(source, range, source);
    lemma_run_behaves(begun.0, begun.1, events, source);
}

/// A read changes neither the address nor the headers nor the sizes that a source was made with.
pub proof fn law_reads_keep_the_configuration(
    source: SourceView,
    range: ByteRange,
    events: Seq<ReadEvent>,
)
    requires
        source.well_formed(),
    ensures
        source.read(range, events).0.same_configuration(source),
        source.read(range, events).0.well_formed(),
{
    let begun = source.begun(range);
    lemma_settled_behaves(source, range, source);
    lemma_run_behaves(begun.0, begun.1, events, source);
}

// ---------------------------------------------------------------------------
// How long a read goes on
// ---------------------------------------------------------------------------
/// The most steps that a read of `range` takes. A bounded read is put together from a limited
/// number of pieces; an open-ended one from any number, but each of them brings a byte and no more
/// bytes are asked for than the limit on such reads.
pub open spec fn most_steps(range: ByteRange) -> nat {
    match range.length {
        Some(_) => (2 * HTTP_FETCH_MAX_PIECES_PER_READ + 3) as nat,
        None => (HTTP_STREAM_TO_EOF_BYTE_LIMIT + 3) as nat,
    }
}

impl SourceView {
    /// A bound on the steps that a read has left.
    pub open spec fn steps_left(self, step: ReadStepView) -> nat {
        let fetches = |plan: FetchPlan|
            match plan {
                FetchPlan::Anchor => 2nat,
                FetchPlan::Fill { pieces, .. } => if pieces <= HTTP_FETCH_MAX_PIECES_PER_READ {
                    (2 + 2 * (HTTP_FETCH_MAX_PIECES_PER_READ - pieces)) as nat
                } else {
                    2nat
                },
                FetchPlan::Stream => (self.stream_room() + 1) as nat,
            };
        match step {
            ReadStepView::Poll(read) => if read.stage is Refill {
                1
            } else {
                most_steps(read.range)
            },
            ReadStepView::Join(read) => (most_steps(read.range) - 1) as nat,
            ReadStepView::Learn(read) => match read.stage {
                StageView::Measure(plan) => fetches(plan) + 1,
                _ => 0,
            },
            ReadStepView::Fetch(read, _) => match read.stage {
                StageView::Fetch(plan) => fetches(plan),
                _ => 0,
            },
            ReadStepView::Done(_, _) => 0,
        }
    }
}

proof fn lemma_looked_up_steps(source: SourceView, range: ByteRange)
    ensures
        ({
            let next = source.looked_up(range);
            next.0.steps_left(next.1) <= most_steps(range) - 2
        }),
{
}

/// Every piece that an open-ended read goes on after brings it nearer to its limit.
proof fn lemma_fetched_steps(
    source: SourceView,
    read: PendingView,
    piece: ByteRange,
    outcome: Result<ResponseView, SourceErrorView>,
    origin: SourceView,
)
    requires
        origin.well_formed(),
        source.behaves(ReadStepView::Fetch(read, piece), origin),
    ensures
        ({
            let next = source.fetched(read, outcome);
            next.0.steps_left(next.1) < source.steps_left(ReadStepView::Fetch(read, piece))
        }),
{
}

proof fn lemma_settled_steps(source: SourceView, range: ByteRange)
    ensures
        ({
            let next = source.settled(range);
            next.0.steps_left(next.1) <= most_steps(range) - 1
        }),
{
    let trimmed = source.trimmed(range);
    lemma_looked_up_steps(trimmed, range);
    lemma_looked_up_steps(SourceView { prefetch: None, ..trimmed }, range);
}

proof fn lemma_advanced_steps(
    source: SourceView,
    step: ReadStepView,
    event: ReadEvent,
    origin: SourceView,
)
    requires
        origin.well_formed(),
        source.behaves(step, origin),
        step.awaits(event),
    ensures
        ({
            let next = source.advanced(step, event);
            next.0.steps_left(next.1) < source.steps_left(step)
        }),
{
    match (step, event) {
        (ReadStepView::Poll(read), ReadEvent::Polled(polled)) => {
            let next = match polled {
                Some(outcome) => source.landed(outcome),
                None => source,
            };
            lemma_settled_steps(next, read.range);
        },
        (ReadStepView::Join(read), ReadEvent::Joined(outcome)) => {
            lemma_looked_up_steps(source.landed(outcome), read.range);
        },
        (ReadStepView::Fetch(read, piece), ReadEvent::Fetched(outcome)) => {
            lemma_fetched_steps(source, read, piece, outcome, origin);
        },
        _ => {},
    }
}

impl SourceView {
    /// Whether every event tells of the step that the read then stands at, as long as it goes on.
    pub open spec fn fitting(self, step: ReadStepView, events: Seq<ReadEvent>) -> bool
        decreases events.len(),
    {
        events.len() > 0 && !(step is Done) ==> {
            let next = self.advanced(step, events[0]);
            &&& step.awaits(events[0])
            &&& next.0.fitting(next.1, events.skip(1))
        }
    }
}

proof fn lemma_run_ends(
    source: SourceView,
    step: ReadStepView,
    events: Seq<ReadEvent>,
    origin: SourceView,
)
    requires
        origin.well_formed(),
        source.behaves(step, origin),
        source.fitting(step, events),
        events.len() >= source.steps_left(step),
    ensures
        source.run(step, events).1 is Done,
    decreases events.len(),
{
    if step is Done {
        if events.len() > 0 {
            assert(source.advanced(step, events[0]) == (source, step));
            lemma_run_ends(source, step, events.skip(1), origin);
        }
    } else if events.len() > 0 {
        let next = source.advanced(step, events[0]);
        lemma_advanced_behaves(source, step, events[0], origin);
        lemma_advanced_steps(source, step, events[0], origin);
        lemma_run_ends(next.0, next.1, events.skip(1), origin);
    }
}

/// Every read ends, after a number of steps that depends neither on how long the read or the
/// resource is nor on how the origin behaves.
pub proof fn law_reads_end(source: SourceView, range: ByteRange, events: Seq<ReadEvent>)
    requires
        source.well_formed(),
        ({
            let begun = source.begun(range);
            begun.0.fitting(begun.1, events)
        }),
        events.len() >= most_steps(range),
    ensures
        source.read(range, events).1 is Done,
{
    let begun = source.begun(range);
    lemma_settled_behaves(source, range, source);
    lemma_settled_steps(source, range);
    lemma_run_ends(begun.0, begun.1, events, source);
}

// ---------------------------------------------------------------------------
// What the cache keeps
// ---------------------------------------------------------------------------
/// Trimming for a read drops nothing of that read, nor of any read that begins within the
/// retained tail behind it: whatever of these was in the cache still is.
pub proof fn law_trimming_spares_the_retained_tail(
    source: SourceView,
    range: ByteRange,
    other: ByteRange,
)
    requires
        source.cache_start + source.cache.len() <= u64::MAX,
        other.start + HTTP_CACHE_RETAIN_BYTES >= range.start,
    ensures
        source.trimmed(range).end() == source.end(),
        source.trimmed(range).slice(other) == source.slice(other),
{
    let trimmed = source.trimmed(range);
    if source.slice(other) is Some {
        assert(trimmed.slice(other)->0 =~= source.slice(other)->0);
    }
}

/// Once trimmed for a bounded read, the cache reaches no further behind it than the retained tail
/// and the slack, unless it is empty.
pub proof fn law_the_tail_is_bounded(source: SourceView, range: ByteRange)
    requires
        range.length is Some,
    ensures
        ({
            let trimmed = source.trimmed(range);
            trimmed.cache.len() == 0 || range.start - trimmed.cache_start
                < HTTP_CACHE_RETAIN_BYTES + HTTP_CACHE_TRIM_SLACK
        }),
{
}

/// A read that the cache covers, such as a rewind within the retained tail, is served from it:
/// nothing is fetched or waited for, whatever the prefetch is found to have done.
pub proof fn law_cached_reads_fetch_nothing(
    source: SourceView,
    range: ByteRange,
    first: Option<Result<ResponseView, SourceErrorView>>,
    second: Option<Result<ResponseView, SourceErrorView>>,
)
    requires
        source.cache_start + source.cache.len() <= u64::MAX,
        source.slice(range) is Some,
    ensures
        source.prefetch is None ==> source.begun(range).1 is Done,
        source.read(range, seq![ReadEvent::Polled(first), ReadEvent::Polled(second)]).1 matches
            ReadStepView::Done(result, _) && result == Ok::<_, SourceErrorView>(
            source.slice(range)->0,
        ),
{
    reveal_with_fuel(SourceView::run, 3);
    let events = seq![ReadEvent::Polled(first), ReadEvent::Polled(second)];
    assert(events.skip(1) =~= seq![ReadEvent::Polled(second)]);
    assert(events.skip(1).skip(1) =~= Seq::empty());
    let bytes = source.slice(range)->0;
    let settled = match first {
        Some(outcome) if source.prefetch is Some => source.landed(outcome),
        _ => source,
    };
    assert(settled.slice(range)->0 =~= bytes);
    let trimmed = settled.trimmed(range);
    assert(trimmed.slice(range)->0 =~= bytes);
}

/// A read whose start is not near the cache (nothing is cached, or it lies before the cache or
/// far past it) forgets the prefetch and asks for bytes from its own start on, with nothing in
/// between.
pub proof fn law_distant_reads_start_a_new_window(source: SourceView, range: ByteRange)
    requires
        range.length is Some,
        source.slice(range) is None,
        source.cache.len() == 0 || range.start < source.cache_start || range.start
            > source.end() + HTTP_REQUEST_MAX_BYTES,
    ensures
        ({
            let next = source.looked_up(range);
            match next.1 {
                ReadStepView::Fetch(read, piece) => piece.start == range.start
                    && next.0.prefetch is None,
                ReadStepView::Learn(read) => read.stage == StageView::Measure(FetchPlan::Anchor)
                    && next.0.prefetch is None,
                _ => next.0.cache_start == range.start && next.0.cache.len() == 0,
            }
        }),
{
}

// ---------------------------------------------------------------------------
// What prefetches do
// ---------------------------------------------------------------------------
/// How a prefetch fails is of no consequence to the read: it goes on as if there had been none,
/// and only the count of failures tells.
pub proof fn law_failed_prefetches_fail_no_read(
    source: SourceView,
    read: PendingView,
    error: SourceErrorView,
)
    requires
        source.prefetch is Some,
    ensures
        ({
            let without = SourceView {
                prefetch: None,
                failures: retry::counted(source.failures),
                ..source
            };
            &&& source.joined(read, Err(error)) == without.looked_up(read.range)
            &&& source.polled(read, Some(Err(error))) == without.polled(read, None)
        }),
{
}

/// A read that needs bytes past the cache and does not lie past the piece in flight waits for
/// that piece.
pub proof fn law_needed_pieces_are_waited_for(
    source: SourceView,
    range: ByteRange,
    pending: ByteRange,
)
    requires
        source.prefetch == Some(pending),
        source.trimmed(range).slice(range) is None,
        source.content_length matches Some(total) ==> range.start < total,
        range.length matches Some(length) && range.start + length > source.end(),
        source.cache_start + source.cache.len() <= u64::MAX,
        source.end() < u64::MAX,
        pending.length matches Some(length) && range.start < pending.start + length,
        pending.start + pending.length->0 <= u64::MAX,
    ensures
        source.settled(range).1 is Join,
{
    assert(source.trimmed(range).end() == source.end());
}

/// If the piece that a read waited for completes what the read needs, nothing is fetched: the
/// read ends with the bytes of the cache and of the piece.
pub proof fn law_joined_pieces_are_not_fetched_again(
    source: SourceView,
    read: PendingView,
    pending: ByteRange,
    response: ResponseView,
)
    requires
        source.prefetch == Some(pending),
        source.cache_start + source.cache.len() + response.bytes.len() <= u64::MAX,
        pending.start == source.end(),
        read.range.bounded(),
        source.cache_start <= read.range.start,
        read.range.start + read.range.length->0 <= source.end() + response.bytes.len(),
    ensures
        ({
            let from = read.range.start - source.cache_start;
            source.joined(read, Ok(response)).1 matches ReadStepView::Done(result, _) && result
                == Ok::<_, SourceErrorView>(
                (source.cache + response.bytes).subrange(from, from + read.range.length->0),
            )
        }),
{
    let landed = source.landed(Ok(response));
    assert(landed.cache =~= source.cache + response.bytes);
}

/// After a few failures in a row no more is prefetched, until a fetch of the reader's own
/// succeeds.
pub proof fn law_prefetching_pauses_after_failures(
    source: SourceView,
    range: ByteRange,
    hit: Option<Seq<u8>>,
    total: Option<u64>,
)
    ensures
        source.failures >= HTTP_PREFETCH_MAX_FAILURES ==> (source.finish(range, hit).1 matches
            ReadStepView::Done(_, due) && due is None),
        source.recorded(total).failures == 0,
{
}

/// While a known resource has more bytes than the window holds, a read that leaves less than the
/// configured depth ahead of it asks for the next piece, and one that leaves that much does not:
/// the window comes up to its depth, and exceeds it by less than one request.
pub proof fn law_the_window_is_filled_to_its_depth(
    source: SourceView,
    range: ByteRange,
    hit: Option<Seq<u8>>,
)
    requires
        source.well_formed(),
        source.read_ahead > 0,
        source.prefetch is None,
        source.cache.len() > 0,
        source.failures < HTTP_PREFETCH_MAX_FAILURES,
        range.bounded(),
        range.start + range.length->0 <= source.end(),
        source.content_length matches Some(total) && source.end() < total,
    ensures
        ({
            let ahead = source.end() - (range.start + range.length->0);
            let next = source.finish(range, hit);
            match next.0.prefetch {
                Some(piece) => {
                    &&& ahead < source.read_ahead
                    &&& piece.start == source.end()
                    &&& ahead + piece.length->0 < source.read_ahead + HTTP_REQUEST_MAX_BYTES
                },
                None => ahead >= source.read_ahead,
            }
        }),
{
}

} // verus!
