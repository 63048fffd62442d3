//! What a reader gets when the origin answers in full.
use vstd::prelude::*;

use crate::error::SourceErrorView;
use crate::fetch;
use crate::fetch::ResponseView;
use crate::http_read::{FetchPlan, PendingView, ReadStepView, StageView};
use crate::http_source;
use crate::http_source::{
    SourceView, HTTP_FETCH_MAX_PIECES_PER_READ, HTTP_REQUEST_MAX_BYTES,
    HTTP_STREAM_TO_EOF_BYTE_LIMIT,
};
use crate::range;
use crate::range::ByteRange;
use crate::whole_reads;
use crate::whole_reads::ReadEvent;

verus! {

/// Whether `left` pieces, each as long as a request may be, bring a cache that ends at `from` up
/// to `end`, or else show that the resource ends before.
pub open spec fn pieces_suffice(from: int, end: int, left: int, resource: Seq<u8>) -> bool {
    if end <= resource.len() {
        end <= from + left * HTTP_REQUEST_MAX_BYTES
    } else {
        left >= 1 && resource.len() <= from + (left - 1) * HTTP_REQUEST_MAX_BYTES
    }
}

/// Whether an event tells that the fetch which this step asks for has failed.
pub open spec fn fails(step: ReadStepView, event: ReadEvent) -> bool {
    step is Fetch && (event matches ReadEvent::Fetched(outcome) && outcome is Err)
}

impl SourceView {
    /// Whether an event that this step awaits is an answer in full: a fetch that, unless it fails,
    /// brings all the bytes it was for, as far as the resource has them.
    pub open spec fn generous_event(
        self,
        step: ReadStepView,
        event: ReadEvent,
        resource: Seq<u8>,
    ) -> bool {
        match (step, event) {
            (ReadStepView::Fetch(_, piece), ReadEvent::Fetched(outcome)) => outcome matches Ok(
                response,
            ) ==> fetch::in_full(piece, response.bytes, resource),
            _ => true,
        }
    }

    /// Whether all fetches that do not fail are answered in full.
    pub open spec fn generous(
        self,
        step: ReadStepView,
        events: Seq<ReadEvent>,
        resource: Seq<u8>,
    ) -> bool
        decreases events.len(),
    {
        events.len() > 0 ==> {
            let next = self.advanced(step, events[0]);
            &&& self.generous_event(step, events[0], resource)
            &&& next.0.generous(next.1, events.skip(1), resource)
        }
    }

    /// Whether no fetch that the read asks for fails.
    pub open spec fn unfailing(self, step: ReadStepView, events: Seq<ReadEvent>) -> bool
        decreases events.len(),
    {
        events.len() > 0 ==> {
            let next = self.advanced(step, events[0]);
            &&& !fails(step, events[0])
            &&& next.0.unfailing(next.1, events.skip(1))
        }
    }

    /// Whether `bytes` are enough of an answer to a read of `range`: all that it asks for, as far
    /// as the resource has it. A bounded read that starts a new window may get less, but not less
    /// than one request may carry; an open-ended read may get less, but not less than its limit.
    pub open spec fn enough(self, range: ByteRange, bytes: Seq<u8>, resource: Seq<u8>) -> bool {
        ||| fetch::in_full(range, bytes, resource)
        ||| match range.length {
            Some(_) => self.cache_start == range.start && bytes.len() >= HTTP_REQUEST_MAX_BYTES,
            None => bytes.len() >= HTTP_STREAM_TO_EOF_BYTE_LIMIT,
        }
    }

    /// Whether the cache holds enough for a read of `range`.
    pub open spec fn satisfies(self, range: ByteRange, resource: Seq<u8>) -> bool {
        match range.length {
            Some(length) => {
                &&& self.cache_start <= range.start
                &&& self.end() >= resource.len() || self.end() >= range.start + length || (
                self.cache_start == range.start && self.cache.len() >= HTTP_REQUEST_MAX_BYTES)
            },
            None => {
                &&& self.cache_start == range.start
                &&& self.end() >= resource.len() || self.cache.len()
                    >= HTTP_STREAM_TO_EOF_BYTE_LIMIT
            },
        }
    }

    /// Whether a plan leads to enough for a read of `range`, and is `sure` to do so within the
    /// allowed number of pieces.
    pub open spec fn promising(
        self,
        plan: FetchPlan,
        range: ByteRange,
        sure: bool,
        resource: Seq<u8>,
    ) -> bool {
        match (plan, range.length) {
            (FetchPlan::Anchor, Some(length)) => true,
            (FetchPlan::Fill { end, pieces }, Some(length)) => {
                &&& self.cache_start <= range.start
                &&& end == range::saturating_sum(range.start, length as int)
                &&& self.end() < end
                &&& pieces <= HTTP_FETCH_MAX_PIECES_PER_READ
                &&& sure ==> pieces_suffice(
                    self.end() as int,
                    end as int,
                    HTTP_FETCH_MAX_PIECES_PER_READ + 1 - pieces,
                    resource,
                )
            },
            (FetchPlan::Stream, None) => self.cache_start == range.start,
            _ => false,
        }
    }

    /// Whether a request asks for as much as its plan needs.
    pub open spec fn ample(
        self,
        plan: FetchPlan,
        piece: ByteRange,
        range: ByteRange,
        resource: Seq<u8>,
    ) -> bool {
        &&& piece.length is Some
        &&& match (plan, range.length) {
            (FetchPlan::Anchor, Some(length)) => {
                &&& piece.start == range.start
                &&& piece.start + piece.length->0 >= resource.len() || piece.length->0
                    >= HTTP_REQUEST_MAX_BYTES || piece.length->0 >= length
            },
            (FetchPlan::Fill { end, .. }, _) => {
                &&& piece.start == self.end()
                &&& piece.start + piece.length->0 >= resource.len() || piece.length->0
                    >= HTTP_REQUEST_MAX_BYTES || piece.start + piece.length->0 >= end
            },
            _ => {
                &&& piece.start == self.end()
                &&& self.cache.len() < HTTP_STREAM_TO_EOF_BYTE_LIMIT
                &&& piece.length->0 == http_source::least(
                    HTTP_REQUEST_MAX_BYTES,
                    self.stream_room(),
                )
            },
        }
    }

    /// Whether a read of `range` that stands at this step will get enough if it succeeds,
    /// and is `sure` to succeed.
    pub open spec fn well_served(
        self,
        step: ReadStepView,
        range: ByteRange,
        sure: bool,
        resource: Seq<u8>,
    ) -> bool {
        match step {
            ReadStepView::Poll(read) => {
                &&& read.range == range
                &&& match read.stage {
                    StageView::Refill(Some(bytes)) => fetch::in_full(range, bytes, resource),
                    StageView::Refill(None) => self.satisfies(range, resource),
                    _ => true,
                }
            },
            ReadStepView::Join(read) => read.range == range,
            ReadStepView::Learn(read) => {
                &&& read.range == range
                &&& read.stage matches StageView::Measure(plan) && !(plan is Stream)
                    && self.promising(plan, range, sure, resource)
            },
            ReadStepView::Fetch(read, piece) => {
                &&& read.range == range
                &&& read.stage matches StageView::Fetch(plan) && self.promising(
                    plan,
                    range,
                    sure,
                    resource,
                ) && self.ample(plan, piece, range, resource)
            },
            ReadStepView::Done(Ok(bytes), _) => self.enough(range, bytes, resource),
            ReadStepView::Done(Err(_), _) => !sure,
        }
    }
}

impl SourceView {
    /// Whether a read of `range` may be served by continuing the cache: it begins in the cache or
    /// not far after it, or a prefetch may yet bring it there.
    pub open spec fn may_continue(self, range: ByteRange) -> bool {
        &&& self.cache_start <= range.start
        &&& self.prefetch is Some || (self.cache.len() > 0 && range.start <= range::saturating_sum(
            self.end(),
            HTTP_REQUEST_MAX_BYTES as int,
        ))
    }

    /// Whether a read of `range` is sure to be put together from the allowed number of pieces.
    pub open spec fn surely_reads(self, range: ByteRange, resource: Seq<u8>) -> bool {
        match range.length {
            Some(length) => {
                let end = range::saturating_sum(range.start, length as int);
                self.may_continue(range) && self.end() < end ==> pieces_suffice(
                    self.end() as int,
                    end as int,
                    HTTP_FETCH_MAX_PIECES_PER_READ as int,
                    resource,
                )
            },
            None => true,
        }
    }

    /// Whether a read that stands at this step has yet to decide whether to fetch.
    pub open spec fn undecided(self, step: ReadStepView) -> bool {
        match step {
            ReadStepView::Poll(read) => read.stage is Settle,
            ReadStepView::Join(_) => true,
            _ => false,
        }
    }
}

/// A read that is sure to succeed stays so when the prefetch lands.
proof fn lemma_still_sure(
    source: SourceView,
    outcome: Result<ResponseView, SourceErrorView>,
    range: ByteRange,
    resource: Seq<u8>,
)
    requires
        resource.len() <= u64::MAX,
        source.agrees_with(resource),
        source.prefetch matches Some(pending) ==> fetch::truthful(
            outcome,
            pending.start,
            resource,
        ),
        source.surely_reads(range, resource),
    ensures
        source.landed(outcome).surely_reads(range, resource),
{
    whole_reads::lemma_landed(source, outcome, resource);
    whole_reads::lemma_end(source, resource);
    whole_reads::lemma_end(source.landed(outcome), resource);
}

/// The bytes that some pieces of the longest size hold, as a multiple of a literal.
proof fn lemma_pieces_hold(pieces: int)
    ensures
        pieces * HTTP_REQUEST_MAX_BYTES == pieces * 0x40_0000,
{
    assert(pieces * HTTP_REQUEST_MAX_BYTES == pieces * 0x40_0000) by (nonlinear_arith)
        requires
            HTTP_REQUEST_MAX_BYTES == 0x40_0000,
    ;
}

/// What the cache holds is served in full.
proof fn lemma_served_in_full(source: SourceView, range: ByteRange, resource: Seq<u8>)
    requires
        resource.len() <= u64::MAX,
        source.agrees_with(resource),
        source.satisfies(range, resource),
    ensures
        source.served(range) is Ok,
        source.enough(range, source.served(range)->Ok_0, resource),
{
}

proof fn lemma_finish(
    source: SourceView,
    range: ByteRange,
    hit: Option<Seq<u8>>,
    sure: bool,
    resource: Seq<u8>,
)
    requires
        resource.len() <= u64::MAX,
        source.agrees_with(resource),
        match hit {
            Some(bytes) => fetch::in_full(range, bytes, resource),
            None => source.satisfies(range, resource),
        },
    ensures
        ({
            let next = source.finish(range, hit);
            next.0.well_served(next.1, range, sure, resource)
        }),
        ({
            let next = source.refill(range, hit);
            next.0.well_served(next.1, range, sure, resource)
        }),
{
    if hit is None {
        lemma_served_in_full(source, range, resource);
    }
}

proof fn lemma_request(
    source: SourceView,
    range: ByteRange,
    plan: FetchPlan,
    sure: bool,
    resource: Seq<u8>,
)
    requires
        resource.len() <= u64::MAX,
        source.agrees_with(resource),
        source.promising(plan, range, sure, resource),
    ensures
        ({
            let next = source.request(range, plan);
            next.0.well_served(next.1, range, sure, resource)
        }),
{
    match plan {
        FetchPlan::Anchor => {
            let length = range.length->0;
            if source.request_length(range.start, length) == 0 {
                let cleared = SourceView {
                    cache_start: range.start,
                    cache: Seq::empty(),
                    ..source
                };
                lemma_finish(cleared, range, None, sure, resource);
            }
        },
        FetchPlan::Fill { end, pieces } => {
            if source.request_length(source.end(), http_source::excess(end, source.end())) == 0 {
                lemma_finish(source, range, None, sure, resource);
            }
        },
        FetchPlan::Stream => {},
    }
}

proof fn lemma_filled(
    source: SourceView,
    range: ByteRange,
    end: u64,
    pieces: u32,
    sure: bool,
    resource: Seq<u8>,
)
    requires
        resource.len() <= u64::MAX,
        source.agrees_with(resource),
        source.cache_start <= range.start,
        pieces <= HTTP_FETCH_MAX_PIECES_PER_READ,
        range.length matches Some(length) && end == range::saturating_sum(
            range.start,
            length as int,
        ),
        sure && source.end() < end ==> pieces_suffice(
            source.end() as int,
            end as int,
            HTTP_FETCH_MAX_PIECES_PER_READ - pieces,
            resource,
        ),
    ensures
        ({
            let next = source.filled(range, end, pieces);
            next.0.well_served(next.1, range, sure, resource)
        }),
{
    lemma_pieces_hold(HTTP_FETCH_MAX_PIECES_PER_READ - pieces);
    if source.end() >= end {
        lemma_finish(source, range, None, sure, resource);
    } else if pieces < HTTP_FETCH_MAX_PIECES_PER_READ {
        let plan = FetchPlan::Fill { end, pieces: (pieces + 1) as u32 };
        lemma_request(source, range, plan, sure, resource);
    }
}

proof fn lemma_streamed(source: SourceView, range: ByteRange, sure: bool, resource: Seq<u8>)
    requires
        resource.len() <= u64::MAX,
        source.agrees_with(resource),
        range.length is None,
        source.cache_start == range.start,
    ensures
        ({
            let next = source.streamed(range);
            next.0.well_served(next.1, range, sure, resource)
        }),
{
    if source.content_length matches Some(total) && source.end() >= total {
        lemma_finish(source, range, None, sure, resource);
    } else {
        lemma_request(source, range, FetchPlan::Stream, sure, resource);
    }
}

/// A cached slice is all that was asked for.
proof fn lemma_slice_is_enough(source: SourceView, range: ByteRange, resource: Seq<u8>)
    requires
        resource.len() <= u64::MAX,
        source.agrees_with(resource),
        source.slice(range) is Some,
    ensures
        fetch::in_full(range, source.slice(range)->0, resource),
{
}

proof fn lemma_looked_up(source: SourceView, range: ByteRange, sure: bool, resource: Seq<u8>)
    requires
        resource.len() <= u64::MAX,
        source.agrees_with(resource),
        sure ==> source.surely_reads(range, resource),
    ensures
        ({
            let next = source.looked_up(range);
            &&& next.0.well_served(next.1, range, sure, resource)
            &&& !next.0.undecided(next.1)
        }),
{
    match source.slice(range) {
        Some(bytes) => {
            lemma_slice_is_enough(source, range, resource);
            lemma_finish(source, range, Some(bytes), sure, resource);
        },
        None => match range.length {
            None => {
                let cleared = SourceView {
                    prefetch: None,
                    cache_start: range.start,
                    cache: Seq::empty(),
                    ..source
                };
                lemma_streamed(cleared, range, sure, resource);
            },
            Some(length) => {
                let alone = SourceView { prefetch: None, ..source };
                lemma_request(alone, range, FetchPlan::Anchor, sure, resource);
                if source.may_continue(range) && source.missing(range) != source.reanchored(range) {
                    let end = range::saturating_sum(range.start, length as int);
                    lemma_filled(source, range, end, 0, sure, resource);
                }
            },
        },
    }
}

/// Trimming moves the end of the cache nowhere, and makes no read less sure.
proof fn lemma_trimmed_end(source: SourceView, range: ByteRange, resource: Seq<u8>)
    requires
        resource.len() <= u64::MAX,
        source.agrees_with(resource),
    ensures
        source.trimmed(range).end() == source.end(),
        source.surely_reads(range, resource) ==> source.trimmed(range).surely_reads(
            range,
            resource,
        ),
{
}

proof fn lemma_settled(source: SourceView, range: ByteRange, sure: bool, resource: Seq<u8>)
    requires
        resource.len() <= u64::MAX,
        source.agrees_with(resource),
        sure ==> source.surely_reads(range, resource),
    ensures
        ({
            let next = source.settled(range);
            next.0.well_served(next.1, range, sure, resource)
        }),
        ({
            let next = source.settled(range);
            sure && next.0.undecided(next.1) ==> next.0.surely_reads(range, resource)
        }),
{
    let trimmed = source.trimmed(range);
    whole_reads::lemma_trimmed(source, range, resource);
    lemma_trimmed_end(source, range, resource);
    match trimmed.slice(range) {
        Some(bytes) => {
            lemma_slice_is_enough(trimmed, range, resource);
            lemma_finish(trimmed, range, Some(bytes), sure, resource);
        },
        None => {
            lemma_looked_up(trimmed, range, sure, resource);
            lemma_looked_up(SourceView { prefetch: None, ..trimmed }, range, sure, resource);
        },
    }
}

/// A fetch that was answered truthfully and in full.
#[verifier::rlimit(30)]
proof fn lemma_fetched(
    source: SourceView,
    read: PendingView,
    piece: ByteRange,
    response: ResponseView,
    range: ByteRange,
    sure: bool,
    resource: Seq<u8>,
)
    requires
        resource.len() <= u64::MAX,
        source.on_course(ReadStepView::Fetch(read, piece), range, resource),
        fetch::truthful(Ok(response), piece.start, resource),
        source.generous_event(
            ReadStepView::Fetch(read, piece),
            ReadEvent::Fetched(Ok(response)),
            resource,
        ),
        source.well_served(ReadStepView::Fetch(read, piece), range, sure, resource),
    ensures
        ({
            let next = source.fetched(read, Ok(response));
            &&& next.0.well_served(next.1, range, sure, resource)
            &&& !next.0.undecided(next.1)
        }),
{
    whole_reads::lemma_end(source, resource);
    let next = source.recorded(response.total);
    let longer = SourceView { cache: next.cache + response.bytes, ..next };
    match read.stage {
        StageView::Fetch(FetchPlan::Anchor) => {
            let anchored = SourceView {
                cache_start: range.start,
                cache: response.bytes,
                ..next
            };
            lemma_finish(anchored, range, None, sure, resource);
        },
        StageView::Fetch(FetchPlan::Fill { end, pieces }) => {
            fetch::lemma_bytes_continue(
                resource,
                source.cache_start as int,
                source.cache,
                response.bytes,
            );
            whole_reads::lemma_end(longer, resource);
            lemma_pieces_hold(HTTP_FETCH_MAX_PIECES_PER_READ - pieces);
            lemma_pieces_hold(HTTP_FETCH_MAX_PIECES_PER_READ + 1 - pieces);
            lemma_pieces_hold(HTTP_FETCH_MAX_PIECES_PER_READ - pieces - 1);
            if response.bytes.len() == 0 {
                lemma_finish(next, range, None, sure, resource);
            } else {
                lemma_filled(longer, range, end, pieces, sure, resource);
            }
        },
        StageView::Fetch(FetchPlan::Stream) => {
            fetch::lemma_bytes_continue(
                resource,
                source.cache_start as int,
                source.cache,
                response.bytes,
            );
            whole_reads::lemma_end(longer, resource);
            if response.bytes.len() == 0 || (source.content_length is None
            && response.bytes.len() < HTTP_REQUEST_MAX_BYTES) {
                lemma_finish(longer, range, None, sure, resource);
            } else {
                lemma_streamed(longer, range, sure, resource);
            }
        },
        _ => {},
    }
}

/// A prefetch that was polled, truthfully.
#[verifier::rlimit(30)]
proof fn lemma_polled(
    source: SourceView,
    read: PendingView,
    polled: Option<Result<ResponseView, SourceErrorView>>,
    range: ByteRange,
    sure: bool,
    resource: Seq<u8>,
)
    requires
        resource.len() <= u64::MAX,
        source.on_course(ReadStepView::Poll(read), range, resource),
        source.honest_event(ReadStepView::Poll(read), ReadEvent::Polled(polled), resource),
        source.well_served(ReadStepView::Poll(read), range, sure, resource),
        sure && read.stage is Settle ==> source.surely_reads(range, resource),
    ensures
        ({
            let next = source.polled(read, polled);
            &&& next.0.well_served(next.1, range, sure, resource)
            &&& sure && next.0.undecided(next.1) ==> next.0.surely_reads(range, resource)
        }),
{
    let next = match polled {
        Some(outcome) => source.landed(outcome),
        None => source,
    };
    if let Some(outcome) = polled {
        whole_reads::lemma_landed(source, outcome, resource);
    }
    whole_reads::lemma_end(source, resource);
    whole_reads::lemma_end(next, resource);
    assert(next.end() >= source.end());
    match read.stage {
        StageView::Refill(hit) => {
            lemma_finish(next, range, hit, sure, resource);
        },
        _ => {
            if let Some(outcome) = polled {
                if sure {
                    lemma_still_sure(source, outcome, range, resource);
                }
            }
            lemma_settled(next, range, sure, resource);
        },
    }
}

/// A prefetch that was waited for and told the truth.
proof fn lemma_joined(
    source: SourceView,
    read: PendingView,
    outcome: Result<ResponseView, SourceErrorView>,
    range: ByteRange,
    sure: bool,
    resource: Seq<u8>,
)
    requires
        resource.len() <= u64::MAX,
        source.on_course(ReadStepView::Join(read), range, resource),
        source.honest_event(ReadStepView::Join(read), ReadEvent::Joined(outcome), resource),
        sure ==> source.surely_reads(range, resource),
    ensures
        ({
            let next = source.joined(read, outcome);
            &&& next.0.well_served(next.1, range, sure, resource)
            &&& !next.0.undecided(next.1)
        }),
{
    let next = source.landed(outcome);
    whole_reads::lemma_landed(source, outcome, resource);
    whole_reads::lemma_end(source, resource);
    whole_reads::lemma_end(next, resource);
    if sure {
        lemma_still_sure(source, outcome, range, resource);
    }
    lemma_looked_up(next, range, sure, resource);
}

/// A length that was learned and is right.
proof fn lemma_learned(
    source: SourceView,
    read: PendingView,
    outcome: Result<Option<u64>, SourceErrorView>,
    range: ByteRange,
    sure: bool,
    resource: Seq<u8>,
)
    requires
        resource.len() <= u64::MAX,
        source.on_course(ReadStepView::Learn(read), range, resource),
        source.honest_event(ReadStepView::Learn(read), ReadEvent::Learned(outcome), resource),
        source.well_served(ReadStepView::Learn(read), range, sure, resource),
    ensures
        ({
            let next = source.with_length(outcome).measured(read);
            &&& next.0.well_served(next.1, range, sure, resource)
            &&& !next.0.undecided(next.1)
        }),
{
    let next = source.with_length(outcome);
    match read.stage {
        StageView::Measure(plan) => {
            lemma_request(next, range, plan, sure, resource);
        },
        _ => {},
    }
}

/// An event that tells the truth and answers in full keeps a read on the way to a full answer.
proof fn lemma_advanced(
    source: SourceView,
    step: ReadStepView,
    event: ReadEvent,
    range: ByteRange,
    sure: bool,
    resource: Seq<u8>,
)
    requires
        resource.len() <= u64::MAX,
        source.on_course(step, range, resource),
        source.honest_event(step, event, resource),
        source.generous_event(step, event, resource),
        sure ==> !fails(step, event),
        source.well_served(step, range, sure, resource),
        sure && source.undecided(step) ==> source.surely_reads(range, resource),
    ensures
        ({
            let next = source.advanced(step, event);
            &&& next.0.well_served(next.1, range, sure, resource)
            &&& sure && next.0.undecided(next.1) ==> next.0.surely_reads(range, resource)
        }),
{
    match (step, event) {
        (ReadStepView::Poll(read), ReadEvent::Polled(polled)) => {
            lemma_polled(source, read, polled, range, sure, resource);
        },
        (ReadStepView::Join(read), ReadEvent::Joined(outcome)) => {
            lemma_joined(source, read, outcome, range, sure, resource);
        },
        (ReadStepView::Learn(read), ReadEvent::Learned(outcome)) => {
            lemma_learned(source, read, outcome, range, sure, resource);
        },
        (ReadStepView::Fetch(read, piece), ReadEvent::Fetched(Ok(response))) => {
            lemma_fetched(source, read, piece, response, range, sure, resource);
        },
        _ => {},
    }
}

proof fn lemma_run(
    source: SourceView,
    step: ReadStepView,
    events: Seq<ReadEvent>,
    range: ByteRange,
    sure: bool,
    resource: Seq<u8>,
)
    requires
        resource.len() <= u64::MAX,
        source.on_course(step, range, resource),
        source.honest(step, events, resource),
        source.generous(step, events, resource),
        sure ==> source.unfailing(step, events),
        source.well_served(step, range, sure, resource),
        sure && source.undecided(step) ==> source.surely_reads(range, resource),
    ensures
        ({
            let last = source.run(step, events);
            last.0.well_served(last.1, range, sure, resource)
        }),
    decreases events.len(),
{
    if events.len() > 0 {
        let next = source.advanced(step, events[0]);
        whole_reads::lemma_advanced(source, step, events[0], range, resource);
        lemma_advanced(source, step, events[0], range, sure, resource);
        lemma_run(next.0, next.1, events.skip(1), range, sure, resource);
    }
}

/// If what a read is told is true of the resource and every fetch that does not fail is answered in
/// full, then a read that succeeds is never short without reason. It gets all that it asked for, as far as the resource has
/// it; only a bounded read that starts a new window may get less, but not less than one request
/// may carry, and an open-ended one may get less, but not less than its limit. Prefetches may fail, be
/// late or be cut short meanwhile.
pub proof fn law_full_answers_make_full_reads(
    source: SourceView,
    range: ByteRange,
    events: Seq<ReadEvent>,
    resource: Seq<u8>,
)
    requires
        resource.len() <= u64::MAX,
        source.agrees_with(resource),
        ({
            let begun = source.begun(range);
            &&& begun.0.honest(begun.1, events, resource)
            &&& begun.0.generous(begun.1, events, resource)
        }),
    ensures
        ({
            let last = source.read(range, events);
            last.1 matches ReadStepView::Done(Ok(bytes), _) ==> last.0.enough(
                range,
                bytes,
                resource,
            )
        }),
{
    let begun = source.begun(range);
    whole_reads::lemma_settled(source, range, resource);
    lemma_settled(source, range, false, resource);
    lemma_run(begun.0, begun.1, events, range, false, resource);
}

/// If what a read is told is true of the resource and every fetch is answered in full, the read
/// fails only if it runs further past the cache than the allowed number of pieces can bring it.
/// Failing prefetches fail no read.
pub proof fn law_answered_reads_succeed(
    source: SourceView,
    range: ByteRange,
    events: Seq<ReadEvent>,
    resource: Seq<u8>,
)
    requires
        resource.len() <= u64::MAX,
        source.agrees_with(resource),
        source.surely_reads(range, resource),
        ({
            let begun = source.begun(range);
            &&& begun.0.honest(begun.1, events, resource)
            &&& begun.0.generous(begun.1, events, resource)
            &&& begun.0.unfailing(begun.1, events)
        }),
    ensures
        source.read(range, events).1 matches ReadStepView::Done(result, _) ==> result is Ok,
{
    let begun = source.begun(range);
    whole_reads::lemma_settled(source, range, resource);
    lemma_settled(source, range, true, resource);
    lemma_run(begun.0, begun.1, events, range, true, resource);
}

} // verus!
