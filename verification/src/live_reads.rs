//! Why bytes that exist never look like the end of the resource.
//!
//! An empty read means that the resource has ended. So a read of bytes that exist must bring some
//! of them or fail, however short the pieces are that the origin answers with.
use vstd::prelude::*;

use crate::error::SourceErrorView;
use crate::fetch;
use crate::fetch::ResponseView;
use crate::http_read::{FetchPlan, PendingView, ReadStepView, StageView};
use crate::http_source::SourceView;
use crate::range;
use crate::range::ByteRange;
use crate::whole_reads;
use crate::whole_reads::ReadEvent;

verus! {

/// Whether a read asks for bytes that exist.
pub open spec fn asks_for_bytes(range: ByteRange, resource: Seq<u8>) -> bool {
    range.start < resource.len() && range.length != Some(0u64)
}

impl SourceView {
    /// Whether an event that this step awaits is a sign of life: a fetch that fails, or brings at
    /// least one byte if there is one.
    pub open spec fn live_event(
        self,
        step: ReadStepView,
        event: ReadEvent,
        resource: Seq<u8>,
    ) -> bool {
        match (step, event) {
            (ReadStepView::Fetch(_, piece), ReadEvent::Fetched(Ok(response))) => {
                response.bytes.len() > 0 || piece.start >= resource.len()
            },
            _ => true,
        }
    }

    /// Whether no fetch is answered with nothing where there is something.
    pub open spec fn live(
        self,
        step: ReadStepView,
        events: Seq<ReadEvent>,
        resource: Seq<u8>,
    ) -> bool
        decreases events.len(),
    {
        events.len() > 0 ==> {
            let next = self.advanced(step, events[0]);
            &&& self.live_event(step, events[0], resource)
            &&& next.0.live(next.1, events.skip(1), resource)
        }
    }

    /// Whether the cache holds the byte at `at`.
    pub open spec fn holds(self, at: u64) -> bool {
        self.cache_start <= at < self.end()
    }

    /// Whether a plan is on the way to the first byte of a read of `range`.
    pub open spec fn approaches(self, plan: FetchPlan, range: ByteRange) -> bool {
        match (plan, range.length) {
            (FetchPlan::Anchor, Some(_)) => true,
            (FetchPlan::Fill { end, .. }, Some(_)) => self.cache_start <= range.start && range.start
                < end,
            (FetchPlan::Stream, None) => self.cache_start == range.start,
            _ => false,
        }
    }

    /// Whether a read of `range` that stands at this step will bring a byte or fail.
    pub open spec fn will_bring(self, step: ReadStepView, range: ByteRange) -> bool {
        match step {
            ReadStepView::Poll(read) => {
                &&& read.range == range
                &&& match read.stage {
                    StageView::Refill(Some(bytes)) => bytes.len() > 0,
                    StageView::Refill(None) => self.holds(range.start),
                    _ => true,
                }
            },
            ReadStepView::Join(read) => read.range == range,
            ReadStepView::Learn(read) => {
                &&& read.range == range
                &&& read.stage matches StageView::Measure(plan) && self.approaches(plan, range)
            },
            ReadStepView::Fetch(read, piece) => {
                &&& read.range == range
                &&& read.stage matches StageView::Fetch(plan) && self.approaches(plan, range)
                    && piece.start == if plan is Anchor {
                    range.start
                } else {
                    self.end()
                }
            },
            ReadStepView::Done(Ok(bytes), _) => bytes.len() > 0,
            ReadStepView::Done(Err(_), _) => true,
        }
    }
}

proof fn lemma_finish(
    source: SourceView,
    range: ByteRange,
    hit: Option<Seq<u8>>,
    resource: Seq<u8>,
)
    requires
        resource.len() <= u64::MAX,
        source.agrees_with(resource),
        asks_for_bytes(range, resource),
        match hit {
            Some(bytes) => bytes.len() > 0,
            None => source.holds(range.start),
        },
    ensures
        ({
            let next = source.finish(range, hit);
            next.0.will_bring(next.1, range)
        }),
        ({
            let next = source.refill(range, hit);
            next.0.will_bring(next.1, range)
        }),
{
    whole_reads::lemma_end(source, resource);
}

proof fn lemma_request(source: SourceView, range: ByteRange, plan: FetchPlan, resource: Seq<u8>)
    requires
        resource.len() <= u64::MAX,
        source.agrees_with(resource),
        asks_for_bytes(range, resource),
        source.approaches(plan, range),
    ensures
        ({
            let next = source.request(range, plan);
            next.0.will_bring(next.1, range)
        }),
{
    if plan is Fill && source.holds(range.start) {
        lemma_finish(source, range, None, resource);
    }
}

proof fn lemma_filled(
    source: SourceView,
    range: ByteRange,
    end: u64,
    pieces: u32,
    resource: Seq<u8>,
)
    requires
        resource.len() <= u64::MAX,
        source.agrees_with(resource),
        asks_for_bytes(range, resource),
        range.length is Some,
        source.cache_start <= range.start < end,
    ensures
        ({
            let next = source.filled(range, end, pieces);
            next.0.will_bring(next.1, range)
        }),
{
    let plan = FetchPlan::Fill { end, pieces: (pieces + 1) as u32 };
    lemma_request(source, range, plan, resource);
    if source.end() >= end {
        lemma_finish(source, range, None, resource);
    }
}

proof fn lemma_looked_up(source: SourceView, range: ByteRange, resource: Seq<u8>)
    requires
        resource.len() <= u64::MAX,
        source.agrees_with(resource),
        asks_for_bytes(range, resource),
    ensures
        ({
            let next = source.looked_up(range);
            next.0.will_bring(next.1, range)
        }),
{
    match source.slice(range) {
        Some(bytes) => {
            whole_reads::lemma_end(source, resource);
            lemma_finish(source, range, Some(bytes), resource);
        },
        None => match range.length {
            None => {},
            Some(length) => {
                let alone = SourceView { prefetch: None, ..source };
                lemma_request(alone, range, FetchPlan::Anchor, resource);
                if source.cache_start <= range.start {
                    let end = range::saturating_sum(range.start, length as int);
                    lemma_filled(source, range, end, 0, resource);
                }
            },
        },
    }
}

proof fn lemma_settled(source: SourceView, range: ByteRange, resource: Seq<u8>)
    requires
        resource.len() <= u64::MAX,
        source.agrees_with(resource),
        asks_for_bytes(range, resource),
    ensures
        ({
            let next = source.settled(range);
            next.0.will_bring(next.1, range)
        }),
{
    let trimmed = source.trimmed(range);
    whole_reads::lemma_trimmed(source, range, resource);
    whole_reads::lemma_end(trimmed, resource);
    match trimmed.slice(range) {
        Some(bytes) => {
            lemma_finish(trimmed, range, Some(bytes), resource);
        },
        None => {
            lemma_looked_up(trimmed, range, resource);
            lemma_looked_up(SourceView { prefetch: None, ..trimmed }, range, resource);
        },
    }
}

/// A truthful and live answer to a fetch.
proof fn lemma_fetched(
    source: SourceView,
    read: PendingView,
    piece: ByteRange,
    response: ResponseView,
    range: ByteRange,
    resource: Seq<u8>,
)
    requires
        resource.len() <= u64::MAX,
        source.agrees_with(resource),
        asks_for_bytes(range, resource),
        source.will_bring(ReadStepView::Fetch(read, piece), range),
        fetch::truthful(Ok(response), piece.start, resource),
        response.bytes.len() > 0 || piece.start >= resource.len(),
    ensures
        ({
            let next = source.fetched(read, Ok(response));
            next.0.will_bring(next.1, range)
        }),
{
    let next = source.recorded(response.total);
    let longer = SourceView { cache: next.cache + response.bytes, ..next };
    whole_reads::lemma_end(source, resource);
    match read.stage {
        StageView::Fetch(FetchPlan::Anchor) => {
            let anchored = SourceView {
                cache_start: range.start,
                cache: response.bytes,
                ..next
            };
            lemma_finish(anchored, range, None, resource);
        },
        StageView::Fetch(FetchPlan::Fill { end, pieces }) => {
            fetch::lemma_bytes_continue(
                resource,
                source.cache_start as int,
                source.cache,
                response.bytes,
            );
            if response.bytes.len() == 0 {
                lemma_finish(next, range, None, resource);
            } else {
                lemma_filled(longer, range, end, pieces, resource);
            }
        },
        StageView::Fetch(FetchPlan::Stream) => {
            fetch::lemma_bytes_continue(
                resource,
                source.cache_start as int,
                source.cache,
                response.bytes,
            );
            whole_reads::lemma_end(longer, resource);
            lemma_finish(longer, range, None, resource);
        },
        _ => {},
    }
}

/// A truthful and live event keeps a read on the way to its first byte.
proof fn lemma_advanced(
    source: SourceView,
    step: ReadStepView,
    event: ReadEvent,
    range: ByteRange,
    resource: Seq<u8>,
)
    requires
        resource.len() <= u64::MAX,
        source.on_course(step, range, resource),
        source.honest_event(step, event, resource),
        source.live_event(step, event, resource),
        asks_for_bytes(range, resource),
        source.will_bring(step, range),
    ensures
        ({
            let next = source.advanced(step, event);
            next.0.will_bring(next.1, range)
        }),
{
    match (step, event) {
        (ReadStepView::Poll(read), ReadEvent::Polled(polled)) => {
            lemma_polled(source, read, polled, range, resource);
        },
        (ReadStepView::Join(read), ReadEvent::Joined(outcome)) => {
            whole_reads::lemma_landed(source, outcome, resource);
            lemma_looked_up(source.landed(outcome), range, resource);
        },
        (ReadStepView::Learn(read), ReadEvent::Learned(outcome)) => {
            let next = source.with_length(outcome);
            match read.stage {
                StageView::Measure(plan) => {
                    lemma_request(next, range, plan, resource);
                },
                _ => {},
            }
        },
        (ReadStepView::Fetch(read, piece), ReadEvent::Fetched(Ok(response))) => {
            lemma_fetched(source, read, piece, response, range, resource);
        },
        _ => {},
    }
}

/// A prefetch that was polled, truthfully.
proof fn lemma_polled(
    source: SourceView,
    read: PendingView,
    polled: Option<Result<ResponseView, SourceErrorView>>,
    range: ByteRange,
    resource: Seq<u8>,
)
    requires
        resource.len() <= u64::MAX,
        source.agrees_with(resource),
        source.honest_event(ReadStepView::Poll(read), ReadEvent::Polled(polled), resource),
        asks_for_bytes(range, resource),
        source.will_bring(ReadStepView::Poll(read), range),
    ensures
        ({
            let next = source.polled(read, polled);
            next.0.will_bring(next.1, range)
        }),
{
    let next = match polled {
        Some(outcome) => source.landed(outcome),
        None => source,
    };
    if let Some(outcome) = polled {
        whole_reads::lemma_landed(source, outcome, resource);
    }
    whole_reads::lemma_end(source, resource);
    whole_reads::lemma_end(next, resource);
    match read.stage {
        StageView::Refill(hit) => {
            lemma_finish(next, range, hit, resource);
        },
        _ => {
            lemma_settled(next, range, resource);
        },
    }
}

proof fn lemma_run(
    source: SourceView,
    step: ReadStepView,
    events: Seq<ReadEvent>,
    range: ByteRange,
    resource: Seq<u8>,
)
    requires
        resource.len() <= u64::MAX,
        source.on_course(step, range, resource),
        source.honest(step, events, resource),
        source.live(step, events, resource),
        asks_for_bytes(range, resource),
        source.will_bring(step, range),
    ensures
        ({
            let last = source.run(step, events);
            last.0.will_bring(last.1, range)
        }),
    decreases events.len(),
{
    if events.len() > 0 {
        let next = source.advanced(step, events[0]);
        whole_reads::lemma_advanced(source, step, events[0], range, resource);
        lemma_advanced(source, step, events[0], range, resource);
        lemma_run(next.0, next.1, events.skip(1), range, resource);
    }
}

/// A read of bytes that exist never ends empty, even if the length of the resource is not known: it
/// brings at least one of them, or it fails. Only an origin that answers a request for bytes that
/// exist with none of them, and never tells the length, can make it look otherwise.
pub proof fn law_existing_bytes_never_look_like_the_end(
    source: SourceView,
    range: ByteRange,
    events: Seq<ReadEvent>,
    resource: Seq<u8>,
)
    requires
        resource.len() <= u64::MAX,
        source.agrees_with(resource),
        asks_for_bytes(range, resource),
        ({
            let begun = source.begun(range);
            &&& begun.0.honest(begun.1, events, resource)
            &&& begun.0.live(begun.1, events, resource)
        }),
    ensures
        ({
            let last = source.read(range, events);
            last.1 matches ReadStepView::Done(Ok(bytes), _) ==> bytes.len() > 0
        }),
{
    let begun = source.begun(range);
    whole_reads::lemma_settled(source, range, resource);
    lemma_settled(source, range, resource);
    lemma_run(begun.0, begun.1, events, range, resource);
}

// ---------------------------------------------------------------------------
// Where the length is known
// ---------------------------------------------------------------------------
impl SourceView {
    /// Whether a read of `range` that stands at this step, of a resource that is known to be
    /// `total` bytes long, will bring a byte or fail.
    pub open spec fn must_bring(self, step: ReadStepView, range: ByteRange, total: u64) -> bool {
        &&& self.content_length == Some(total)
        &&& match step {
            ReadStepView::Poll(read) => {
                &&& read.range == range
                &&& read.stage matches StageView::Refill(Some(bytes)) ==> bytes.len() > 0
            },
            ReadStepView::Join(read) => read.range == range,
            ReadStepView::Learn(_) => false,
            ReadStepView::Fetch(read, _) => read.range == range,
            ReadStepView::Done(Ok(bytes), _) => bytes.len() > 0,
            ReadStepView::Done(Err(_), _) => true,
        }
    }
}

/// Whether a read begins before the known end and asks for at least one byte.
pub open spec fn asks_before(range: ByteRange, total: u64) -> bool {
    range.start < total && range.length != Some(0u64)
}

proof fn lemma_looked_up_must_bring(source: SourceView, range: ByteRange, total: u64)
    requires
        source.content_length == Some(total),
        asks_before(range, total),
    ensures
        ({
            let next = source.looked_up(range);
            next.0.must_bring(next.1, range, total)
        }),
{
}

proof fn lemma_settled_must_bring(source: SourceView, range: ByteRange, total: u64)
    requires
        source.content_length == Some(total),
        asks_before(range, total),
    ensures
        ({
            let next = source.settled(range);
            next.0.must_bring(next.1, range, total)
        }),
{
    let trimmed = source.trimmed(range);
    lemma_looked_up_must_bring(trimmed, range, total);
    lemma_looked_up_must_bring(SourceView { prefetch: None, ..trimmed }, range, total);
}

proof fn lemma_filled_must_bring(
    source: SourceView,
    range: ByteRange,
    end: u64,
    pieces: u32,
    total: u64,
)
    requires
        source.content_length == Some(total),
        asks_before(range, total),
    ensures
        ({
            let next = source.filled(range, end, pieces);
            next.0.must_bring(next.1, range, total)
        }),
{
}

/// Whatever an event says, a read of bytes that are known to exist goes on to bring one or fails.
proof fn lemma_advanced_must_bring(
    source: SourceView,
    step: ReadStepView,
    event: ReadEvent,
    range: ByteRange,
    total: u64,
)
    requires
        asks_before(range, total),
        source.must_bring(step, range, total),
    ensures
        ({
            let next = source.advanced(step, event);
            next.0.must_bring(next.1, range, total)
        }),
{
    match (step, event) {
        (ReadStepView::Poll(read), ReadEvent::Polled(polled)) => {
            let next = match polled {
                Some(outcome) => source.landed(outcome),
                None => source,
            };
            lemma_settled_must_bring(next, range, total);
        },
        (ReadStepView::Join(read), ReadEvent::Joined(outcome)) => {
            lemma_looked_up_must_bring(source.landed(outcome), range, total);
        },
        (ReadStepView::Fetch(read, piece), ReadEvent::Fetched(outcome)) => {
            lemma_fetched_must_bring(source, read, outcome, range, total);
        },
        _ => {},
    }
}

proof fn lemma_fetched_must_bring(
    source: SourceView,
    read: PendingView,
    outcome: Result<ResponseView, SourceErrorView>,
    range: ByteRange,
    total: u64,
)
    requires
        asks_before(range, total),
        source.content_length == Some(total),
        read.range == range,
    ensures
        ({
            let next = source.fetched(read, outcome);
            next.0.must_bring(next.1, range, total)
        }),
{
    lemma_looked_up_must_bring(source, range, total);
    if let Ok(response) = outcome {
        let next = source.recorded(response.total);
        let longer = SourceView { cache: next.cache + response.bytes, ..next };
        match read.stage {
            StageView::Fetch(FetchPlan::Fill { end, pieces }) => {
                lemma_filled_must_bring(longer, range, end, pieces, total);
            },
            _ => {},
        }
    }
}

proof fn lemma_run_must_bring(
    source: SourceView,
    step: ReadStepView,
    events: Seq<ReadEvent>,
    range: ByteRange,
    total: u64,
)
    requires
        asks_before(range, total),
        source.must_bring(step, range, total),
    ensures
        ({
            let last = source.run(step, events);
            last.0.must_bring(last.1, range, total)
        }),
    decreases events.len(),
{
    if events.len() > 0 {
        let next = source.advanced(step, events[0]);
        lemma_advanced_must_bring(source, step, events[0], range, total);
        lemma_run_must_bring(next.0, next.1, events.skip(1), range, total);
    }
}

/// Where the length of the resource is known, a read that begins before its end brings at least
/// one byte or fails, whatever the origin answers: it is never answered with nothing.
pub proof fn law_known_bytes_are_never_answered_with_nothing(
    source: SourceView,
    range: ByteRange,
    events: Seq<ReadEvent>,
    total: u64,
)
    requires
        source.content_length == Some(total),
        range.start < total,
        range.length != Some(0u64),
    ensures
        source.read(range, events).1 matches ReadStepView::Done(Ok(bytes), _) ==> bytes.len() > 0,
{
    let begun = source.begun(range);
    lemma_settled_must_bring(source, range, total);
    lemma_run_must_bring(begun.0, begun.1, events, range, total);
}

/// Where the length of the resource is known, a read that begins at its end or after it is answered
/// with nothing, and sends no request: it looks at the prefetch, if there is one, and ends.
pub proof fn law_reads_past_the_end_are_empty(
    source: SourceView,
    range: ByteRange,
    polled: Option<Result<ResponseView, SourceErrorView>>,
    resource: Seq<u8>,
)
    requires
        resource.len() <= u64::MAX,
        source.agrees_with(resource),
        source.content_length is Some,
        range.start >= resource.len(),
        range.length != Some(0u64),
        source.prefetch matches Some(pending) ==> (polled matches Some(outcome) ==> fetch::truthful(
            outcome,
            pending.start,
            resource,
        )),
    ensures
        source.prefetch is None ==> source.begun(range).1 == ReadStepView::Done(
            Ok(Seq::empty()),
            None,
        ),
        source.prefetch is Some ==> source.begun(range).1 is Poll,
        source.read(range, seq![ReadEvent::Polled(polled)]).1 == ReadStepView::Done(
            Ok(Seq::empty()),
            None,
        ),
{
    reveal_with_fuel(SourceView::run, 2);
    let events = seq![ReadEvent::Polled(polled)];
    assert(events.skip(1) =~= Seq::empty());
    let settled = match polled {
        Some(outcome) if source.prefetch is Some => source.landed(outcome),
        _ => source,
    };
    if let Some(outcome) = polled {
        whole_reads::lemma_landed(source, outcome, resource);
    }
    let trimmed = settled.trimmed(range);
    whole_reads::lemma_trimmed(settled, range, resource);
    whole_reads::lemma_end(trimmed, resource);
}

} // verus!
