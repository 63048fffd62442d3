//! Where open-ended reads end: at the known end of the resource, and never past their limit.
use vstd::prelude::*;

use crate::error::SourceErrorView;
use crate::fetch;
use crate::full_reads;
use crate::http_read::{FetchPlan, ReadStepView, StageView};
use crate::http_source::{SourceView, HTTP_STREAM_TO_EOF_BYTE_LIMIT};
use crate::range::ByteRange;
use crate::whole_reads;
use crate::whole_reads::ReadEvent;

verus! {

// ---------------------------------------------------------------------------
// The end of the resource
// ---------------------------------------------------------------------------
impl SourceView {
    /// Whether every fetch succeeds with at least one byte, however short of what was asked for.
    pub open spec fn fruitful(self, step: ReadStepView, events: Seq<ReadEvent>) -> bool
        decreases events.len(),
    {
        events.len() > 0 ==> {
            let next = self.advanced(step, events[0]);
            &&& events[0] matches ReadEvent::Fetched(outcome) ==> (outcome matches Ok(response)
                && response.bytes.len() > 0)
            &&& next.0.fruitful(next.1, events.skip(1))
        }
    }

    /// Whether an open-ended read from `start` on that stands at this step will reach the end of
    /// the resource.
    pub open spec fn reaches_the_end(
        self,
        step: ReadStepView,
        range: ByteRange,
        resource: Seq<u8>,
    ) -> bool {
        &&& self.agrees_with(resource)
        &&& self.content_length == Some(resource.len() as u64)
        &&& match step {
            ReadStepView::Poll(read) => read.range == range && read.stage is Settle,
            ReadStepView::Fetch(read, piece) => {
                &&& read.range == range
                &&& read.stage == StageView::Fetch(FetchPlan::Stream)
                &&& self.prefetch is None
                &&& self.cache_start == range.start
                &&& piece.start == self.end()
            },
            ReadStepView::Done(result, _) => {
                &&& self.cache_start == range.start
                &&& self.end() == resource.len()
                &&& result == Ok::<_, SourceErrorView>(resource.skip(range.start as int))
            },
            _ => false,
        }
    }
}

/// Whether a read is open-ended and what it asks for exists and is within its limit.
pub open spec fn asks_for_a_rest(range: ByteRange, resource: Seq<u8>) -> bool {
    &&& range.length is None
    &&& range.start < resource.len() <= range.start + HTTP_STREAM_TO_EOF_BYTE_LIMIT
    &&& resource.len() <= u64::MAX
}

proof fn lemma_streamed_reaches(source: SourceView, range: ByteRange, resource: Seq<u8>)
    requires
        asks_for_a_rest(range, resource),
        source.agrees_with(resource),
        source.content_length == Some(resource.len() as u64),
        source.prefetch is None,
        source.cache_start == range.start,
    ensures
        ({
            let next = source.streamed(range);
            next.0.reaches_the_end(next.1, range, resource)
        }),
{
    whole_reads::lemma_end(source, resource);
    if source.end() >= resource.len() {
        assert(source.cache.skip(0) =~= resource.skip(range.start as int));
    }
}

proof fn lemma_settled_reaches(source: SourceView, range: ByteRange, resource: Seq<u8>)
    requires
        asks_for_a_rest(range, resource),
        source.agrees_with(resource),
        source.content_length == Some(resource.len() as u64),
    ensures
        ({
            let next = source.settled(range);
            next.0.reaches_the_end(next.1, range, resource)
        }),
{
    let cleared = SourceView {
        prefetch: None,
        cache_start: range.start,
        cache: Seq::empty(),
        ..source
    };
    lemma_streamed_reaches(cleared, range, resource);
}

proof fn lemma_run_reaches(
    source: SourceView,
    step: ReadStepView,
    events: Seq<ReadEvent>,
    range: ByteRange,
    resource: Seq<u8>,
)
    requires
        asks_for_a_rest(range, resource),
        source.honest(step, events, resource),
        source.fruitful(step, events),
        source.reaches_the_end(step, range, resource),
    ensures
        ({
            let last = source.run(step, events);
            last.0.reaches_the_end(last.1, range, resource)
        }),
    decreases events.len(),
{
    if events.len() > 0 {
        let next = source.advanced(step, events[0]);
        match (step, events[0]) {
            (ReadStepView::Poll(read), ReadEvent::Polled(polled)) => {
                let landed = match polled {
                    Some(outcome) => source.landed(outcome),
                    None => source,
                };
                if let Some(outcome) = polled {
                    whole_reads::lemma_landed(source, outcome, resource);
                }
                lemma_settled_reaches(landed, range, resource);
            },
            (ReadStepView::Fetch(read, piece), ReadEvent::Fetched(Ok(response))) => {
                let recorded = source.recorded(response.total);
                let longer = SourceView { cache: recorded.cache + response.bytes, ..recorded };
                whole_reads::lemma_end(source, resource);
                fetch::lemma_bytes_continue(
                    resource,
                    source.cache_start as int,
                    source.cache,
                    response.bytes,
                );
                lemma_streamed_reaches(longer, range, resource);
            },
            _ => {},
        }
        lemma_run_reaches(next.0, next.1, events.skip(1), range, resource);
    }
}

/// Where the length of the resource is known beforehand and the rest of it is within the limit, an
/// open-ended read whose fetches each bring at least one byte succeeds with all of the rest. A short
/// answer does not end it.
pub proof fn law_open_ended_reads_reach_a_known_end(
    source: SourceView,
    range: ByteRange,
    events: Seq<ReadEvent>,
    resource: Seq<u8>,
)
    requires
        resource.len() <= u64::MAX,
        source.agrees_with(resource),
        source.content_length is Some,
        range.length is None,
        range.start < resource.len() <= range.start + HTTP_STREAM_TO_EOF_BYTE_LIMIT,
        ({
            let begun = source.begun(range);
            &&& begun.0.honest(begun.1, events, resource)
            &&& begun.0.fruitful(begun.1, events)
        }),
    ensures
        ({
            let last = source.read(range, events);
            last.1 matches ReadStepView::Done(result, _) ==> {
                &&& result == Ok::<_, SourceErrorView>(resource.skip(range.start as int))
                &&& last.0.cache_start == range.start
                &&& last.0.end() == resource.len()
            }
        }),
{
    let begun = source.begun(range);
    lemma_settled_reaches(source, range, resource);
    lemma_run_reaches(begun.0, begun.1, events, range, resource);
}

// ---------------------------------------------------------------------------
// The limit
// ---------------------------------------------------------------------------
impl SourceView {
    /// Whether no fetch brings more than was asked for.
    pub open spec fn restrained(self, step: ReadStepView, events: Seq<ReadEvent>) -> bool
        decreases events.len(),
    {
        events.len() > 0 ==> {
            let next = self.advanced(step, events[0]);
            &&& step matches ReadStepView::Fetch(_, piece) ==> (events[0] matches ReadEvent::Fetched(
                Ok(response),
            ) ==> (piece.length matches Some(length) ==> response.bytes.len() <= length))
            &&& next.0.restrained(next.1, events.skip(1))
        }
    }

    /// Whether an open-ended read that stands at this step keeps within its limit.
    pub open spec fn keeps_the_limit(self, step: ReadStepView, range: ByteRange) -> bool {
        match step {
            ReadStepView::Poll(read) => read.range == range && read.stage is Settle,
            ReadStepView::Fetch(read, piece) => {
                &&& read.range == range
                &&& read.stage == StageView::Fetch(FetchPlan::Stream)
                &&& self.prefetch is None
                &&& self.cache_start == range.start
                &&& piece.length matches Some(length) && self.cache.len() + length
                    <= HTTP_STREAM_TO_EOF_BYTE_LIMIT
            },
            ReadStepView::Done(Ok(bytes), _) => bytes.len() == 0 || {
                &&& self.cache_start == range.start
                &&& self.cache == bytes
                &&& bytes.len() <= HTTP_STREAM_TO_EOF_BYTE_LIMIT
            },
            ReadStepView::Done(Err(_), _) => true,
            _ => false,
        }
    }
}

proof fn lemma_streamed_keeps(source: SourceView, range: ByteRange)
    requires
        range.length is None,
        source.prefetch is None,
        source.cache_start == range.start,
        source.cache.len() <= HTTP_STREAM_TO_EOF_BYTE_LIMIT,
    ensures
        ({
            let next = source.streamed(range);
            next.0.keeps_the_limit(next.1, range)
        }),
        ({
            let next = source.refill(range, None);
            next.0.keeps_the_limit(next.1, range)
        }),
{
    assert(source.cache.skip(0) =~= source.cache);
}

proof fn lemma_settled_keeps(source: SourceView, range: ByteRange)
    requires
        range.length is None,
    ensures
        ({
            let next = source.settled(range);
            next.0.keeps_the_limit(next.1, range)
        }),
{
    let cleared = SourceView {
        prefetch: None,
        cache_start: range.start,
        cache: Seq::empty(),
        ..source
    };
    lemma_streamed_keeps(cleared, range);
}

proof fn lemma_run_keeps(
    source: SourceView,
    step: ReadStepView,
    events: Seq<ReadEvent>,
    range: ByteRange,
)
    requires
        range.length is None,
        source.restrained(step, events),
        source.keeps_the_limit(step, range),
    ensures
        ({
            let last = source.run(step, events);
            last.0.keeps_the_limit(last.1, range)
        }),
    decreases events.len(),
{
    if events.len() > 0 {
        let next = source.advanced(step, events[0]);
        match (step, events[0]) {
            (ReadStepView::Poll(read), ReadEvent::Polled(polled)) => {
                let landed = match polled {
                    Some(outcome) => source.landed(outcome),
                    None => source,
                };
                lemma_settled_keeps(landed, range);
            },
            (ReadStepView::Fetch(read, piece), ReadEvent::Fetched(Ok(response))) => {
                let recorded = source.recorded(response.total);
                let longer = SourceView { cache: recorded.cache + response.bytes, ..recorded };
                lemma_streamed_keeps(longer, range);
            },
            _ => {},
        }
        lemma_run_keeps(next.0, next.1, events.skip(1), range);
    }
}

/// The limit on open-ended reads is a hard stop: as long as no answer is longer than what was asked
/// for, such a read neither returns nor caches more bytes than the limit, however long the origin
/// would go on.
pub proof fn law_open_ended_reads_stop_at_their_limit(
    source: SourceView,
    range: ByteRange,
    events: Seq<ReadEvent>,
)
    requires
        range.length is None,
        ({
            let begun = source.begun(range);
            begun.0.restrained(begun.1, events)
        }),
    ensures
        ({
            let last = source.read(range, events);
            last.1 matches ReadStepView::Done(Ok(bytes), _) ==> bytes.len() == 0 || {
                &&& bytes.len() <= HTTP_STREAM_TO_EOF_BYTE_LIMIT
                &&& last.0.cache == bytes
            }
        }),
{
    let begun = source.begun(range);
    lemma_settled_keeps(source, range);
    lemma_run_keeps(begun.0, begun.1, events, range);
}

/// Of a resource that goes on past the limit, an open-ended read whose fetches are answered with
/// exactly what they were for brings the limit, to the byte.
pub proof fn law_longer_resources_are_read_to_the_limit(
    source: SourceView,
    range: ByteRange,
    events: Seq<ReadEvent>,
    resource: Seq<u8>,
)
    requires
        resource.len() <= u64::MAX,
        source.agrees_with(resource),
        range.length is None,
        range.start + HTTP_STREAM_TO_EOF_BYTE_LIMIT < resource.len(),
        ({
            let begun = source.begun(range);
            &&& begun.0.honest(begun.1, events, resource)
            &&& begun.0.generous(begun.1, events, resource)
            &&& begun.0.unfailing(begun.1, events)
            &&& begun.0.restrained(begun.1, events)
        }),
    ensures
        source.read(range, events).1 matches ReadStepView::Done(result, _) ==> (result matches Ok(
            bytes,
        ) && bytes.len() == HTTP_STREAM_TO_EOF_BYTE_LIMIT),
{
    law_open_ended_reads_stop_at_their_limit(source, range, events);
    full_reads::law_full_answers_make_full_reads(source, range, events, resource);
    full_reads::law_answered_reads_succeed(source, range, events, resource);
}

/// Whatever fetches an open-ended read needed and however any of them ended, as long as what it was
/// told is true and no answer is short: if it succeeds with fewer bytes than its limit, it returns
/// all of the resource from its start on. No failure passes for the end of the resource.
pub proof fn law_open_ended_reads_that_succeed_are_whole(
    source: SourceView,
    range: ByteRange,
    events: Seq<ReadEvent>,
    resource: Seq<u8>,
)
    requires
        resource.len() <= u64::MAX,
        source.agrees_with(resource),
        range.length is None,
        range.start <= resource.len(),
        ({
            let begun = source.begun(range);
            &&& begun.0.honest(begun.1, events, resource)
            &&& begun.0.generous(begun.1, events, resource)
        }),
    ensures
        source.read(range, events).1 matches ReadStepView::Done(Ok(bytes), _) ==> bytes.len()
            >= HTTP_STREAM_TO_EOF_BYTE_LIMIT || bytes == resource.skip(range.start as int),
{
    full_reads::law_full_answers_make_full_reads(source, range, events, resource);
    whole_reads::law_reads_return_the_resource(source, range, events, resource);
    if let ReadStepView::Done(Ok(bytes), _) = source.read(range, events).1 {
        if bytes.len() < HTTP_STREAM_TO_EOF_BYTE_LIMIT {
            assert(bytes =~= resource.skip(range.start as int));
        }
    }
}

} // verus!
