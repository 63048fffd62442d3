//! What holds of reads from an [`crate::http_source::HttpRangeSource`] from beginning to end.
use vstd::prelude::*;

use crate::error::SourceErrorView;
use crate::fetch;
use crate::fetch::ResponseView;
use crate::http_read::{FetchPlan, PendingView, ReadStepView, StageView};
use crate::http_source::SourceView;
use crate::length::LengthStepView;
use crate::range;
use crate::range::ByteRange;

verus! {

/// What a reader is told about the step it asked for.
pub enum ReadEvent {
    /// Whether the prefetch has ended, and how.
    Polled(Option<Result<ResponseView, SourceErrorView>>),
    /// How the prefetch has ended.
    Joined(Result<ResponseView, SourceErrorView>),
    /// What was found out about the total length.
    Learned(Result<Option<u64>, SourceErrorView>),
    /// What a fetch has brought.
    Fetched(Result<ResponseView, SourceErrorView>),
}

impl ReadStepView {
    /// Whether an event tells of this step.
    pub open spec fn awaits(self, event: ReadEvent) -> bool {
        match self {
            ReadStepView::Poll(_) => event is Polled,
            ReadStepView::Join(_) => event is Joined,
            ReadStepView::Learn(_) => event is Learned,
            ReadStepView::Fetch(_, _) => event is Fetched,
            ReadStepView::Done(_, _) => false,
        }
    }
}

impl SourceView {
    /// Where an event leads; one that tells of another step changes nothing.
    pub open spec fn advanced(self, step: ReadStepView, event: ReadEvent) -> (
        SourceView,
        ReadStepView,
    ) {
        match (step, event) {
            (ReadStepView::Poll(read), ReadEvent::Polled(outcome)) => self.polled(read, outcome),
            (ReadStepView::Join(read), ReadEvent::Joined(outcome)) => self.joined(read, outcome),
            (ReadStepView::Learn(read), ReadEvent::Learned(outcome)) => self.with_length(
                outcome,
            ).measured(read),
            (ReadStepView::Fetch(read, _), ReadEvent::Fetched(outcome)) => self.fetched(
                read,
                outcome,
            ),
            _ => (self, step),
        }
    }

    /// Where a series of events leads.
    pub open spec fn run(self, step: ReadStepView, events: Seq<ReadEvent>) -> (
        SourceView,
        ReadStepView,
    )
        decreases events.len(),
    {
        if events.len() == 0 {
            (self, step)
        } else {
            let next = self.advanced(step, events[0]);
            next.0.run(next.1, events.skip(1))
        }
    }

    /// Where a read leads when it meets with these events.
    pub open spec fn read(self, range: ByteRange, events: Seq<ReadEvent>) -> (
        SourceView,
        ReadStepView,
    ) {
        let begun = self.begun(range);
        begun.0.run(begun.1, events)
    }

    /// What the source knows of the resource is right.
    pub open spec fn agrees_with(self, resource: Seq<u8>) -> bool {
        &&& fetch::bytes_at(resource, self.cache_start as int, self.cache)
        &&& self.content_length matches Some(total) ==> total == resource.len()
    }
}

/// Whether `bytes` are a right answer to a read of `range`: bytes of the resource from the start of
/// the read on, and no more than were asked for.
pub open spec fn right_answer(range: ByteRange, bytes: Seq<u8>, resource: Seq<u8>) -> bool {
    &&& range.length matches Some(length) ==> bytes.len() <= length
    &&& fetch::bytes_at(resource, range.start as int, bytes)
}

impl SourceView {
    /// Whether an event that this step awaits tells the truth about the resource.
    pub open spec fn honest_event(
        self,
        step: ReadStepView,
        event: ReadEvent,
        resource: Seq<u8>,
    ) -> bool {
        match (step, event) {
            (ReadStepView::Poll(_), ReadEvent::Polled(Some(outcome))) => self.prefetch matches Some(
                pending,
            ) ==> fetch::truthful(outcome, pending.start, resource),
            (ReadStepView::Join(_), ReadEvent::Joined(outcome)) => self.prefetch matches Some(
                pending,
            ) ==> fetch::truthful(outcome, pending.start, resource),
            (ReadStepView::Learn(_), ReadEvent::Learned(outcome)) => outcome matches Ok(
                Some(total),
            ) ==> total == resource.len(),
            (ReadStepView::Fetch(_, piece), ReadEvent::Fetched(outcome)) => fetch::truthful(
                outcome,
                piece.start,
                resource,
            ),
            _ => true,
        }
    }

    /// Whether all events tell the truth about the resource.
    pub open spec fn honest(
        self,
        step: ReadStepView,
        events: Seq<ReadEvent>,
        resource: Seq<u8>,
    ) -> bool
        decreases events.len(),
    {
        events.len() > 0 ==> {
            let next = self.advanced(step, events[0]);
            &&& self.honest_event(step, events[0], resource)
            &&& next.0.honest(next.1, events.skip(1), resource)
        }
    }

    /// Whether a read of `range` that stands at this step will come to a right answer.
    pub open spec fn on_course(
        self,
        step: ReadStepView,
        range: ByteRange,
        resource: Seq<u8>,
    ) -> bool {
        let pending = |read: PendingView|
            {
                &&& read.range == range
                &&& match read.stage {
                    StageView::Settle | StageView::Join => true,
                    StageView::Measure(plan) | StageView::Fetch(plan) => if plan is Anchor {
                        range.length is Some
                    } else {
                        self.cache_start <= range.start
                    },
                    StageView::Refill(None) => self.cache_start <= range.start,
                    StageView::Refill(Some(bytes)) => {
                        &&& range.length == Some(bytes.len() as u64)
                        &&& bytes.len() <= u64::MAX
                        &&& fetch::bytes_at(resource, range.start as int, bytes)
                    },
                }
            };
        &&& self.agrees_with(resource)
        &&& match step {
            ReadStepView::Poll(read) => pending(read) && (read.stage is Settle
                || read.stage is Refill),
            ReadStepView::Join(read) => pending(read) && read.stage is Join,
            ReadStepView::Learn(read) => pending(read) && read.stage is Measure,
            ReadStepView::Fetch(read, piece) => pending(read) && (read.stage matches StageView::Fetch(
                plan,
            ) && piece.start == if plan is Anchor {
                range.start
            } else {
                self.end()
            }),
            ReadStepView::Done(Ok(bytes), _) => right_answer(range, bytes, resource),
            ReadStepView::Done(Err(_), _) => true,
        }
    }
}

/// The position after the last cached byte, where the cache holds bytes of a resource.
pub proof fn lemma_end(source: SourceView, resource: Seq<u8>)
    requires
        resource.len() <= u64::MAX,
        source.agrees_with(resource),
    ensures
        source.end() == source.cache_start + source.cache.len(),
{
}

/// A cached slice is the part of the resource that it should be.
proof fn lemma_slice(source: SourceView, range: ByteRange, resource: Seq<u8>)
    requires
        resource.len() <= u64::MAX,
        source.agrees_with(resource),
        source.slice(range) is Some,
    ensures
        range.length == Some(source.slice(range)->0.len() as u64),
        source.slice(range)->0.len() <= u64::MAX,
        fetch::bytes_at(resource, range.start as int, source.slice(range)->0),
{
    let bytes = source.slice(range)->0;
    lemma_end(source, resource);
    if bytes.len() > 0 {
        assert(bytes =~= resource.subrange(range.start as int, range.start + bytes.len()));
    }
}

/// What the cache holds from the place of a read on is part of the resource.
proof fn lemma_served(source: SourceView, range: ByteRange, resource: Seq<u8>)
    requires
        resource.len() <= u64::MAX,
        source.agrees_with(resource),
        source.cache_start <= range.start,
    ensures
        source.served(range) matches Ok(bytes) ==> right_answer(range, bytes, resource),
{
    if source.served(range) is Ok {
        let bytes = source.served(range)->Ok_0;
        if bytes.len() > 0 {
            assert(bytes =~= resource.subrange(range.start as int, range.start + bytes.len()));
        }
    }
}

proof fn lemma_finish(
    source: SourceView,
    range: ByteRange,
    hit: Option<Seq<u8>>,
    resource: Seq<u8>,
)
    requires
        resource.len() <= u64::MAX,
        source.on_course(
            ReadStepView::Poll(PendingView { range, stage: StageView::Refill(hit) }),
            range,
            resource,
        ),
    ensures
        ({
            let next = source.finish(range, hit);
            next.0.on_course(next.1, range, resource)
        }),
{
    if hit is None {
        lemma_served(source, range, resource);
    }
}

proof fn lemma_request(source: SourceView, range: ByteRange, plan: FetchPlan, resource: Seq<u8>)
    requires
        resource.len() <= u64::MAX,
        source.agrees_with(resource),
        plan is Anchor ==> range.length is Some,
        plan is Anchor || source.cache_start <= range.start,
    ensures
        ({
            let next = source.request(range, plan);
            next.0.on_course(next.1, range, resource)
        }),
{
    match plan {
        FetchPlan::Anchor => {
            let cleared = SourceView { cache_start: range.start, cache: Seq::empty(), ..source };
            lemma_finish(cleared, range, None, resource);
        },
        _ => {
            lemma_finish(source, range, None, resource);
        },
    }
}

proof fn lemma_filled(
    source: SourceView,
    range: ByteRange,
    end: u64,
    pieces: u32,
    resource: Seq<u8>,
)
    requires
        resource.len() <= u64::MAX,
        source.agrees_with(resource),
        source.cache_start <= range.start,
    ensures
        ({
            let next = source.filled(range, end, pieces);
            next.0.on_course(next.1, range, resource)
        }),
{
    lemma_finish(source, range, None, resource);
    lemma_request(source, range, FetchPlan::Fill { end, pieces: (pieces + 1) as u32 }, resource);
}

proof fn lemma_streamed(source: SourceView, range: ByteRange, resource: Seq<u8>)
    requires
        resource.len() <= u64::MAX,
        source.agrees_with(resource),
        source.cache_start <= range.start,
    ensures
        ({
            let next = source.streamed(range);
            next.0.on_course(next.1, range, resource)
        }),
{
    lemma_finish(source, range, None, resource);
    lemma_request(source, range, FetchPlan::Stream, resource);
}

proof fn lemma_looked_up(source: SourceView, range: ByteRange, resource: Seq<u8>)
    requires
        resource.len() <= u64::MAX,
        source.agrees_with(resource),
    ensures
        ({
            let next = source.looked_up(range);
            next.0.on_course(next.1, range, resource)
        }),
{
    match source.slice(range) {
        Some(bytes) => {
            lemma_slice(source, range, resource);
            lemma_finish(source, range, Some(bytes), resource);
        },
        None => match range.length {
            None => {
                let cleared = SourceView {
                    prefetch: None,
                    cache_start: range.start,
                    cache: Seq::empty(),
                    ..source
                };
                lemma_streamed(cleared, range, resource);
            },
            Some(length) => {
                let alone = SourceView { prefetch: None, ..source };
                lemma_request(alone, range, FetchPlan::Anchor, resource);
                if source.cache_start <= range.start {
                    lemma_filled(
                        source,
                        range,
                        range::saturating_sum(range.start, length as int),
                        0,
                        resource,
                    );
                }
            },
        },
    }
}

/// Cutting off the front of the cache leaves bytes of the resource.
pub proof fn lemma_trimmed(source: SourceView, range: ByteRange, resource: Seq<u8>)
    requires
        resource.len() <= u64::MAX,
        source.agrees_with(resource),
    ensures
        source.trimmed(range).agrees_with(resource),
{
    let trimmed = source.trimmed(range);
    if trimmed.cache.len() > 0 {
        assert(trimmed.cache =~= resource.subrange(
            trimmed.cache_start as int,
            trimmed.cache_start + trimmed.cache.len(),
        ));
    }
}

pub proof fn lemma_settled(source: SourceView, range: ByteRange, resource: Seq<u8>)
    requires
        resource.len() <= u64::MAX,
        source.agrees_with(resource),
    ensures
        ({
            let next = source.settled(range);
            next.0.on_course(next.1, range, resource)
        }),
{
    let trimmed = source.trimmed(range);
    lemma_trimmed(source, range, resource);
    match trimmed.slice(range) {
        Some(bytes) => {
            lemma_slice(trimmed, range, resource);
            lemma_finish(trimmed, range, Some(bytes), resource);
        },
        None => {
            lemma_looked_up(trimmed, range, resource);
            lemma_looked_up(SourceView { prefetch: None, ..trimmed }, range, resource);
        },
    }
}

/// A truthful prefetch leaves a source that agrees with the resource, with the start of its cache
/// where it was.
pub proof fn lemma_landed(
    source: SourceView,
    outcome: Result<ResponseView, SourceErrorView>,
    resource: Seq<u8>,
)
    requires
        resource.len() <= u64::MAX,
        source.agrees_with(resource),
        source.prefetch matches Some(pending) ==> fetch::truthful(outcome, pending.start, resource),
    ensures
        source.landed(outcome).agrees_with(resource),
        source.landed(outcome).cache_start == source.cache_start,
{
    lemma_end(source, resource);
    if let Ok(response) = outcome {
        if source.prefetch is Some && source.prefetch->0.start == source.end() {
            fetch::lemma_bytes_continue(
                resource,
                source.cache_start as int,
                source.cache,
                response.bytes,
            );
        }
    }
}

/// A truthful event keeps a read on course.
pub proof fn lemma_advanced(
    source: SourceView,
    step: ReadStepView,
    event: ReadEvent,
    range: ByteRange,
    resource: Seq<u8>,
)
    requires
        resource.len() <= u64::MAX,
        source.on_course(step, range, resource),
        source.honest_event(step, event, resource),
    ensures
        ({
            let next = source.advanced(step, event);
            next.0.on_course(next.1, range, resource)
        }),
{
    match (step, event) {
        (ReadStepView::Poll(read), ReadEvent::Polled(polled)) => {
            let next = match polled {
                Some(outcome) => source.landed(outcome),
                None => source,
            };
            if let Some(outcome) = polled {
                lemma_landed(source, outcome, resource);
            }
            match read.stage {
                StageView::Refill(hit) => {
                    lemma_finish(next, range, hit, resource);
                },
                _ => {
                    lemma_settled(next, range, resource);
                },
            }
        },
        (ReadStepView::Join(read), ReadEvent::Joined(outcome)) => {
            lemma_landed(source, outcome, resource);
            lemma_looked_up(source.landed(outcome), range, resource);
        },
        (ReadStepView::Learn(read), ReadEvent::Learned(outcome)) => {
            let next = source.with_length(outcome);
            match read.stage {
                StageView::Measure(plan) => {
                    lemma_request(next, range, plan, resource);
                },
                _ => {},
            }
        },
        (ReadStepView::Fetch(read, piece), ReadEvent::Fetched(Ok(response))) => {
            let next = source.recorded(response.total);
            let longer = SourceView { cache: next.cache + response.bytes, ..next };
            lemma_end(source, resource);
            match read.stage {
                StageView::Fetch(FetchPlan::Anchor) => {
                    let anchored = SourceView {
                        cache_start: range.start,
                        cache: response.bytes,
                        ..next
                    };
                    lemma_finish(anchored, range, None, resource);
                },
                StageView::Fetch(FetchPlan::Fill { end, pieces }) => {
                    fetch::lemma_bytes_continue(
                        resource,
                        source.cache_start as int,
                        source.cache,
                        response.bytes,
                    );
                    lemma_finish(next, range, None, resource);
                    lemma_filled(longer, range, end, pieces, resource);
                },
                StageView::Fetch(FetchPlan::Stream) => {
                    fetch::lemma_bytes_continue(
                        resource,
                        source.cache_start as int,
                        source.cache,
                        response.bytes,
                    );
                    lemma_finish(longer, range, None, resource);
                    lemma_streamed(longer, range, resource);
                },
                _ => {},
            }
        },
        _ => {},
    }
}

/// A read that is on course stays so, whatever truthful events it meets with.
proof fn lemma_run(
    source: SourceView,
    step: ReadStepView,
    events: Seq<ReadEvent>,
    range: ByteRange,
    resource: Seq<u8>,
)
    requires
        resource.len() <= u64::MAX,
        source.on_course(step, range, resource),
        source.honest(step, events, resource),
    ensures
        ({
            let last = source.run(step, events);
            last.0.on_course(last.1, range, resource)
        }),
    decreases events.len(),
{
    if events.len() > 0 {
        let next = source.advanced(step, events[0]);
        lemma_advanced(source, step, events[0], range, resource);
        lemma_run(next.0, next.1, events.skip(1), range, resource);
    }
}

/// Whatever a read meets with on its way (prefetches that land, fail or are late, fetches that
/// are cut short or fail, lengths that are unknown), as long as what it is told is true of the
/// resource: what it returns are bytes of the resource from the start of the read on and no more
/// than were asked for, and what the source then knows is still true.
pub proof fn law_reads_return_the_resource(
    source: SourceView,
    range: ByteRange,
    events: Seq<ReadEvent>,
    resource: Seq<u8>,
)
    requires
        resource.len() <= u64::MAX,
        source.agrees_with(resource),
        ({
            let begun = source.begun(range);
            begun.0.honest(begun.1, events, resource)
        }),
    ensures
        ({
            let last = source.read(range, events);
            &&& last.0.agrees_with(resource)
            &&& last.1 matches ReadStepView::Done(Ok(bytes), _) ==> right_answer(
                range,
                bytes,
                resource,
            )
        }),
{
    let begun = source.begun(range);
    lemma_settled(source, range, resource);
    lemma_run(begun.0, begun.1, events, range, resource);
}

/// A new source knows nothing, and so nothing wrong.
pub proof fn law_new_sources_agree_with_any_resource(
    uri: Seq<char>,
    own: Seq<(String, String)>,
    read_ahead: u64,
    resource: Seq<u8>,
)
    ensures
        SourceView::fresh(uri, own, read_ahead).agrees_with(resource),
        SourceView::fresh(uri, own, read_ahead).well_formed(),
{
}

// ---------------------------------------------------------------------------
// Reads one after another
// ---------------------------------------------------------------------------
/// One use of a source.
pub enum SourceUse {
    /// A read, with the events that it met with.
    Read(ByteRange, Seq<ReadEvent>),
    /// A search for the total length, with its outcome.
    Length(Result<Option<u64>, SourceErrorView>),
}

impl SourceView {
    /// The source after one use. A search for the total length changes nothing if it is known.
    pub open spec fn after_use(self, one: SourceUse) -> SourceView {
        match one {
            SourceUse::Read(range, events) => self.read(range, events).0,
            SourceUse::Length(outcome) => if self.content_length is Some {
                self
            } else {
                self.with_length(outcome)
            },
        }
    }

    /// The source after a series of uses.
    pub open spec fn after_uses(self, uses: Seq<SourceUse>) -> SourceView
        decreases uses.len(),
    {
        if uses.len() == 0 {
            self
        } else {
            self.after_use(uses[0]).after_uses(uses.skip(1))
        }
    }

    /// Whether all that the source was told in a series of uses is true of the resource.
    pub open spec fn honest_uses(self, uses: Seq<SourceUse>, resource: Seq<u8>) -> bool
        decreases uses.len(),
    {
        uses.len() > 0 ==> {
            &&& match uses[0] {
                SourceUse::Read(range, events) => {
                    let begun = self.begun(range);
                    begun.0.honest(begun.1, events, resource)
                },
                SourceUse::Length(outcome) => outcome matches Ok(Some(total)) ==> total
                    == resource.len(),
            }
            &&& self.after_use(uses[0]).honest_uses(uses.skip(1), resource)
        }
    }
}

/// A source that agrees with the resource still does after any series of uses.
proof fn lemma_after_uses(source: SourceView, uses: Seq<SourceUse>, resource: Seq<u8>)
    requires
        resource.len() <= u64::MAX,
        source.agrees_with(resource),
        source.honest_uses(uses, resource),
    ensures
        source.after_uses(uses).agrees_with(resource),
    decreases uses.len(),
{
    if uses.len() > 0 {
        match uses[0] {
            SourceUse::Read(range, events) => {
                law_reads_return_the_resource(source, range, events, resource);
            },
            SourceUse::Length(_) => {},
        }
        lemma_after_uses(source.after_use(uses[0]), uses.skip(1), resource);
    }
}

/// From its making on, whatever a source was used for before, and whatever was cached, trimmed,
/// prefetched or forgotten on the way: as long as it was told the truth about one resource, every
/// read that succeeds returns bytes of that resource from the start of the read on, and no more
/// than were asked for.
pub proof fn law_every_read_returns_the_resource(
    uri: Seq<char>,
    own: Seq<(String, String)>,
    read_ahead: u64,
    uses: Seq<SourceUse>,
    range: ByteRange,
    events: Seq<ReadEvent>,
    resource: Seq<u8>,
)
    requires
        resource.len() <= u64::MAX,
        SourceView::fresh(uri, own, read_ahead).honest_uses(uses, resource),
        ({
            let begun = SourceView::fresh(uri, own, read_ahead).after_uses(uses).begun(range);
            begun.0.honest(begun.1, events, resource)
        }),
    ensures
        SourceView::fresh(uri, own, read_ahead).after_uses(uses).read(range, events).1 matches
            ReadStepView::Done(Ok(bytes), _) ==> right_answer(range, bytes, resource),
{
    let fresh = SourceView::fresh(uri, own, read_ahead);
    lemma_after_uses(fresh, uses, resource);
    law_reads_return_the_resource(fresh.after_uses(uses), range, events, resource);
}

// ---------------------------------------------------------------------------
// The total length
// ---------------------------------------------------------------------------
impl SourceView {
    /// Whether the total length is known, and the read that stands at this step does not ask for
    /// it.
    pub open spec fn keeps_length(self, step: ReadStepView, total: u64) -> bool {
        self.content_length == Some(total) && !(step is Learn)
    }
}

proof fn lemma_looked_up_keeps_length(source: SourceView, range: ByteRange, total: u64)
    requires
        source.content_length == Some(total),
    ensures
        ({
            let next = source.looked_up(range);
            next.0.keeps_length(next.1, total)
        }),
{
}

proof fn lemma_settled_keeps_length(source: SourceView, range: ByteRange, total: u64)
    requires
        source.content_length == Some(total),
    ensures
        ({
            let next = source.settled(range);
            next.0.keeps_length(next.1, total)
        }),
{
    let trimmed = source.trimmed(range);
    lemma_looked_up_keeps_length(trimmed, range, total);
    lemma_looked_up_keeps_length(SourceView { prefetch: None, ..trimmed }, range, total);
}

proof fn lemma_advanced_keeps_length(
    source: SourceView,
    step: ReadStepView,
    event: ReadEvent,
    total: u64,
)
    requires
        source.keeps_length(step, total),
    ensures
        ({
            let next = source.advanced(step, event);
            next.0.keeps_length(next.1, total)
        }),
{
    match (step, event) {
        (ReadStepView::Poll(read), ReadEvent::Polled(polled)) => {
            let next = match polled {
                Some(outcome) => source.landed(outcome),
                None => source,
            };
            lemma_settled_keeps_length(next, read.range, total);
        },
        (ReadStepView::Join(read), ReadEvent::Joined(outcome)) => {
            lemma_looked_up_keeps_length(source.landed(outcome), read.range, total);
        },
        (ReadStepView::Fetch(read, _), ReadEvent::Fetched(outcome)) => {
            lemma_looked_up_keeps_length(source, read.range, total);
        },
        _ => {},
    }
}

proof fn lemma_run_keeps_length(
    source: SourceView,
    step: ReadStepView,
    events: Seq<ReadEvent>,
    total: u64,
)
    requires
        source.keeps_length(step, total),
    ensures
        source.run(step, events).0.content_length == Some(total),
    decreases events.len(),
{
    if events.len() > 0 {
        let next = source.advanced(step, events[0]);
        lemma_advanced_keeps_length(source, step, events[0], total);
        lemma_run_keeps_length(next.0, next.1, events.skip(1), total);
    }
}

/// A total length that is known stays known through a read, whatever the origin answers.
pub proof fn law_a_known_length_is_kept(
    source: SourceView,
    range: ByteRange,
    events: Seq<ReadEvent>,
    total: u64,
)
    requires
        source.content_length == Some(total),
    ensures
        source.read(range, events).0.content_length == Some(total),
{
    let begun = source.begun(range);
    lemma_settled_keeps_length(source, range, total);
    lemma_run_keeps_length(begun.0, begun.1, events, total);
}

/// A total length that is known stays known whatever the source is used for, so that every later
/// search for it ends with that length at once and leaves the source as it is.
pub proof fn law_a_learned_length_is_the_answer_ever_after(
    source: SourceView,
    uses: Seq<SourceUse>,
    outcome: Result<Option<u64>, SourceErrorView>,
    total: u64,
)
    requires
        source.content_length == Some(total),
    ensures
        ({
            let later = source.after_uses(uses);
            &&& later.length_step() == Some(LengthStepView::Done(Ok(Some(total))))
            &&& later.with_length(Ok(Some(total))) == later
            &&& later.after_use(SourceUse::Length(outcome)) == later
        }),
    decreases uses.len(),
{
    if uses.len() > 0 {
        match uses[0] {
            SourceUse::Read(range, events) => {
                law_a_known_length_is_kept(source, range, events, total);
            },
            SourceUse::Length(_) => {},
        }
        law_a_learned_length_is_the_answer_ever_after(
            source.after_use(uses[0]),
            uses.skip(1),
            outcome,
            total,
        );
    }
}

// ---------------------------------------------------------------------------
// Failed fetches
// ---------------------------------------------------------------------------
/// A read that has ended stays so, whatever comes after.
proof fn lemma_ended(source: SourceView, step: ReadStepView, events: Seq<ReadEvent>)
    requires
        step is Done,
    ensures
        source.run(step, events) == (source, step),
    decreases events.len(),
{
    if events.len() > 0 {
        lemma_ended(source, step, events.skip(1));
    }
}

/// Where two series of events lead, one after the other.
proof fn lemma_run_on(
    source: SourceView,
    step: ReadStepView,
    before: Seq<ReadEvent>,
    after: Seq<ReadEvent>,
)
    ensures
        ({
            let there = source.run(step, before);
            source.run(step, before + after) == there.0.run(there.1, after)
        }),
    decreases before.len(),
{
    if before.len() == 0 {
        assert(before + after =~= after);
    } else {
        let next = source.advanced(step, before[0]);
        assert((before + after).skip(1) =~= before.skip(1) + after);
        lemma_run_on(next.0, next.1, before.skip(1), after);
    }
}

/// A fetch that fails fails the read, whatever came before and whatever the read was for: it ends at
/// once with the error of the fetch, starts no prefetch, returns none of the bytes that had arrived,
/// and leaves the source as it was.
pub proof fn law_a_failed_fetch_fails_the_read(
    source: SourceView,
    range: ByteRange,
    before: Seq<ReadEvent>,
    error: SourceErrorView,
    after: Seq<ReadEvent>,
)
    requires
        source.read(range, before).1 is Fetch,
    ensures
        ({
            let last = source.read(range, before + seq![ReadEvent::Fetched(Err(error))] + after);
            &&& last.1 == ReadStepView::Done(Err(error), None)
            &&& last.0 == source.read(range, before).0
        }),
{
    let begun = source.begun(range);
    let failure = seq![ReadEvent::Fetched(Err(error))];
    let there = source.read(range, before);
    lemma_run_on(begun.0, begun.1, before, failure + after);
    assert(before + failure + after =~= before + (failure + after));
    assert((failure + after).skip(1) =~= after);
    let ended = there.0.advanced(there.1, failure[0]);
    lemma_ended(ended.0, ended.1, after);
}

/// An end is an end: what is told of a read after it has ended changes nothing.
pub proof fn law_ended_reads_stay_ended(
    source: SourceView,
    range: ByteRange,
    events: Seq<ReadEvent>,
    after: Seq<ReadEvent>,
)
    requires
        source.read(range, events).1 is Done,
    ensures
        source.read(range, events + after) == source.read(range, events),
{
    let begun = source.begun(range);
    let there = source.read(range, events);
    lemma_run_on(begun.0, begun.1, events, after);
    lemma_ended(there.0, there.1, after);
}

} // verus!
