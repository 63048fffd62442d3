//! Reads from an [`HttpRangeSource`], step by step.
//!
//! A read first takes in a finished prefetch and looks into the cache. If the cache does not hold
//! what is asked for, the read waits for a prefetch that brings it, or fetches what is missing.
//! Before it ends it may ask for the next piece to be prefetched.
use vstd::prelude::*;
use vstd::string::*;

use crate::error::{SourceError, SourceErrorView};
use crate::fetch;
use crate::fetch::{HttpRangeResponse, ResponseView};
use crate::http_source;
use crate::http_source::{
    HttpRangeSource, PrefetchDecision, SourceView, HTTP_FETCH_MAX_PIECES_PER_READ,
    HTTP_REQUEST_MAX_BYTES, HTTP_STREAM_TO_EOF_BYTE_LIMIT,
};
use crate::length;
use crate::length::{LengthProbe, LengthStep, LengthStepView, ProbeView};
use crate::range;
use crate::range::ByteRange;
use crate::retry;
use crate::text;

verus! {

/// What a fetch is for.
#[derive(Debug, Clone, Copy, PartialEq, Eq, Structural)]
pub enum FetchPlan {
    /// Start a new window at the read.
    Anchor,
    /// Continue the cache until it reaches `end`; this is piece number `pieces`.
    Fill { end: u64, pieces: u32 },
    /// Continue the cache until the resource ends: at its total if that is known, and else at an
    /// answer that is shorter than a request may be.
    Stream,
}

/// Where a read stands.
#[derive(Debug)]
pub enum ReadStage {
    /// A prefetch is in flight, and the read has not looked into the cache.
    Settle,
    /// The read waits for the prefetch.
    Join,
    /// The read waits for the total length, to know how much to ask for.
    Measure(FetchPlan),
    /// The read waits for a fetch.
    Fetch(FetchPlan),
    /// A prefetch is in flight, and the read is about to end: with these bytes, or else with what
    /// the cache then holds.
    Refill(Option<Vec<u8>>),
}

/// A read that waits for something.
#[derive(Debug)]
pub struct PendingRead {
    /// What is read.
    pub range: ByteRange,
    /// What it waits for.
    pub stage: ReadStage,
}

/// How a read ends.
#[derive(Debug)]
pub struct ReadOutcome {
    /// What the reader gets.
    pub result: Result<Vec<u8>, SourceError>,
    /// A prefetch to start, if one is due.
    pub prefetch: Option<ByteRange>,
}

/// What a read wants done next.
#[derive(Debug)]
pub enum ReadStep {
    /// See whether the prefetch has ended.
    Poll(PendingRead),
    /// Wait until the prefetch has ended.
    Join(PendingRead),
    /// Find out the total length and record it, as far as that succeeds.
    Learn(PendingRead),
    /// Fetch these bytes.
    Fetch(PendingRead, ByteRange),
    /// Stop: this is the outcome.
    Done(ReadOutcome),
}

/// A [`ReadStage`] in terms of sequences.
pub enum StageView {
    Settle,
    Join,
    Measure(FetchPlan),
    Fetch(FetchPlan),
    Refill(Option<Seq<u8>>),
}

/// A [`PendingRead`] in terms of sequences.
pub struct PendingView {
    pub range: ByteRange,
    pub stage: StageView,
}

/// A [`ReadStep`] in terms of sequences.
pub enum ReadStepView {
    Poll(PendingView),
    Join(PendingView),
    Learn(PendingView),
    Fetch(PendingView, ByteRange),
    Done(Result<Seq<u8>, SourceErrorView>, Option<ByteRange>),
}

/// Bytes that may be missing, as a sequence.
pub open spec fn hit_view(hit: Option<Vec<u8>>) -> Option<Seq<u8>> {
    match hit {
        Some(bytes) => Some(bytes@),
        None => None,
    }
}

/// The outcome of a prefetch that may still be in flight, in terms of sequences.
pub open spec fn poll_view(polled: Option<Result<HttpRangeResponse, SourceError>>) -> Option<
    Result<ResponseView, SourceErrorView>,
> {
    match polled {
        Some(outcome) => Some(fetch::outcome_view(outcome)),
        None => None,
    }
}

impl View for ReadStage {
    type V = StageView;

    open spec fn view(&self) -> StageView {
        match self {
            ReadStage::Settle => StageView::Settle,
            ReadStage::Join => StageView::Join,
            ReadStage::Measure(plan) => StageView::Measure(*plan),
            ReadStage::Fetch(plan) => StageView::Fetch(*plan),
            ReadStage::Refill(hit) => StageView::Refill(hit_view(*hit)),
        }
    }
}

impl View for PendingRead {
    type V = PendingView;

    open spec fn view(&self) -> PendingView {
        PendingView { range: self.range, stage: self.stage@ }
    }
}

impl View for ReadStep {
    type V = ReadStepView;

    open spec fn view(&self) -> ReadStepView {
        match self {
            ReadStep::Poll(read) => ReadStepView::Poll(read@),
            ReadStep::Join(read) => ReadStepView::Join(read@),
            ReadStep::Learn(read) => ReadStepView::Learn(read@),
            ReadStep::Fetch(read, range) => ReadStepView::Fetch(read@, *range),
            ReadStep::Done(outcome) => ReadStepView::Done(
                http_source::bytes_view(outcome.result),
                outcome.prefetch,
            ),
        }
    }
}

// ---------------------------------------------------------------------------
// What each step leads to
// ---------------------------------------------------------------------------
impl SourceView {
    /// The read ends, with the bytes it found or else with what the cache holds; a prefetch may
    /// be due.
    pub open spec fn finish(self, range: ByteRange, hit: Option<Seq<u8>>) -> (
        SourceView,
        ReadStepView,
    ) {
        let due = self.next_prefetch(range);
        let next = SourceView {
            prefetch: if due is Some {
                due
            } else {
                self.prefetch
            },
            ..self
        };
        match hit {
            Some(bytes) => (next, ReadStepView::Done(Ok(bytes), due)),
            None => (next, ReadStepView::Done(self.served(range), due)),
        }
    }

    /// Nothing more is fetched for the read.
    pub open spec fn refill(self, range: ByteRange, hit: Option<Seq<u8>>) -> (
        SourceView,
        ReadStepView,
    ) {
        if self.prefetch is Some {
            (self, ReadStepView::Poll(PendingView { range, stage: StageView::Refill(hit) }))
        } else {
            self.finish(range, hit)
        }
    }

    /// How many more bytes an open-ended read may cache.
    pub open spec fn stream_room(self) -> u64 {
        if self.cache.len() >= HTTP_STREAM_TO_EOF_BYTE_LIMIT {
            0
        } else {
            (HTTP_STREAM_TO_EOF_BYTE_LIMIT - self.cache.len()) as u64
        }
    }

    /// Asks for the bytes that a plan needs next, or ends the read if there are none.
    pub open spec fn request(self, range: ByteRange, plan: FetchPlan) -> (
        SourceView,
        ReadStepView,
    ) {
        let wait = PendingView { range, stage: StageView::Fetch(plan) };
        match (plan, range.length) {
            (FetchPlan::Anchor, Some(length)) => {
                let wanted = self.request_length(range.start, length);
                if wanted == 0 {
                    SourceView { cache_start: range.start, cache: Seq::empty(), ..self }.refill(
                        range,
                        None,
                    )
                } else {
                    let piece = ByteRange { start: range.start, length: Some(wanted) };
                    (self, ReadStepView::Fetch(wait, piece))
                }
            },
            (FetchPlan::Anchor, None) => self.refill(range, None),
            (FetchPlan::Fill { end, .. }, _) => {
                let wanted = self.request_length(
                    self.end(),
                    http_source::excess(end, self.end()),
                );
                if wanted == 0 {
                    self.refill(range, None)
                } else {
                    let piece = ByteRange { start: self.end(), length: Some(wanted) };
                    (self, ReadStepView::Fetch(wait, piece))
                }
            },
            (FetchPlan::Stream, _) => {
                if self.stream_room() == 0 {
                    self.refill(range, None)
                } else {
                    let piece = ByteRange {
                        start: self.end(),
                        length: Some(
                            http_source::least(HTTP_REQUEST_MAX_BYTES, self.stream_room()),
                        ),
                    };
                    (self, ReadStepView::Fetch(wait, piece))
                }
            },
        }
    }

    /// Asks for the total length first, if it is not known.
    pub open spec fn measure(self, range: ByteRange, plan: FetchPlan) -> (
        SourceView,
        ReadStepView,
    ) {
        if self.content_length is Some {
            self.request(range, plan)
        } else {
            (self, ReadStepView::Learn(PendingView { range, stage: StageView::Measure(plan) }))
        }
    }

    /// Starts a new window at the read.
    pub open spec fn reanchored(self, range: ByteRange) -> (SourceView, ReadStepView) {
        SourceView { prefetch: None, ..self }.measure(range, FetchPlan::Anchor)
    }

    /// Continues the cache to `end`, after so many pieces.
    pub open spec fn filled(self, range: ByteRange, end: u64, pieces: u32) -> (
        SourceView,
        ReadStepView,
    ) {
        if self.end() >= end {
            self.refill(range, None)
        } else if pieces >= HTTP_FETCH_MAX_PIECES_PER_READ {
            (
                self,
                ReadStepView::Done(
                    Err(
                        SourceErrorView::Http(
                            "origin answered "@ + text::decimal(pieces as nat)
                                + " short pieces without covering bytes "@ + text::decimal(
                                range.start as nat,
                            ) + ".."@ + text::decimal(end as nat),
                        ),
                    ),
                    None,
                ),
            )
        } else {
            self.measure(range, FetchPlan::Fill { end, pieces: (pieces + 1) as u32 })
        }
    }

    /// Continues the cache until the resource is known to end, or the limit is reached.
    pub open spec fn streamed(self, range: ByteRange) -> (SourceView, ReadStepView) {
        if self.content_length matches Some(total) && self.end() >= total {
            self.refill(range, None)
        } else {
            self.request(range, FetchPlan::Stream)
        }
    }

    /// A read that the cache does not cover: what is missing has to be fetched.
    pub open spec fn missing(self, range: ByteRange) -> (SourceView, ReadStepView) {
        match range.length {
            None => SourceView {
                prefetch: None,
                cache_start: range.start,
                cache: Seq::empty(),
                ..self
            }.streamed(range),
            Some(length) => if self.cache.len() == 0 || range.start < self.cache_start
                || range.start > range::saturating_sum(self.end(), HTTP_REQUEST_MAX_BYTES as int) {
                self.reanchored(range)
            } else {
                self.filled(range, range::saturating_sum(range.start, length as int), 0)
            },
        }
    }

    /// The prefetch is settled: the read is served from the cache or fetches.
    pub open spec fn looked_up(self, range: ByteRange) -> (SourceView, ReadStepView) {
        match self.slice(range) {
            Some(bytes) => self.refill(range, Some(bytes)),
            None => self.missing(range),
        }
    }

    /// What a read does once a finished prefetch has been taken in.
    pub open spec fn settled(self, range: ByteRange) -> (SourceView, ReadStepView) {
        let trimmed = self.trimmed(range);
        match trimmed.slice(range) {
            Some(bytes) => trimmed.refill(range, Some(bytes)),
            None => if trimmed.content_length matches Some(total) && range.start >= total {
                (trimmed, ReadStepView::Done(Ok(Seq::empty()), None))
            } else {
                match trimmed.prefetch {
                    None => trimmed.looked_up(range),
                    Some(pending) => match trimmed.decision(pending, range) {
                        PrefetchDecision::Join => (
                            trimmed,
                            ReadStepView::Join(PendingView { range, stage: StageView::Join }),
                        ),
                        PrefetchDecision::Drop => SourceView {
                            prefetch: None,
                            ..trimmed
                        }.looked_up(range),
                        PrefetchDecision::Keep => trimmed.looked_up(range),
                    },
                }
            },
        }
    }

    /// A read begins.
    pub open spec fn begun(self, range: ByteRange) -> (SourceView, ReadStepView) {
        if self.prefetch is Some {
            (self, ReadStepView::Poll(PendingView { range, stage: StageView::Settle }))
        } else {
            self.settled(range)
        }
    }

    /// The source once its prefetch has ended.
    pub open spec fn landed(self, outcome: Result<ResponseView, SourceErrorView>) -> SourceView {
        match self.prefetch {
            Some(pending) => SourceView { prefetch: None, ..self }.absorbed(pending.start, outcome),
            None => self,
        }
    }

    /// The prefetch was polled: it has ended in this way, or is still in flight.
    pub open spec fn polled(
        self,
        read: PendingView,
        polled: Option<Result<ResponseView, SourceErrorView>>,
    ) -> (SourceView, ReadStepView) {
        let next = match polled {
            Some(outcome) => self.landed(outcome),
            None => self,
        };
        match read.stage {
            StageView::Refill(hit) => next.finish(read.range, hit),
            _ => next.settled(read.range),
        }
    }

    /// The prefetch was waited for.
    pub open spec fn joined(
        self,
        read: PendingView,
        outcome: Result<ResponseView, SourceErrorView>,
    ) -> (SourceView, ReadStepView) {
        self.landed(outcome).looked_up(read.range)
    }

    /// The total length has been asked for.
    pub open spec fn measured(self, read: PendingView) -> (SourceView, ReadStepView) {
        match read.stage {
            StageView::Measure(plan) => self.request(read.range, plan),
            _ => self.looked_up(read.range),
        }
    }

    /// A fetch for the read has ended.
    pub open spec fn fetched(
        self,
        read: PendingView,
        outcome: Result<ResponseView, SourceErrorView>,
    ) -> (SourceView, ReadStepView) {
        match (read.stage, outcome) {
            (StageView::Fetch(plan), Ok(response)) => {
                let next = self.recorded(response.total);
                let longer = SourceView { cache: next.cache + response.bytes, ..next };
                match plan {
                    FetchPlan::Anchor => SourceView {
                        cache_start: read.range.start,
                        cache: response.bytes,
                        ..next
                    }.refill(read.range, None),
                    FetchPlan::Fill { end, pieces } => if response.bytes.len() == 0 {
                        next.refill(read.range, None)
                    } else {
                        longer.filled(read.range, end, pieces)
                    },
                    FetchPlan::Stream => if response.bytes.len() == 0 || (self.content_length
                        is None && response.bytes.len() < HTTP_REQUEST_MAX_BYTES) {
                        longer.refill(read.range, None)
                    } else {
                        longer.streamed(read.range)
                    },
                }
            },
            (_, Ok(_)) => self.looked_up(read.range),
            (_, Err(error)) => (self, ReadStepView::Done(Err(error), None)),
        }
    }

    /// How a search for the total length ends before it begins: at once, if the length is known.
    pub open spec fn length_step(self) -> Option<LengthStepView> {
        match self.content_length {
            Some(total) => Some(LengthStepView::Done(Ok(Some(total)))),
            None => None,
        }
    }

    /// The total length has been asked for: keep it, if the answer tells it.
    pub open spec fn with_length(self, outcome: Result<Option<u64>, SourceErrorView>) -> SourceView {
        match outcome {
            Ok(total) => SourceView { content_length: total, ..self },
            Err(_) => self,
        }
    }
}

impl HttpRangeSource {
    /// Ends a read, with the bytes it found or else with what the cache holds.
    fn finish(&mut self, range: ByteRange, hit: Option<Vec<u8>>) -> (step: ReadStep)
        ensures
            (final(self)@, step@) == old(self)@.finish(range, hit_view(hit)),
    {
        let prefetch: Option<ByteRange> = self.maybe_start_prefetch(range);
        let result: Result<Vec<u8>, SourceError> = match hit {
            Some(bytes) => Ok(bytes),
            None => self.serve(range),
        };
        ReadStep::Done(ReadOutcome { result, prefetch })
    }

    /// Ends a read for which nothing more is fetched, once a finished prefetch is taken in.
    fn refill(&mut self, range: ByteRange, hit: Option<Vec<u8>>) -> (step: ReadStep)
        ensures
            (final(self)@, step@) == old(self)@.refill(range, hit_view(hit)),
    {
        if self.prefetch.is_some() {
            ReadStep::Poll(PendingRead { range, stage: ReadStage::Refill(hit) })
        } else {
            self.finish(range, hit)
        }
    }

    /// Asks for the bytes that a plan needs next.
    fn request(&mut self, range: ByteRange, plan: FetchPlan) -> (step: ReadStep)
        ensures
            (final(self)@, step@) == old(self)@.request(range, plan),
    {
        let wait: PendingRead = PendingRead { range, stage: ReadStage::Fetch(plan) };
        match plan {
            FetchPlan::Anchor => match range.length {
                None => self.refill(range, None),
                Some(length) => {
                    let wanted: u64 = self.fetch_length(range.start, length);
                    if wanted == 0 {
                        self.cache_start = range.start;
                        self.cache_bytes = Vec::new();
                        self.refill(range, None)
                    } else {
                        ReadStep::Fetch(
                            wait,
                            ByteRange { start: range.start, length: Some(wanted) },
                        )
                    }
                },
            },
            FetchPlan::Fill { end, pieces: _ } => {
                let start: u64 = self.cache_end();
                let wanted: u64 = self.fetch_length(start, end.saturating_sub(start));
                if wanted == 0 {
                    self.refill(range, None)
                } else {
                    ReadStep::Fetch(wait, ByteRange { start, length: Some(wanted) })
                }
            },
            FetchPlan::Stream => {
                let cached: u64 = self.cache_bytes.len() as u64;
                if cached >= HTTP_STREAM_TO_EOF_BYTE_LIMIT {
                    return self.refill(range, None);
                }
                let room: u64 = HTTP_STREAM_TO_EOF_BYTE_LIMIT - cached;
                let wanted: u64 = if HTTP_REQUEST_MAX_BYTES <= room {
                    HTTP_REQUEST_MAX_BYTES
                } else {
                    room
                };
                ReadStep::Fetch(wait, ByteRange { start: self.cache_end(), length: Some(wanted) })
            },
        }
    }

    /// Asks for the total length if it is not known, and then for bytes.
    fn measure(&mut self, range: ByteRange, plan: FetchPlan) -> (step: ReadStep)
        ensures
            (final(self)@, step@) == old(self)@.measure(range, plan),
    {
        if self.content_length.is_some() {
            self.request(range, plan)
        } else {
            ReadStep::Learn(PendingRead { range, stage: ReadStage::Measure(plan) })
        }
    }

    /// Starts a new window at the read, and forgets what the cache held.
    fn reanchor_window(&mut self, range: ByteRange) -> (step: ReadStep)
        ensures
            (final(self)@, step@) == old(self)@.reanchored(range),
    {
        self.prefetch = None;
        self.measure(range, FetchPlan::Anchor)
    }

    /// Continues the cache to `end`, piece by piece.
    fn fill_window(&mut self, range: ByteRange, end: u64, pieces: u32) -> (step: ReadStep)
        ensures
            (final(self)@, step@) == old(self)@.filled(range, end, pieces),
    {
        if self.cache_end() >= end {
            return self.refill(range, None);
        }
        if pieces >= HTTP_FETCH_MAX_PIECES_PER_READ {
            let counted: String = text::joined_decimal("origin answered ".to_string(), pieces as u64);
            let from: String = text::joined_decimal(
                text::joined(counted, " short pieces without covering bytes "),
                range.start,
            );
            let message: String = text::joined_decimal(text::joined(from, ".."), end);
            return ReadStep::Done(
                ReadOutcome { result: Err(SourceError::Http(message)), prefetch: None },
            );
        }
        self.measure(range, FetchPlan::Fill { end, pieces: pieces + 1 })
    }

    /// Continues the cache until the resource is known to end, or the limit is reached.
    fn stream_to_eof(&mut self, range: ByteRange) -> (step: ReadStep)
        ensures
            (final(self)@, step@) == old(self)@.streamed(range),
    {
        let ended: bool = match self.content_length {
            Some(total) => self.cache_end() >= total,
            None => false,
        };
        if ended {
            self.refill(range, None)
        } else {
            self.request(range, FetchPlan::Stream)
        }
    }

    /// Makes the cache cover a read, downloading only what is missing.
    fn fetch_missing(&mut self, range: ByteRange) -> (step: ReadStep)
        ensures
            (final(self)@, step@) == old(self)@.missing(range),
    {
        match range.length {
            None => {
                self.prefetch = None;
                self.cache_start = range.start;
                self.cache_bytes = Vec::new();
                self.stream_to_eof(range)
            },
            Some(length) => {
                if self.cache_bytes.len() == 0 || range.start < self.cache_start || range.start
                    > self.cache_end().saturating_add(HTTP_REQUEST_MAX_BYTES) {
                    self.reanchor_window(range)
                } else {
                    self.fill_window(range, range.start.saturating_add(length), 0)
                }
            },
        }
    }

    /// Serves a read from the cache, or fetches what is missing.
    fn look_up(&mut self, range: ByteRange) -> (step: ReadStep)
        ensures
            (final(self)@, step@) == old(self)@.looked_up(range),
    {
        match self.cached_slice(range) {
            Some(bytes) => self.refill(range, Some(bytes)),
            None => self.fetch_missing(range),
        }
    }

    /// Goes on with a read once a finished prefetch has been taken in.
    fn settle(&mut self, range: ByteRange) -> (step: ReadStep)
        ensures
            (final(self)@, step@) == old(self)@.settled(range),
    {
        self.trim_cache(range);
        match self.cached_slice(range) {
            Some(bytes) => {
                return self.refill(range, Some(bytes));
            },
            None => {},
        }
        match self.content_length {
            Some(total) => {
                if range.start >= total {
                    return ReadStep::Done(ReadOutcome { result: Ok(Vec::new()), prefetch: None });
                }
            },
            None => {},
        }
        match self.prefetch {
            None => {},
            Some(pending) => match self.settle_prefetch_for(pending, range) {
                PrefetchDecision::Join => {
                    return ReadStep::Join(PendingRead { range, stage: ReadStage::Join });
                },
                PrefetchDecision::Drop => {
                    self.prefetch = None;
                },
                PrefetchDecision::Keep => {},
            },
        }
        self.look_up(range)
    }

    /// Takes in how the prefetch in flight has ended.
    fn settle_finished_prefetch(&mut self, outcome: Result<HttpRangeResponse, SourceError>)
        ensures
            final(self)@ == old(self)@.landed(fetch::outcome_view(outcome)),
    {
        match self.prefetch {
            Some(pending) => {
                self.prefetch = None;
                self.absorb_prefetch(pending.start, outcome);
            },
            None => {},
        }
    }

    /// Begins to read `range`.
    pub fn read_range(&mut self, range: ByteRange) -> (step: ReadStep)
        ensures
            (final(self)@, step@) == old(self)@.begun(range),
    {
        if self.prefetch.is_some() {
            ReadStep::Poll(PendingRead { range, stage: ReadStage::Settle })
        } else {
            self.settle(range)
        }
    }

    /// Takes in whether the prefetch has ended, and how.
    pub fn prefetch_polled(
        &mut self,
        read: PendingRead,
        polled: Option<Result<HttpRangeResponse, SourceError>>,
    ) -> (step: ReadStep)
        ensures
            (final(self)@, step@) == old(self)@.polled(read@, poll_view(polled)),
    {
        match polled {
            Some(outcome) => self.settle_finished_prefetch(outcome),
            None => {},
        }
        match read.stage {
            ReadStage::Refill(hit) => self.finish(read.range, hit),
            _ => self.settle(read.range),
        }
    }

    /// Takes in how the prefetch that the read waited for has ended.
    pub fn prefetch_joined(
        &mut self,
        read: PendingRead,
        outcome: Result<HttpRangeResponse, SourceError>,
    ) -> (step: ReadStep)
        ensures
            (final(self)@, step@) == old(self)@.joined(read@, fetch::outcome_view(outcome)),
    {
        self.settle_finished_prefetch(outcome);
        self.look_up(read.range)
    }

    /// Takes in that the total length has been asked for, and recorded as far as it was told.
    pub fn length_learned(&mut self, read: PendingRead) -> (step: ReadStep)
        ensures
            (final(self)@, step@) == old(self)@.measured(read@),
    {
        match read.stage {
            ReadStage::Measure(plan) => self.request(read.range, plan),
            _ => self.look_up(read.range),
        }
    }

    /// Takes in what a fetch for the read has brought.
    pub fn fetched(
        &mut self,
        read: PendingRead,
        outcome: Result<HttpRangeResponse, SourceError>,
    ) -> (step: ReadStep)
        ensures
            (final(self)@, step@) == old(self)@.fetched(read@, fetch::outcome_view(outcome)),
    {
        match outcome {
            Err(error) => ReadStep::Done(ReadOutcome { result: Err(error), prefetch: None }),
            Ok(response) => match read.stage {
                ReadStage::Fetch(plan) => {
                    let total_known: bool = self.content_length.is_some();
                    let mut bytes: Vec<u8> = self.record_fetch(response);
                    let count: usize = bytes.len();
                    match plan {
                        FetchPlan::Anchor => {
                            self.cache_start = read.range.start;
                            self.cache_bytes = bytes;
                            self.refill(read.range, None)
                        },
                        FetchPlan::Fill { end, pieces } => {
                            if count == 0 {
                                return self.refill(read.range, None);
                            }
                            self.cache_bytes.append(&mut bytes);
                            self.fill_window(read.range, end, pieces)
                        },
                        FetchPlan::Stream => {
                            self.cache_bytes.append(&mut bytes);
                            if count == 0 || (!total_known && (count as u64)
                                < HTTP_REQUEST_MAX_BYTES) {
                                self.refill(read.range, None)
                            } else {
                                self.stream_to_eof(read.range)
                            }
                        },
                    }
                },
                _ => self.look_up(read.range),
            },
        }
    }

    /// Begins to find out the total length. If it is known, that is the end of it: no request is
    /// made.
    pub fn len(&self) -> (step: LengthStep)
        ensures
            match (self@.length_step(), step) {
                (Some(wanted), _) => step@ == wanted,
                (None, LengthStep::Head(probe)) => {
                    &&& step@ == ProbeView::fresh(probe.gate.started).attempt()
                    &&& retry::present(probe.gate.started)
                },
                _ => false,
            },
    {
        match self.content_length {
            Some(total) => LengthStep::Done(Ok(Some(total))),
            None => LengthProbe::new().next_attempt(),
        }
    }

    /// Records what was found out about the total length.
    pub fn record_length(&mut self, outcome: &Result<Option<u64>, SourceError>)
        ensures
            final(self)@ == old(self)@.with_length(length::length_view(*outcome)),
    {
        match outcome {
            Ok(total) => {
                self.content_length = *total;
            },
            Err(_) => {},
        }
    }
}

/// What contracts say of a read is said of all that it holds and of its outcome as it is.
pub proof fn law_reads_are_seen_as_they_are(
    read: PendingRead,
    bytes: Vec<u8>,
    error: SourceError,
    response: HttpRangeResponse,
    piece: ByteRange,
    plan: FetchPlan,
    due: Option<ByteRange>,
)
    ensures
        read@.range == read.range,
        read@.stage == read.stage@,
        ReadStage::Settle@ == StageView::Settle,
        ReadStage::Join@ == StageView::Join,
        ReadStage::Measure(plan)@ == StageView::Measure(plan),
        ReadStage::Fetch(plan)@ == StageView::Fetch(plan),
        ReadStage::Refill(Some(bytes))@ == StageView::Refill(Some(bytes@)),
        ReadStage::Refill(None)@ == StageView::Refill(None),
        ReadStep::Poll(read)@ == ReadStepView::Poll(read@),
        ReadStep::Join(read)@ == ReadStepView::Join(read@),
        ReadStep::Learn(read)@ == ReadStepView::Learn(read@),
        ReadStep::Fetch(read, piece)@ == ReadStepView::Fetch(read@, piece),
        ReadStep::Done(ReadOutcome { result: Ok(bytes), prefetch: due })@ == ReadStepView::Done(
            Ok(bytes@),
            due,
        ),
        ReadStep::Done(ReadOutcome { result: Err(error), prefetch: due })@ == ReadStepView::Done(
            Err(error@),
            due,
        ),
        poll_view(None) is None,
        poll_view(Some(Ok(response))) == Some(Ok::<_, SourceErrorView>(response@)),
        poll_view(Some(Err(error))) == Some(Err::<ResponseView, SourceErrorView>(error@)),
{
}

} // verus!
