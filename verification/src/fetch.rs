//! Fetching one range of a resource over HTTP, resuming where an attempt broke off.
//!
//! A [`RangeFetch`] decides; its caller talks to the network. Every method that takes in an event
//! gives the next [`FetchStep`]: send a request, receive the body, wait, or stop.
use vstd::prelude::*;
use vstd::string::*;

use crate::content_range;
use crate::error::{SourceError, SourceErrorView};
use crate::headers;
use crate::headers::HeadView;
use crate::range;
use crate::range::ByteRange;
use crate::retry;
use crate::retry::{GateView, HttpFailure, HttpRetryGate};
use crate::text;

verus! {

/// The bytes fetched for one range, and the total length of the resource if the server named it.
#[derive(Debug, PartialEq, Eq)]
pub struct HttpRangeResponse {
    /// The bytes, from the start of the range on.
    pub bytes: Vec<u8>,
    /// The total length of the resource.
    pub total_length: Option<u64>,
}

/// An [`HttpRangeResponse`] with its bytes as a sequence.
pub struct ResponseView {
    pub bytes: Seq<u8>,
    pub total: Option<u64>,
}

impl View for HttpRangeResponse {
    type V = ResponseView;

    open spec fn view(&self) -> ResponseView {
        ResponseView { bytes: self.bytes@, total: self.total_length }
    }
}

/// The outcome of a fetch, in terms of sequences.
pub open spec fn outcome_view(outcome: Result<HttpRangeResponse, SourceError>) -> Result<
    ResponseView,
    SourceErrorView,
> {
    match outcome {
        Ok(response) => Ok(response@),
        Err(error) => Err(error@),
    }
}

/// Header names with their values, in terms of sequences.
pub open spec fn pairs_view(pairs: Seq<(String, String)>) -> Seq<(Seq<char>, Seq<char>)> {
    pairs.map_values(|pair: (String, String)| (pair.0@, pair.1@))
}

/// One fetch of a range: what has arrived and how often it was tried.
#[derive(Debug)]
pub struct RangeFetch {
    /// The range that is wanted.
    pub range: ByteRange,
    /// The bytes that arrived so far, from the start of the range on.
    pub bytes: Vec<u8>,
    /// The total length of the resource, once a response named it.
    pub total_length: Option<u64>,
    /// What the first response said of the version of the resource that it came from.
    pub validator: Option<String>,
    /// The attempts made so far.
    pub gate: HttpRetryGate,
}

/// What a [`RangeFetch`] wants done next.
#[derive(Debug)]
pub enum FetchStep {
    /// Send a GET request with these headers, in this order.
    Request(RangeFetch, Vec<(String, String)>),
    /// Receive the body of the response.
    Receive(RangeFetch),
    /// Wait this many milliseconds, then begin the next attempt.
    Wait(RangeFetch, u64),
    /// Stop: the fetch has ended.
    Done(Result<HttpRangeResponse, SourceError>),
}

/// A [`RangeFetch`] in terms of sequences.
pub struct FetchView {
    pub range: ByteRange,
    pub bytes: Seq<u8>,
    pub total: Option<u64>,
    pub validator: Option<Seq<char>>,
    pub gate: GateView,
}

/// A [`FetchStep`] in terms of sequences.
pub enum FetchStepView {
    Request(FetchView, Seq<(Seq<char>, Seq<char>)>),
    Receive(FetchView),
    Wait(FetchView, u64),
    Done(Result<ResponseView, SourceErrorView>),
}

impl View for RangeFetch {
    type V = FetchView;

    open spec fn view(&self) -> FetchView {
        FetchView {
            range: self.range,
            bytes: self.bytes@,
            total: self.total_length,
            validator: headers::text_view(self.validator),
            gate: self.gate@,
        }
    }
}

impl View for FetchStep {
    type V = FetchStepView;

    open spec fn view(&self) -> FetchStepView {
        match self {
            FetchStep::Request(fetch, pairs) => {
                FetchStepView::Request(fetch@, pairs_view(pairs@))
            },
            FetchStep::Receive(fetch) => FetchStepView::Receive(fetch@),
            FetchStep::Wait(fetch, ms) => FetchStepView::Wait(fetch@, *ms),
            FetchStep::Done(outcome) => FetchStepView::Done(outcome_view(*outcome)),
        }
    }
}

// ---------------------------------------------------------------------------
// The decisions
// ---------------------------------------------------------------------------
impl FetchView {
    /// A fetch of `range` that begins at `started` and has made no attempt.
    pub open spec fn fresh(range: ByteRange, started: std::time::Instant) -> FetchView {
        FetchView {
            range,
            bytes: Seq::empty(),
            total: None,
            validator: None,
            gate: GateView::fresh(started),
        }
    }

    /// Every byte that was asked for has arrived.
    pub open spec fn complete(self) -> bool {
        self.range.length matches Some(length) && self.bytes.len() >= length
    }

    /// What is still to be asked for: the range without the bytes that have arrived.
    pub open spec fn rest(self) -> ByteRange {
        ByteRange {
            start: range::saturating_sum(self.range.start, self.bytes.len() as int),
            length: match self.range.length {
                Some(length) => Some(
                    if self.bytes.len() >= length {
                        0
                    } else {
                        (length - self.bytes.len()) as u64
                    },
                ),
                None => None,
            },
        }
    }

    /// The headers of the next request: the range, the caller's own headers, and, once bytes have
    /// arrived, the condition that the resource is still the same.
    pub open spec fn request_headers(self, own: Seq<(Seq<char>, Seq<char>)>) -> Seq<
        (Seq<char>, Seq<char>),
    > {
        let asked = seq![("Range"@, range::range_header(self.rest()))] + own;
        match self.validator {
            Some(validator) if self.bytes.len() > 0 => asked.push(("If-Range"@, validator)),
            _ => asked,
        }
    }

    /// What has arrived is the outcome.
    pub open spec fn succeed(self) -> FetchStepView {
        FetchStepView::Done(Ok(ResponseView { bytes: self.bytes, total: self.total }))
    }

    /// The fetch fails with an HTTP error.
    pub open spec fn give_up(self, message: Seq<char>) -> FetchStepView {
        FetchStepView::Done(Err(SourceErrorView::Http(message)))
    }

    /// An attempt begins `elapsed_ms` after the fetch did.
    pub open spec fn attempt(
        self,
        own: Seq<(Seq<char>, Seq<char>)>,
        elapsed_ms: u128,
    ) -> FetchStepView {
        let next = FetchView { gate: self.gate.attempted(), ..self };
        if retry::over_budget(elapsed_ms) {
            next.give_up(
                "fetch budget of 120s exhausted for bytes "@ + text::decimal(
                    self.range.start as nat,
                ) + ".."@,
            )
        } else if self.complete() {
            next.succeed()
        } else {
            FetchStepView::Request(next, self.request_headers(own))
        }
    }

    /// An attempt has failed: wait and try again, or give up.
    pub open spec fn try_again(self, message: Seq<char>, elapsed_ms: u128) -> FetchStepView {
        let next = FetchView { gate: self.gate.failed(self.bytes.len() as u64), ..self };
        match next.gate.retry_after(elapsed_ms) {
            Some(ms) => FetchStepView::Wait(next, ms),
            None => next.give_up(message),
        }
    }

    /// The request was refused or the transport failed.
    pub open spec fn refused(
        self,
        retryable: bool,
        message: Seq<char>,
        elapsed_ms: u128,
    ) -> FetchStepView {
        if retryable {
            self.try_again(message, elapsed_ms)
        } else {
            self.give_up(message)
        }
    }

    /// The position that a response names as the first it serves.
    pub open spec fn served_start(head: HeadView) -> Option<u64> {
        match head.content_range {
            Some(value) => content_range::content_range_start(value),
            None => None,
        }
    }

    /// The first total and validator that responses offer are kept.
    pub open spec fn learned(self, total: Option<u64>, validator: Option<Seq<char>>) -> FetchView {
        FetchView {
            total: if self.total is Some {
                self.total
            } else {
                total
            },
            validator: if self.validator is Some {
                self.validator
            } else {
                validator
            },
            ..self
        }
    }

    /// The head of a response has arrived: its body is wanted only if it continues exactly where
    /// the bytes that are held end.
    pub open spec fn answered(self, head: HeadView) -> FetchStepView {
        let expected = self.rest().start;
        if head.status == 206 {
            match Self::served_start(head) {
                Some(start) if start != expected => self.give_up(
                    "server served range from "@ + text::decimal(start as nat) + ", expected "@
                        + text::decimal(expected as nat),
                ),
                _ => FetchStepView::Receive(
                    self.learned(
                        match head.content_range {
                            Some(value) => content_range::content_range_total(value),
                            None => None,
                        },
                        head.validator,
                    ),
                ),
            }
        } else if head.status == 200 {
            if expected > 0 {
                self.give_up("server ignored Range request (status 200)"@)
            } else {
                FetchStepView::Receive(
                    self.learned(headers::number(head.content_length), head.validator),
                )
            }
        } else {
            self.give_up(
                "unexpected HTTP status "@ + text::decimal(head.status as nat)
                    + " for Range request"@,
            )
        }
    }

    /// The bytes of a body have arrived, all of them or as many as came before `broken`.
    pub open spec fn received(
        self,
        body: Seq<u8>,
        broken: Option<Seq<char>>,
        elapsed_ms: u128,
    ) -> FetchStepView {
        let next = FetchView { bytes: self.bytes + body, ..self };
        match broken {
            None => next.succeed(),
            Some(message) => next.try_again(message, elapsed_ms),
        }
    }
}

/// Copies header names with their values.
pub fn copied_pairs(pairs: &Vec<(String, String)>) -> (copy: Vec<(String, String)>)
    ensures
        copy@ == pairs@,
{
    let mut copy: Vec<(String, String)> = Vec::new();
    let mut i: usize = 0;
    while i < pairs.len()
        invariant
            i <= pairs.len(),
            copy@ == pairs@.take(i as int),
        decreases pairs.len() - i,
    {
        copy.push((pairs[i].0.clone(), pairs[i].1.clone()));
        i = i + 1;
        assert(pairs@.take(i as int) =~= pairs@.take(i - 1).push(pairs@[i - 1]));
    }
    assert(pairs@.take(pairs@.len() as int) =~= pairs@);
    copy
}

impl RangeFetch {
    /// A fetch of `range` that begins now.
    pub fn new(range: ByteRange) -> (fetch: Self)
        ensures
            fetch@ == FetchView::fresh(range, fetch.gate.started),
            retry::present(fetch.gate.started),
    {
        RangeFetch {
            range,
            bytes: Vec::new(),
            total_length: None,
            validator: None,
            gate: HttpRetryGate::new(),
        }
    }

    /// The range without the bytes that have arrived.
    pub fn resume_range(&self) -> (rest: ByteRange)
        ensures
            rest == self@.rest(),
    {
        let received: u64 = self.bytes.len() as u64;
        ByteRange {
            start: self.range.start.saturating_add(received),
            length: match self.range.length {
                Some(length) => Some(length.saturating_sub(received)),
                None => None,
            },
        }
    }

    /// The headers of the next request.
    pub fn request_headers(&self, own: &Vec<(String, String)>) -> (pairs: Vec<(String, String)>)
        ensures
            pairs_view(pairs@) == self@.request_headers(pairs_view(own@)),
    {
        let mut pairs: Vec<(String, String)> = Vec::new();
        pairs.push(("Range".to_string(), range::http_range_header(self.resume_range())));
        let ghost first = pairs@;
        let mut tail: Vec<(String, String)> = copied_pairs(own);
        pairs.append(&mut tail);
        assert(pairs_view(pairs@) =~= pairs_view(first) + pairs_view(own@));
        assert(pairs_view(first) =~= seq![("Range"@, range::range_header(self@.rest()))]);
        if self.bytes.len() > 0 {
            match &self.validator {
                Some(validator) => {
                    let ghost asked = pairs@;
                    pairs.push(("If-Range".to_string(), validator.clone()));
                    assert(pairs_view(pairs@) =~= pairs_view(asked).push(
                        ("If-Range"@, validator@),
                    ));
                },
                None => {},
            }
        }
        pairs
    }

    /// Begins an attempt, `elapsed_ms` after the fetch began.
    pub fn next_attempt(self, own: &Vec<(String, String)>, elapsed_ms: u128) -> (step: FetchStep)
        ensures
            step@ == self@.attempt(pairs_view(own@), elapsed_ms),
    {
        let mut next: RangeFetch = self;
        let attempt: u32 = next.gate.begin_attempt();
        if retry::budget_spent(elapsed_ms) {
            let message: String = text::joined(
                text::joined_decimal(
                    "fetch budget of 120s exhausted for bytes ".to_string(),
                    next.range.start,
                ),
                "..",
            );
            return FetchStep::Done(Err(SourceError::Http(message)));
        }
        match next.range.length {
            Some(length) => {
                if next.bytes.len() as u64 >= length {
                    return FetchStep::Done(
                        Ok(
                            HttpRangeResponse {
                                bytes: next.bytes,
                                total_length: next.total_length,
                            },
                        ),
                    );
                }
            },
            None => {},
        }
        let pairs: Vec<(String, String)> = next.request_headers(own);
        FetchStep::Request(next, pairs)
    }

    /// Takes in that an attempt failed, `elapsed_ms` after the fetch began.
    fn try_again(self, message: String, elapsed_ms: u128) -> (step: FetchStep)
        ensures
            step@ == self@.try_again(message@, elapsed_ms),
    {
        let mut next: RangeFetch = self;
        match next.gate.fail_at(next.bytes.len() as u64, elapsed_ms) {
            Some(ms) => FetchStep::Wait(next, ms),
            None => FetchStep::Done(Err(SourceError::Http(message))),
        }
    }

    /// Takes in that the request produced no response, `elapsed_ms` after the fetch began.
    pub fn request_failed(self, failure: HttpFailure, elapsed_ms: u128) -> (step: FetchStep)
        ensures
            step@ == self@.refused(failure.retryable(), failure.message@, elapsed_ms),
    {
        if retry::http_error_is_retryable(&failure) {
            self.try_again(failure.message, elapsed_ms)
        } else {
            FetchStep::Done(Err(SourceError::Http(failure.message)))
        }
    }

    /// Keeps the first total and validator that a response offers.
    fn learn(
        self,
        total: Option<u64>,
        response_headers: &ureq::http::HeaderMap<ureq::http::HeaderValue>,
    ) -> (next: RangeFetch)
        ensures
            next@ == self@.learned(total, headers::entity_validator(*response_headers)),
    {
        let mut next: RangeFetch = self;
        if next.total_length.is_none() {
            next.total_length = total;
        }
        if next.validator.is_none() {
            next.validator = headers::response_entity_validator(response_headers);
        }
        next
    }

    /// Takes in the head of a response.
    pub fn response_arrived(
        self,
        status: u16,
        response_headers: &ureq::http::HeaderMap<ureq::http::HeaderValue>,
    ) -> (step: FetchStep)
        ensures
            step@ == self@.answered(headers::head_of(status, *response_headers)),
    {
        let expected: u64 = self.resume_range().start;
        if status == 206 {
            let value: Option<String> = headers::content_range_text(response_headers);
            let mut total: Option<u64> = None;
            match &value {
                Some(value) => {
                    match content_range::parse_content_range_start(value.as_str()) {
                        Some(start) => {
                            if start != expected {
                                let message: String = text::joined_decimal(
                                    text::joined(
                                        text::joined_decimal(
                                            "server served range from ".to_string(),
                                            start,
                                        ),
                                        ", expected ",
                                    ),
                                    expected,
                                );
                                return FetchStep::Done(Err(SourceError::Http(message)));
                            }
                        },
                        None => {},
                    }
                    total = content_range::parse_content_range_total(value.as_str());
                },
                None => {},
            }
            FetchStep::Receive(self.learn(total, response_headers))
        } else if status == 200 {
            if expected > 0 {
                FetchStep::Done(
                    Err(
                        SourceError::Http("server ignored Range request (status 200)".to_string()),
                    ),
                )
            } else {
                let total: Option<u64> = headers::content_length(response_headers);
                FetchStep::Receive(self.learn(total, response_headers))
            }
        } else {
            let message: String = text::joined(
                text::joined_decimal("unexpected HTTP status ".to_string(), status as u64),
                " for Range request",
            );
            FetchStep::Done(Err(SourceError::Http(message)))
        }
    }

    /// Takes in the bytes of a body, `elapsed_ms` after the fetch began: all of them, or as many
    /// as came before the transfer broke off.
    pub fn body_received(
        self,
        body: Vec<u8>,
        broken: Option<String>,
        elapsed_ms: u128,
    ) -> (step: FetchStep)
        ensures
            step@ == self@.received(body@, headers::text_view(broken), elapsed_ms),
    {
        let mut next: RangeFetch = self;
        let mut body: Vec<u8> = body;
        next.bytes.append(&mut body);
        match broken {
            None => FetchStep::Done(
                Ok(HttpRangeResponse { bytes: next.bytes, total_length: next.total_length }),
            ),
            Some(message) => next.try_again(message, elapsed_ms),
        }
    }
}

// ---------------------------------------------------------------------------
// Whole fetches
// ---------------------------------------------------------------------------
/// What came of one request.
pub enum Exchange {
    /// No response: the server refused or the transport failed.
    Refused { retryable: bool, message: Seq<char>, elapsed_ms: u128 },
    /// A response, with the bytes of its body that arrived.
    Answered { head: HeadView, body: Seq<u8>, broken: Option<Seq<char>>, elapsed_ms: u128 },
}

/// One attempt at a fetch: when it began, and what came of its request.
pub struct Attempt {
    pub began_ms: u128,
    pub exchange: Exchange,
}

impl FetchView {
    /// Where one attempt leads.
    pub open spec fn after(self, own: Seq<(Seq<char>, Seq<char>)>, attempt: Attempt) -> FetchStepView {
        match self.attempt(own, attempt.began_ms) {
            FetchStepView::Request(next, _) => match attempt.exchange {
                Exchange::Refused { retryable, message, elapsed_ms } => next.refused(
                    retryable,
                    message,
                    elapsed_ms,
                ),
                Exchange::Answered { head, body, broken, elapsed_ms } => match next.answered(head) {
                    FetchStepView::Receive(receiving) => receiving.received(
                        body,
                        broken,
                        elapsed_ms,
                    ),
                    other => other,
                },
            },
            other => other,
        }
    }

    /// Where a series of attempts leads; those after the end of the fetch are not made.
    pub open spec fn run(
        self,
        own: Seq<(Seq<char>, Seq<char>)>,
        attempts: Seq<Attempt>,
    ) -> FetchStepView
        decreases attempts.len(),
    {
        if attempts.len() == 0 {
            FetchStepView::Wait(self, 0)
        } else {
            match self.after(own, attempts[0]) {
                FetchStepView::Wait(next, _) => next.run(own, attempts.skip(1)),
                other => other,
            }
        }
    }

    /// The bytes held are those of `resource` from the start of the range on, and the total, if it
    /// is known, is its length.
    pub open spec fn agrees_with(self, resource: Seq<u8>) -> bool {
        &&& bytes_at(resource, self.range.start as int, self.bytes)
        &&& self.total matches Some(total) ==> total == resource.len()
    }

    /// The total length that a response names.
    pub open spec fn named_total(head: HeadView) -> Option<u64> {
        if head.status == 200 {
            headers::number(head.content_length)
        } else {
            match head.content_range {
                Some(value) => content_range::content_range_total(value),
                None => None,
            }
        }
    }

    /// Every body in the series holds bytes of `resource` from the position on that its response
    /// names, or that was asked for if it names none; and every total that a response names is
    /// the length of `resource`.
    pub open spec fn honest(
        self,
        own: Seq<(Seq<char>, Seq<char>)>,
        attempts: Seq<Attempt>,
        resource: Seq<u8>,
    ) -> bool
        decreases attempts.len(),
    {
        attempts.len() > 0 ==> {
            &&& attempts[0].exchange matches Exchange::Answered { head, body, .. } ==> {
                &&& bytes_at(resource, Self::served_from(head, self.rest().start) as int, body)
                &&& Self::named_total(head) matches Some(total) ==> total == resource.len()
            }
            &&& self.after(own, attempts[0]) matches FetchStepView::Wait(next, _)
                ==> next.honest(own, attempts.skip(1), resource)
        }
    }

    /// The position of the first byte of a response's body: a complete resource is served from
    /// its first byte on, a part from where the response says or else from where it was asked.
    pub open spec fn served_from(head: HeadView, asked: u64) -> u64 {
        if head.status == 200 {
            0
        } else {
            match Self::served_start(head) {
                Some(start) => start,
                None => asked,
            }
        }
    }
}

/// Whether `bytes` are the bytes of `resource` from position `at` on.
pub open spec fn bytes_at(resource: Seq<u8>, at: int, bytes: Seq<u8>) -> bool {
    bytes.len() > 0 ==> {
        &&& 0 <= at
        &&& at + bytes.len() <= resource.len()
        &&& bytes == resource.subrange(at, at + bytes.len())
    }
}

/// Bytes of a resource followed by the bytes right after them are bytes of the resource.
pub proof fn lemma_bytes_continue(resource: Seq<u8>, at: int, head: Seq<u8>, tail: Seq<u8>)
    requires
        bytes_at(resource, at, head),
        bytes_at(resource, at + head.len(), tail),
        0 <= at,
    ensures
        bytes_at(resource, at, head + tail),
{
    if (head + tail).len() > 0 {
        assert(head + tail =~= resource.subrange(at, at + (head + tail).len()));
    }
}

/// Whether the outcome of a request for the bytes from `start` on tells the truth: its bytes are
/// those of the resource, and the length it tells, if any, is that of the resource.
pub open spec fn truthful(
    outcome: Result<ResponseView, SourceErrorView>,
    start: u64,
    resource: Seq<u8>,
) -> bool {
    outcome matches Ok(response) ==> {
        &&& bytes_at(resource, start as int, response.bytes)
        &&& response.total matches Some(total) ==> total == resource.len()
    }
}

/// Whatever responses a fetch is pieced together from, and wherever they break off: if each
/// carries bytes of the resource from where it says, and names the right total if it names one,
/// then a fetch that succeeds returns bytes of the resource from the start of its range on, and
/// the right total if it returns one.
pub proof fn law_fetch_returns_the_resource(
    fetch: FetchView,
    own: Seq<(Seq<char>, Seq<char>)>,
    attempts: Seq<Attempt>,
    resource: Seq<u8>,
)
    requires
        resource.len() <= u64::MAX,
        fetch.agrees_with(resource),
        fetch.honest(own, attempts, resource),
    ensures
        fetch.run(own, attempts) matches FetchStepView::Done(outcome) ==> truthful(
            outcome,
            fetch.range.start,
            resource,
        ),
    decreases attempts.len(),
{
    if attempts.len() > 0 {
        lemma_after_agrees(fetch, own, attempts[0], resource);
        match fetch.after(own, attempts[0]) {
            FetchStepView::Wait(next, _) => {
                law_fetch_returns_the_resource(next, own, attempts.skip(1), resource);
            },
            _ => {},
        }
    }
}

/// One honest attempt leaves a fetch that agrees with the resource, or a truthful outcome.
proof fn lemma_after_agrees(
    fetch: FetchView,
    own: Seq<(Seq<char>, Seq<char>)>,
    attempt: Attempt,
    resource: Seq<u8>,
)
    requires
        resource.len() <= u64::MAX,
        fetch.agrees_with(resource),
        attempt.exchange matches Exchange::Answered { head, body, .. } ==> {
            &&& bytes_at(
                resource,
                FetchView::served_from(head, fetch.rest().start) as int,
                body,
            )
            &&& FetchView::named_total(head) matches Some(total) ==> total == resource.len()
        },
    ensures
        match fetch.after(own, attempt) {
            FetchStepView::Wait(next, _) => next.range == fetch.range && next.agrees_with(resource),
            FetchStepView::Done(outcome) => truthful(outcome, fetch.range.start, resource),
            _ => true,
        },
{
    match fetch.attempt(own, attempt.began_ms) {
        FetchStepView::Request(next, _) => {
            assert(next.rest() == fetch.rest());
            match attempt.exchange {
                Exchange::Answered { head, body, broken, elapsed_ms } => {
                    match next.answered(head) {
                        FetchStepView::Receive(receiving) => {
                            assert(FetchView::served_from(head, fetch.rest().start)
                                == fetch.rest().start);
                            lemma_bytes_continue(
                                resource,
                                fetch.range.start as int,
                                fetch.bytes,
                                body,
                            );
                        },
                        _ => {},
                    }
                },
                _ => {},
            }
        },
        _ => {},
    }
}

/// Whether `bytes` are all that was asked for, as far as the resource has them.
pub open spec fn in_full(range: ByteRange, bytes: Seq<u8>, resource: Seq<u8>) -> bool {
    ||| range.length matches Some(length) && bytes.len() >= length
    ||| range.start + bytes.len() >= resource.len()
}

impl FetchView {
    /// Every body in the series that does not break off is all that was asked for.
    pub open spec fn generous(
        self,
        own: Seq<(Seq<char>, Seq<char>)>,
        attempts: Seq<Attempt>,
        resource: Seq<u8>,
    ) -> bool
        decreases attempts.len(),
    {
        attempts.len() > 0 ==> {
            &&& attempts[0].exchange matches Exchange::Answered { body, broken, .. } ==> (broken
                is None ==> in_full(self.rest(), body, resource))
            &&& self.after(own, attempts[0]) matches FetchStepView::Wait(next, _)
                ==> next.generous(own, attempts.skip(1), resource)
        }
    }
}

/// If every body is true to the resource, and all that was asked for unless it breaks off, then a
/// fetch that succeeds returns all that it was for, as far as the resource has it.
pub proof fn law_fetch_returns_all_it_was_for(
    fetch: FetchView,
    own: Seq<(Seq<char>, Seq<char>)>,
    attempts: Seq<Attempt>,
    resource: Seq<u8>,
)
    requires
        resource.len() <= u64::MAX,
        fetch.agrees_with(resource),
        fetch.honest(own, attempts, resource),
        fetch.generous(own, attempts, resource),
    ensures
        fetch.run(own, attempts) matches FetchStepView::Done(Ok(response)) ==> in_full(
            fetch.range,
            response.bytes,
            resource,
        ),
    decreases attempts.len(),
{
    if attempts.len() > 0 {
        match fetch.after(own, attempts[0]) {
            FetchStepView::Wait(next, _) => {
                lemma_after_agrees(fetch, own, attempts[0], resource);
                law_fetch_returns_all_it_was_for(next, own, attempts.skip(1), resource);
            },
            _ => {},
        }
    }
}

/// A fetch ends within its allowed number of attempts.
pub proof fn law_fetch_ends(
    fetch: FetchView,
    own: Seq<(Seq<char>, Seq<char>)>,
    attempts: Seq<Attempt>,
)
    requires
        attempts.len() > 0,
        fetch.gate.attempts + attempts.len() >= retry::HTTP_FETCH_MAX_RESUME_ATTEMPTS,
    ensures
        fetch.run(own, attempts) is Done,
    decreases attempts.len(),
{
    match fetch.after(own, attempts[0]) {
        FetchStepView::Wait(next, _) => {
            assert(next.gate.attempts == fetch.gate.attempts + 1);
            law_fetch_ends(next, own, attempts.skip(1));
        },
        _ => {},
    }
}

/// The clock of a fetch runs on from the first attempt to the last: no attempt restarts it.
pub proof fn law_no_attempt_restarts_the_clock(
    fetch: FetchView,
    own: Seq<(Seq<char>, Seq<char>)>,
    attempts: Seq<Attempt>,
)
    ensures
        fetch.run(own, attempts) matches FetchStepView::Wait(next, _) ==> next.gate.started
            == fetch.gate.started,
    decreases attempts.len(),
{
    if attempts.len() > 0 {
        match fetch.after(own, attempts[0]) {
            FetchStepView::Wait(next, _) => {
                law_no_attempt_restarts_the_clock(next, own, attempts.skip(1));
            },
            _ => {},
        }
    }
}

/// A request asks for exactly the bytes that have not arrived: it begins where the bytes held
/// end, and ends where the range ends.
pub proof fn law_requests_resume_where_the_bytes_end(
    fetch: FetchView,
    own: Seq<(Seq<char>, Seq<char>)>,
    elapsed_ms: u128,
)
    requires
        fetch.range.start + fetch.bytes.len() <= u64::MAX,
        fetch.attempt(own, elapsed_ms) is Request,
    ensures
        fetch.attempt(own, elapsed_ms)->Request_1[0] == ("Range"@, range::range_header(
            fetch.rest(),
        )),
        fetch.rest().start == fetch.range.start + fetch.bytes.len(),
        fetch.range.length matches Some(length) ==> {
            &&& fetch.rest().length matches Some(left) && left > 0
            &&& fetch.rest().start + fetch.rest().length->0 == fetch.range.start + length
        },
{
}

/// Once a response has named the version of the resource, every later response is held to it:
/// the version stays the same, and every request that resumes is sent on condition of it.
pub proof fn law_resumed_requests_are_bound_to_the_first_version(
    fetch: FetchView,
    own: Seq<(Seq<char>, Seq<char>)>,
    attempt: Attempt,
    validator: Seq<char>,
)
    requires
        fetch.validator == Some(validator),
    ensures
        fetch.after(own, attempt) matches FetchStepView::Wait(next, _) ==> next.validator == Some(
            validator,
        ),
        fetch.attempt(own, attempt.began_ms) matches FetchStepView::Request(next, pairs)
            ==> fetch.bytes.len() > 0 ==> pairs.last() == ("If-Range"@, validator),
{
}

/// A response that does not continue where the bytes held end never adds to them: neither a part
/// from elsewhere nor the whole resource once the fetch is past its first byte.
pub proof fn law_misplaced_bodies_are_refused(fetch: FetchView, head: HeadView)
    requires
        FetchView::served_from(head, fetch.rest().start) != fetch.rest().start,
    ensures
        fetch.answered(head) matches FetchStepView::Done(Err(_)),
{
}

/// A refusal that will be repeated ends the fetch at once.
pub proof fn law_lasting_refusals_are_not_retried(
    fetch: FetchView,
    message: Seq<char>,
    elapsed_ms: u128,
)
    ensures
        fetch.refused(false, message, elapsed_ms) == FetchStepView::Done(
            Err(SourceErrorView::Http(message)),
        ),
{
}

/// A fetch begins with its range and nothing else.
pub proof fn law_fetches_begin_with_no_bytes(range: ByteRange, started: std::time::Instant)
    ensures
        ({
            let fetch = FetchView::fresh(range, started);
            &&& fetch.range == range
            &&& fetch.bytes.len() == 0
            &&& fetch.total is None
            &&& fetch.validator is None
            &&& fetch.gate == GateView::fresh(started)
        }),
{
}

/// An attempt that begins in time and lacks bytes sends a request: for the bytes from the end of
/// those held to the end of the range, with all of the caller's own headers in their order, and, once
/// bytes are held of a version that is known, on condition of that version; with nothing else.
pub proof fn law_requests_say_what_is_wanted(
    fetch: FetchView,
    own: Seq<(Seq<char>, Seq<char>)>,
    elapsed_ms: u128,
    i: int,
)
    requires
        elapsed_ms < 120_000,
        fetch.range.start + fetch.bytes.len() <= u64::MAX,
        fetch.range.length matches Some(length) ==> fetch.bytes.len() < length
            && fetch.range.start + length <= u64::MAX,
        fetch.gate.attempts < u32::MAX,
    ensures
        fetch.attempt(own, elapsed_ms) matches FetchStepView::Request(next, pairs) && {
            let bound = fetch.bytes.len() > 0 && fetch.validator is Some;
            &&& next.gate.attempts == fetch.gate.attempts + 1
            &&& next == (FetchView { gate: next.gate, ..fetch })
            &&& pairs.len() == own.len() + if bound {
                2int
            } else {
                1int
            }
            &&& pairs[0].0 == "Range"@
            &&& text::after_prefix(pairs[0].1, "bytes="@) matches Some(asked)
            &&& text::split_at_first(asked, '-') matches Some((first, last))
            &&& text::u64_value(first) == Some((fetch.range.start + fetch.bytes.len()) as u64)
            &&& fetch.range.length is None ==> last.len() == 0
            &&& fetch.range.length matches Some(length) ==> text::u64_value(last) == Some(
                (fetch.range.start + length - 1) as u64,
            )
            &&& 0 <= i < own.len() ==> pairs[1 + i] == own[i]
            &&& bound ==> pairs.last() == ("If-Range"@, fetch.validator->0)
        },
{
    range::law_range_headers_name_the_bytes(fetch.rest());
}

/// An attempt that begins too late ends the fetch with an error that names its range; one that
/// begins in time with every byte held ends it with those bytes and the total.
pub proof fn law_attempts_end_in_time(
    fetch: FetchView,
    own: Seq<(Seq<char>, Seq<char>)>,
    elapsed_ms: u128,
)
    ensures
        elapsed_ms >= 120_000 ==> fetch.attempt(own, elapsed_ms) == FetchStepView::Done(
            Err(
                SourceErrorView::Http(
                    "fetch budget of 120s exhausted for bytes "@ + text::decimal(
                        fetch.range.start as nat,
                    ) + ".."@,
                ),
            ),
        ),
        elapsed_ms < 120_000 ==> (fetch.range.length matches Some(length) ==> (fetch.bytes.len()
            >= length ==> fetch.attempt(own, elapsed_ms) == FetchStepView::Done(
            Ok(ResponseView { bytes: fetch.bytes, total: fetch.total }),
        ))),
{
}

/// A response that continues where the bytes held end is received: a part that says so or says
/// nothing of its place, and the whole resource while the fetch is at its first byte. The total and
/// the version that it names are kept, unless they were known.
pub proof fn law_well_placed_bodies_are_received(
    fetch: FetchView,
    head: HeadView,
    end: u64,
    n: u64,
)
    requires
        fetch.range.start + fetch.bytes.len() <= u64::MAX,
    ensures
        ({
            let place = (fetch.range.start + fetch.bytes.len()) as u64;
            let kept = |total: Option<u64>|
                FetchStepView::Receive(
                    FetchView {
                        total: if fetch.total is None {
                            total
                        } else {
                            fetch.total
                        },
                        validator: if fetch.validator is None {
                            head.validator
                        } else {
                            fetch.validator
                        },
                        ..fetch
                    },
                );
            &&& head.status == 206 ==> {
                &&& head.content_range == Some(content_range::content_range(place, end, n))
                    ==> fetch.answered(head) == kept(Some(n))
                &&& head.content_range == Some(
                    content_range::content_range_of_unknown_total(place, end),
                ) ==> fetch.answered(head) == kept(None)
                &&& head.content_range is None ==> fetch.answered(head) == kept(None)
                &&& head.content_range matches Some(value) ==> (content_range::content_range_start(
                    value,
                ) is None ==> fetch.answered(head) == kept(
                    content_range::content_range_total(value),
                ))
            }
            &&& head.status == 200 && place == 0 ==> {
                &&& head.content_length == Some(text::decimal(n as nat)) ==> fetch.answered(head)
                    == kept(Some(n))
                &&& head.content_length is None ==> fetch.answered(head) == kept(None)
            }
        }),
{
    let place = (fetch.range.start + fetch.bytes.len()) as u64;
    content_range::law_content_range_reads_back(place, end, n);
    content_range::law_unknown_total_is_none(place, end);
    text::law_u64_round_trip(n);
}

/// A response that cannot be used ends the fetch with an error that says why: what it serves and
/// what was expected, that it serves everything, or which status it has.
pub proof fn law_unusable_responses_are_explained(
    fetch: FetchView,
    head: HeadView,
    start: u64,
    end: u64,
    n: u64,
)
    requires
        fetch.range.start + fetch.bytes.len() <= u64::MAX,
    ensures
        ({
            let place = fetch.range.start + fetch.bytes.len();
            let failed = |message: Seq<char>|
                FetchStepView::Done(Err(SourceErrorView::Http(message)));
            &&& head.status == 206 && start != place && head.content_range == Some(
                content_range::content_range(start, end, n),
            ) ==> fetch.answered(head) == failed(
                "server served range from "@ + text::decimal(start as nat) + ", expected "@
                    + text::decimal(place as nat),
            )
            &&& head.status == 200 && place > 0 ==> fetch.answered(head) == failed(
                "server ignored Range request (status 200)"@,
            )
            &&& head.status != 206 && head.status != 200 ==> fetch.answered(head) == failed(
                "unexpected HTTP status "@ + text::decimal(head.status as nat)
                    + " for Range request"@,
            )
        }),
{
    content_range::law_content_range_reads_back(start, end, n);
}

/// A body that arrives whole ends the fetch with the bytes held and those of the body after them,
/// and the total that was named; nothing of either is left out.
pub proof fn law_whole_bodies_end_the_fetch(fetch: FetchView, body: Seq<u8>, elapsed_ms: u128)
    ensures
        fetch.received(body, None, elapsed_ms) == FetchStepView::Done(
            Ok(ResponseView { bytes: fetch.bytes + body, total: fetch.total }),
        ),
{
}

/// A body that breaks off leaves all of its bytes that arrived, and a request that fails in a way
/// that may pass leaves what was held: the fetch goes on with them after a wait, as long as attempts
/// and time are left, and otherwise ends with the reason of the last failure.
pub proof fn law_broken_attempts_keep_what_arrived(
    fetch: FetchView,
    body: Seq<u8>,
    message: Seq<char>,
    elapsed_ms: u128,
)
    requires
        fetch.bytes.len() + body.len() <= u64::MAX,
    ensures
        ({
            let held = fetch.bytes.len() + body.len();
            let wait: int = if fetch.gate.attempts <= 1 {
                200
            } else {
                1_000
            };
            let left = {
                &&& held > fetch.gate.last_bytes || fetch.gate.stalls < 2
                &&& fetch.gate.attempts < 8
                &&& elapsed_ms + wait < 120_000
            };
            &&& match fetch.received(body, Some(message), elapsed_ms) {
                FetchStepView::Wait(next, ms) => {
                    &&& left
                    &&& ms == wait
                    &&& next.bytes == fetch.bytes + body
                    &&& next == (FetchView { bytes: next.bytes, gate: next.gate, ..fetch })
                    &&& next.gate.attempts == fetch.gate.attempts
                },
                FetchStepView::Done(outcome) => !left && outcome == Err::<
                    ResponseView,
                    SourceErrorView,
                >(SourceErrorView::Http(message)),
                _ => false,
            }
            &&& body.len() == 0 ==> fetch.refused(true, message, elapsed_ms) == fetch.received(
                body,
                Some(message),
                elapsed_ms,
            )
        }),
{
    if body.len() == 0 {
        assert(fetch.bytes + body =~= fetch.bytes);
    }
}

/// What contracts say of a fetch is said of all that it holds and of its outcome as it is.
pub proof fn law_fetches_are_seen_as_they_are(
    fetch: RangeFetch,
    response: HttpRangeResponse,
    error: SourceError,
    pairs: Seq<(String, String)>,
    ms: u64,
    i: int,
)
    ensures
        fetch@.range == fetch.range,
        fetch@.bytes == fetch.bytes@,
        fetch@.total == fetch.total_length,
        fetch.validator matches Some(validator) ==> fetch@.validator == Some(validator@),
        fetch.validator is None ==> fetch@.validator is None,
        fetch@.gate == fetch.gate@,
        response@.bytes == response.bytes@,
        response@.total == response.total_length,
        outcome_view(Ok(response)) == Ok::<_, SourceErrorView>(response@),
        outcome_view(Err(error)) == Err::<ResponseView, SourceErrorView>(error@),
        FetchStep::Receive(fetch)@ == FetchStepView::Receive(fetch@),
        FetchStep::Wait(fetch, ms)@ == FetchStepView::Wait(fetch@, ms),
        FetchStep::Done(Ok(response))@ == FetchStepView::Done(Ok(response@)),
        FetchStep::Done(Err(error))@ == FetchStepView::Done(Err(error@)),
        pairs_view(pairs).len() == pairs.len(),
        0 <= i < pairs.len() ==> pairs_view(pairs)[i] == (pairs[i].0@, pairs[i].1@),
{
}

} // verus!
