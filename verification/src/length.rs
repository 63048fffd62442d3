//! Learning the total length of a resource over HTTP.
//!
//! A HEAD request is tried first. Servers that reject HEAD, or that answer it with a length of
//! zero, are asked for one byte instead: the headers of that response carry the total, and its
//! body is never read.
use vstd::prelude::*;
use vstd::string::*;

use crate::content_range;
use crate::error::{SourceError, SourceErrorView};
use crate::fetch;
use crate::headers;
use crate::headers::HeadView;
use crate::range;
use crate::range::ByteRange;
use crate::retry;
use crate::retry::{GateView, HttpFailure, HttpRetryGate};
use crate::text;

verus! {

/// The outcome of learning a length, in terms of sequences.
pub open spec fn length_view(outcome: Result<Option<u64>, SourceError>) -> Result<
    Option<u64>,
    SourceErrorView,
> {
    match outcome {
        Ok(total) => Ok(total),
        Err(error) => Err(error@),
    }
}

/// The headers of a request for the first byte.
pub fn probe_request_headers(own: &Vec<(String, String)>) -> (pairs: Vec<(String, String)>)
    ensures
        fetch::pairs_view(pairs@) == seq![("Range"@, "bytes=0-0"@)] + fetch::pairs_view(own@),
{
    let mut pairs: Vec<(String, String)> = Vec::new();
    let one_byte: ByteRange = ByteRange { start: 0, length: Some(1) };
    pairs.push(("Range".to_string(), range::http_range_header(one_byte)));
    proof {
        reveal_strlit("bytes=");
        reveal_strlit("-");
        reveal_strlit("bytes=0-0");
        assert(text::decimal(0) =~= seq!['0']);
        assert(range::range_header(one_byte) =~= "bytes=0-0"@);
    }
    let ghost first = pairs@;
    let mut tail: Vec<(String, String)> = fetch::copied_pairs(own);
    pairs.append(&mut tail);
    assert(fetch::pairs_view(pairs@) =~= fetch::pairs_view(first) + fetch::pairs_view(own@));
    assert(fetch::pairs_view(first) =~= seq![("Range"@, "bytes=0-0"@)]);
    pairs
}

/// The total length that the answer to a request for one byte names.
///
/// A server that ignores the range sends the whole resource, and its length is the total. A
/// server that refuses the range may still name the total.
pub open spec fn probed_total(head: HeadView) -> Result<Option<u64>, SourceErrorView> {
    if head.status == 206 || head.status == 416 {
        match head.content_range {
            Some(value) => Ok(content_range::content_range_total(value)),
            None => Ok(None),
        }
    } else if head.status == 200 {
        match head.content_length {
            Some(value) => Ok(text::u64_value(text::trim(value))),
            None => Ok(None),
        }
    } else if head.status >= 400 {
        Err(SourceErrorView::Http("http status: "@ + text::decimal(head.status as nat)))
    } else {
        Ok(None)
    }
}

/// Reads the total length off the answer to a request for one byte.
pub fn probe_http_total_length(
    status: u16,
    response_headers: &ureq::http::HeaderMap<ureq::http::HeaderValue>,
) -> (outcome: Result<Option<u64>, SourceError>)
    ensures
        length_view(outcome) == probed_total(headers::head_of(status, *response_headers)),
{
    if status == 206 || status == 416 {
        match headers::content_range_text(response_headers) {
            Some(value) => Ok(content_range::parse_content_range_total(value.as_str())),
            None => Ok(None),
        }
    } else if status == 200 {
        match headers::content_length_text(response_headers) {
            Some(value) => {
                let chars: Vec<char> = text::chars_of(value.as_str());
                Ok(text::parse_u64(text::trimmed(chars.as_slice())))
            },
            None => Ok(None),
        }
    } else if status >= 400 {
        Err(
            SourceError::Http(
                text::joined_decimal("http status: ".to_string(), status as u64),
            ),
        )
    } else {
        Ok(None)
    }
}

/// The attempts made at learning a length.
#[derive(Debug)]
pub struct LengthProbe {
    /// The HEAD requests made so far.
    pub gate: HttpRetryGate,
    /// Why HEAD failed, once it has; `None` while it has not, or has answered zero.
    pub head_error: Option<String>,
}

/// What a [`LengthProbe`] wants done next.
#[derive(Debug)]
pub enum LengthStep {
    /// Send a HEAD request with the caller's own headers.
    Head(LengthProbe),
    /// Wait this many milliseconds, then begin the next attempt.
    Wait(LengthProbe, u64),
    /// Ask for the first byte, and read nothing but the headers of the response.
    FirstByte(LengthProbe),
    /// Stop: this is the outcome.
    Done(Result<Option<u64>, SourceError>),
}

/// A [`LengthProbe`] in terms of sequences.
pub struct ProbeView {
    pub gate: GateView,
    pub head_error: Option<Seq<char>>,
}

/// A [`LengthStep`] in terms of sequences.
pub enum LengthStepView {
    Head(ProbeView),
    Wait(ProbeView, u64),
    FirstByte(ProbeView),
    Done(Result<Option<u64>, SourceErrorView>),
}

impl View for LengthProbe {
    type V = ProbeView;

    open spec fn view(&self) -> ProbeView {
        ProbeView { gate: self.gate@, head_error: headers::text_view(self.head_error) }
    }
}

impl View for LengthStep {
    type V = LengthStepView;

    open spec fn view(&self) -> LengthStepView {
        match self {
            LengthStep::Head(probe) => LengthStepView::Head(probe@),
            LengthStep::Wait(probe, ms) => LengthStepView::Wait(probe@, *ms),
            LengthStep::FirstByte(probe) => LengthStepView::FirstByte(probe@),
            LengthStep::Done(outcome) => LengthStepView::Done(length_view(*outcome)),
        }
    }
}

impl ProbeView {
    /// A search that begins at `started`; nothing has been tried.
    pub open spec fn fresh(started: std::time::Instant) -> ProbeView {
        ProbeView { gate: GateView::fresh(started), head_error: None }
    }

    /// A HEAD request goes out.
    pub open spec fn attempt(self) -> LengthStepView {
        LengthStepView::Head(ProbeView { gate: self.gate.attempted(), ..self })
    }

    /// HEAD was answered. Servers are known to report an empty HEAD body as the length of the
    /// media, so zero is not believed.
    pub open spec fn answered(self, length: Option<u64>) -> LengthStepView {
        if length == Some(0u64) {
            LengthStepView::FirstByte(self)
        } else {
            LengthStepView::Done(Ok(length))
        }
    }

    /// HEAD failed: try it again, or ask for the first byte. It has no body, so no attempt makes
    /// progress.
    pub open spec fn refused(
        self,
        retryable: bool,
        message: Seq<char>,
        elapsed_ms: u128,
    ) -> LengthStepView {
        let failed = ProbeView { gate: self.gate.failed(0), ..self };
        if retryable && failed.gate.retry_after(elapsed_ms) is Some {
            LengthStepView::Wait(failed, failed.gate.retry_after(elapsed_ms)->0)
        } else if retryable {
            LengthStepView::FirstByte(ProbeView { head_error: Some(message), ..failed })
        } else {
            LengthStepView::FirstByte(ProbeView { head_error: Some(message), ..self })
        }
    }

    /// The first byte was asked for.
    pub open spec fn probed(self, outcome: Result<Option<u64>, SourceErrorView>) -> LengthStepView {
        match outcome {
            Ok(total) => LengthStepView::Done(Ok(total)),
            Err(error) => match self.head_error {
                Some(message) => LengthStepView::Done(Err(SourceErrorView::Http(message))),
                None => LengthStepView::Done(
                    Err(
                        SourceErrorView::Http(
                            "HEAD reported Content-Length: 0 and range probe failed: "@
                                + error.message(),
                        ),
                    ),
                ),
            },
        }
    }
}

impl LengthProbe {
    /// Nothing has been tried yet.
    pub fn new() -> (probe: Self)
        ensures
            probe@ == ProbeView::fresh(probe.gate.started),
            retry::present(probe.gate.started),
    {
        LengthProbe { gate: HttpRetryGate::new(), head_error: None }
    }

    /// Begins an attempt.
    pub fn next_attempt(self) -> (step: LengthStep)
        ensures
            step@ == self@.attempt(),
    {
        let mut next: LengthProbe = self;
        let attempt: u32 = next.gate.begin_attempt();
        LengthStep::Head(next)
    }

    /// Takes in the answer to a HEAD request.
    pub fn head_arrived(
        self,
        response_headers: &ureq::http::HeaderMap<ureq::http::HeaderValue>,
    ) -> (step: LengthStep)
        ensures
            step@ == self@.answered(
                headers::number(headers::field(*response_headers, "content-length"@)),
            ),
    {
        match headers::content_length(response_headers) {
            Some(length) => {
                if length == 0 {
                    LengthStep::FirstByte(self)
                } else {
                    LengthStep::Done(Ok(Some(length)))
                }
            },
            None => LengthStep::Done(Ok(None)),
        }
    }

    /// Takes in that a HEAD request failed, `elapsed_ms` after the first attempt began.
    pub fn head_failed(self, failure: HttpFailure, elapsed_ms: u128) -> (step: LengthStep)
        ensures
            step@ == self@.refused(failure.retryable(), failure.message@, elapsed_ms),
    {
        let mut next: LengthProbe = self;
        if retry::http_error_is_retryable(&failure) {
            match next.gate.fail_at(0, elapsed_ms) {
                Some(ms) => {
                    return LengthStep::Wait(next, ms);
                },
                None => {},
            }
        }
        next.head_error = Some(failure.message);
        LengthStep::FirstByte(next)
    }

    /// Takes in what the request for the first byte brought.
    pub fn first_byte_probed(self, outcome: Result<Option<u64>, SourceError>) -> (step: LengthStep)
        ensures
            step@ == self@.probed(length_view(outcome)),
    {
        match outcome {
            Ok(total) => LengthStep::Done(Ok(total)),
            Err(error) => match self.head_error {
                Some(message) => LengthStep::Done(Err(SourceError::Http(message))),
                None => {
                    let reason: String = error.message();
                    let message: String = text::joined(
                        "HEAD reported Content-Length: 0 and range probe failed: ".to_string(),
                        reason.as_str(),
                    );
                    LengthStep::Done(Err(SourceError::Http(message)))
                },
            },
        }
    }
}

/// A HEAD request that failed: whether it is worth repeating, why, and when.
pub struct HeadFailure {
    pub retryable: bool,
    pub message: Seq<char>,
    pub elapsed_ms: u128,
}

impl ProbeView {
    /// Where a series of failed HEAD requests leads; none is made after HEAD is given up.
    pub open spec fn after_failures(self, failures: Seq<HeadFailure>) -> LengthStepView
        decreases failures.len(),
    {
        if failures.len() == 0 {
            LengthStepView::Wait(self, 0)
        } else {
            let tried = ProbeView { gate: self.gate.attempted(), ..self };
            match tried.refused(
                failures[0].retryable,
                failures[0].message,
                failures[0].elapsed_ms,
            ) {
                LengthStepView::Wait(next, _) => next.after_failures(failures.skip(1)),
                other => other,
            }
        }
    }
}

/// HEAD is given up for a request of the first byte after a few failures, and the last of them is
/// remembered as the reason.
pub proof fn law_failing_head_falls_back(probe: ProbeView, failures: Seq<HeadFailure>)
    requires
        failures.len() > 0,
        probe.gate.stalls + failures.len() >= retry::HTTP_FETCH_MAX_ATTEMPTS,
    ensures
        probe.after_failures(failures) matches LengthStepView::FirstByte(next) && exists|i: int|
            0 <= i < failures.len() && next.head_error == Some((#[trigger] failures[i]).message),
    decreases failures.len(),
{
    let tried = ProbeView { gate: probe.gate.attempted(), ..probe };
    match tried.refused(failures[0].retryable, failures[0].message, failures[0].elapsed_ms) {
        LengthStepView::Wait(next, _) => {
            law_failing_head_falls_back(next, failures.skip(1));
            let last = next.after_failures(failures.skip(1))->FirstByte_0;
            let i = choose|i: int|
                0 <= i < failures.skip(1).len() && last.head_error == Some(
                    (#[trigger] failures.skip(1)[i]).message,
                );
            assert(failures.skip(1)[i] == failures[i + 1]);
        },
        _ => {
            assert(probe.after_failures(failures)->FirstByte_0.head_error == Some(
                failures[0].message,
            ));
        },
    }
}

/// A length of zero is never taken from HEAD alone.
pub proof fn law_zero_from_head_is_verified(probe: ProbeView, length: Option<u64>)
    ensures
        probe.answered(length) != LengthStepView::Done(Ok(Some(0u64))),
        length == Some(0u64) ==> probe.answered(length) == LengthStepView::FirstByte(probe),
{
}

/// A refused request for the first byte is an error, unless the refusal names the total.
pub proof fn law_refused_probe_is_an_error(head: HeadView)
    requires
        head.status >= 400,
        head.status != 416,
    ensures
        probed_total(head) is Err,
{
}

/// The length that HEAD names is the answer, whatever it is but zero; and if HEAD names none, that
/// none is known is the answer.
pub proof fn law_the_length_that_head_names_is_the_answer(probe: ProbeView, n: u64)
    ensures
        n > 0 ==> probe.answered(Some(n)) == LengthStepView::Done(Ok(Some(n))),
        probe.answered(None) == LengthStepView::Done(Ok(None)),
        n > 0 ==> probe.answered(headers::number(Some(text::decimal(n as nat))))
            == LengthStepView::Done(Ok(Some(n))),
        probe.answered(headers::number(None)) == LengthStepView::Done(Ok(None)),
{
    text::law_u64_round_trip(n);
}

/// The total that the answer to a request for one byte names is read off it: after the range that
/// it serves, after the range that it refuses, or as the length of the whole resource. The outcome
/// of that request is the outcome of the search.
pub proof fn law_the_total_that_the_first_byte_names_is_the_answer(
    probe: ProbeView,
    head: HeadView,
    start: u64,
    end: u64,
    n: u64,
    before: Seq<char>,
    after: Seq<char>,
)
    requires
        text::blank(before),
        text::blank(after),
    ensures
        head.status == 206 || head.status == 416 ==> {
            &&& head.content_range == Some(content_range::content_range(start, end, n))
                ==> probe.probed(probed_total(head)) == LengthStepView::Done(Ok(Some(n)))
            &&& head.content_range == Some(content_range::unsatisfied_content_range(n))
                ==> probe.probed(probed_total(head)) == LengthStepView::Done(Ok(Some(n)))
            &&& head.content_range == Some(
                content_range::content_range_of_unknown_total(start, end),
            ) ==> probe.probed(probed_total(head)) == LengthStepView::Done(Ok(None))
            &&& head.content_range is None ==> probe.probed(probed_total(head))
                == LengthStepView::Done(Ok(None))
        },
        head.status == 200 ==> {
            &&& head.content_length == Some(text::decimal(n as nat)) ==> probe.probed(
                probed_total(head),
            ) == LengthStepView::Done(Ok(Some(n)))
            &&& head.content_length == Some(before + text::decimal(n as nat) + after)
                ==> probe.probed(probed_total(head)) == LengthStepView::Done(Ok(Some(n)))
            &&& head.content_length is None ==> probe.probed(probed_total(head))
                == LengthStepView::Done(Ok(None))
        },
        head.status < 400 && head.status != 206 && head.status != 200 ==> probe.probed(
            probed_total(head),
        ) == LengthStepView::Done(Ok(None)),
{
    content_range::law_content_range_reads_back(start, end, n);
    content_range::law_unknown_total_is_none(start, end);
    content_range::law_unsatisfied_range_names_no_start(n);
    text::law_u64_round_trip(n);
    text::law_decimal_reads_back(n as nat);
    let digits = text::decimal(n as nat);
    assert(text::is_digit(digits[0]) && text::is_digit(digits.last()));
    text::lemma_trim_of_trimmed(digits);
    text::law_trimming_removes_what_is_around(before, digits, after);
}

/// If the request for the first byte fails as well, the search fails with the reason why HEAD did;
/// where HEAD did not fail, with the reason why that request did.
pub proof fn law_searches_fail_with_the_first_reason(
    probe: ProbeView,
    error: SourceErrorView,
    head: HeadView,
)
    ensures
        probe.head_error matches Some(message) ==> probe.probed(Err(error))
            == LengthStepView::Done(Err(SourceErrorView::Http(message))),
        probe.head_error is None ==> probe.probed(Err(error)) == LengthStepView::Done(
            Err(
                SourceErrorView::Http(
                    "HEAD reported Content-Length: 0 and range probe failed: "@ + error.message(),
                ),
            ),
        ),
        head.status >= 400 && head.status != 416 ==> probed_total(head) == Err::<
            Option<u64>,
            SourceErrorView,
        >(SourceErrorView::Http("http status: "@ + text::decimal(head.status as nat))),
{
}

/// A HEAD request that fails in a way that may pass is repeated as long as attempts and time are
/// left; one that fails for good is not, and the first byte is asked for at once.
pub proof fn law_passing_failures_of_head_are_repeated(
    probe: ProbeView,
    message: Seq<char>,
    elapsed_ms: u128,
)
    ensures
        ({
            let wait: int = if probe.gate.attempts <= 1 {
                200
            } else {
                1_000
            };
            let left = probe.gate.stalls < 2 && probe.gate.attempts < 8 && elapsed_ms + wait
                < 120_000;
            match probe.refused(true, message, elapsed_ms) {
                LengthStepView::Wait(next, ms) => {
                    &&& left
                    &&& ms == wait
                    &&& next.gate.stalls == probe.gate.stalls + 1
                    &&& next.gate.attempts == probe.gate.attempts
                    &&& next.gate.started == probe.gate.started
                    &&& next.head_error == probe.head_error
                },
                LengthStepView::FirstByte(next) => !left && next.head_error == Some(message),
                _ => false,
            }
        }),
        probe.refused(false, message, elapsed_ms) matches LengthStepView::FirstByte(next)
            && next.head_error == Some(message),
{
}

/// Every search begins with HEAD, and every attempt is counted.
pub proof fn law_searches_begin_with_head(probe: ProbeView, started: std::time::Instant)
    requires
        probe.gate.attempts < u32::MAX,
    ensures
        probe.attempt() matches LengthStepView::Head(next) && {
            &&& next.gate.attempts == probe.gate.attempts + 1
            &&& next.gate.stalls == probe.gate.stalls
            &&& next.gate.started == probe.gate.started
            &&& next.head_error == probe.head_error
        },
        ProbeView::fresh(started).head_error is None,
        ProbeView::fresh(started).gate == GateView::fresh(started),
{
}

/// What contracts say of a search is said of all that it holds and of its outcome as it is.
pub proof fn law_searches_are_seen_as_they_are(
    probe: LengthProbe,
    ms: u64,
    n: Option<u64>,
    error: SourceError,
)
    ensures
        probe@.gate == probe.gate@,
        probe.head_error matches Some(message) ==> probe@.head_error == Some(message@),
        probe.head_error is None ==> probe@.head_error is None,
        length_view(Ok(n)) == Ok::<_, SourceErrorView>(n),
        length_view(Err(error)) == Err::<Option<u64>, SourceErrorView>(error@),
        LengthStep::Head(probe)@ == LengthStepView::Head(probe@),
        LengthStep::Wait(probe, ms)@ == LengthStepView::Wait(probe@, ms),
        LengthStep::FirstByte(probe)@ == LengthStepView::FirstByte(probe@),
        LengthStep::Done(Ok(n))@ == LengthStepView::Done(Ok(n)),
        LengthStep::Done(Err(error))@ == LengthStepView::Done(Err(error@)),
{
}

/// A request for the first byte asks for that byte and sends all of the caller's own headers along, in
/// their order.
pub proof fn law_probes_carry_the_callers_headers(
    own: Vec<(String, String)>,
    pairs: Vec<(String, String)>,
    i: int,
)
    requires
        call_ensures(probe_request_headers, (&own,), pairs),
    ensures
        pairs@.len() == own@.len() + 1,
        pairs@[0].0@ == "Range"@ && pairs@[0].1@ == "bytes=0-0"@,
        0 <= i < own@.len() ==> pairs@[i + 1].0@ == own@[i].0@ && pairs@[i + 1].1@ == own@[i].1@,
{
    let sent = fetch::pairs_view(pairs@);
    let theirs = fetch::pairs_view(own@);
    assert(sent == seq![("Range"@, "bytes=0-0"@)] + theirs);
    assert(sent.len() == pairs@.len() && theirs.len() == own@.len());
    assert(sent[0] == (pairs@[0].0@, pairs@[0].1@));
    if 0 <= i < own@.len() {
        assert(sent[i + 1] == theirs[i]);
        assert(sent[i + 1] == (pairs@[i + 1].0@, pairs@[i + 1].1@));
    }
}

} // verus!
