//! When a failed HTTP exchange is worth another attempt.
use vstd::prelude::*;

verus! {

/// Attempts in a row that may bring no new byte before a fetch gives up.
pub const HTTP_FETCH_MAX_ATTEMPTS: u32 = 3;

/// Attempts that one fetch may make in all, however much each of them brings.
pub const HTTP_FETCH_MAX_RESUME_ATTEMPTS: u32 = 8;

/// Milliseconds that one fetch may take, waiting included.
///
/// The ceiling is enforced between attempts: an attempt that began in time may still run on to
/// its own timeouts.
pub const HTTP_FETCH_TOTAL_BUDGET_MS: u64 = 120_000;

/// Milliseconds to wait after the first failed attempt.
pub const HTTP_FETCH_FIRST_BACKOFF_MS: u64 = 200;

/// Milliseconds to wait after every later failed attempt.
pub const HTTP_FETCH_LATER_BACKOFF_MS: u64 = 1_000;

/// A monotonic point in time. Nothing is known of it but that it can be read again later.
#[verifier::external_type_specification]
#[verifier::external_body]
pub struct ExInstant(std::time::Instant);

/// `Instant::now` reads the clock: nothing is claimed of what it returns.
pub assume_specification[ std::time::Instant::now ]() -> std::time::Instant
;

/// `Instant::elapsed` reads the clock: nothing is claimed of what it returns.
pub assume_specification[ std::time::Instant::elapsed ](
    started: &std::time::Instant,
) -> std::time::Duration
;

/// `Duration::as_millis` gives the whole milliseconds of a duration. Durations come from the clock
/// alone, so nothing is claimed of what it returns.
pub assume_specification[ std::time::Duration::as_millis ](
    elapsed: &std::time::Duration,
) -> u128
;

/// Whether `at` is what the clock may say of the present: a result of `Instant::now`.
pub open spec fn present(at: std::time::Instant) -> bool {
    call_ensures(std::time::Instant::now, (), at)
}

/// Whether `ms` is what the clock may say, in whole milliseconds, of the time since `started`: a
/// result of `Duration::as_millis` on a result of `Instant::elapsed`.
pub open spec fn clock_reading(started: std::time::Instant, ms: u128) -> bool {
    exists|elapsed: std::time::Duration|
        #[trigger] call_ensures(std::time::Instant::elapsed, (&started,), elapsed) && call_ensures(
            std::time::Duration::as_millis,
            (&elapsed,),
            ms,
        )
}

/// An HTTP exchange that produced no usable response.
#[derive(Debug, PartialEq, Eq)]
pub struct HttpFailure {
    /// The status that the server refused the request with; `None` if the transport failed.
    pub status: Option<u16>,
    /// What went wrong, in words.
    pub message: String,
}

impl HttpFailure {
    /// Transport errors and 5xx answers are transient; other refusals will be repeated.
    pub open spec fn retryable(self) -> bool {
        self.status matches Some(status) ==> status >= 500
    }
}

/// Whether a failed exchange is worth repeating.
pub fn http_error_is_retryable(failure: &HttpFailure) -> (yes: bool)
    ensures
        yes == failure.retryable(),
{
    match failure.status {
        Some(status) => status >= 500,
        None => true,
    }
}

/// Milliseconds to wait after attempt number `attempt` has failed.
pub open spec fn backoff_ms(attempt: u32) -> u64 {
    if attempt <= 1 {
        HTTP_FETCH_FIRST_BACKOFF_MS
    } else {
        HTTP_FETCH_LATER_BACKOFF_MS
    }
}

/// Gives the milliseconds to wait after attempt number `attempt` has failed.
pub fn http_retry_backoff(attempt: u32) -> (ms: u64)
    ensures
        ms == backoff_ms(attempt),
{
    if attempt <= 1 {
        HTTP_FETCH_FIRST_BACKOFF_MS
    } else {
        HTTP_FETCH_LATER_BACKOFF_MS
    }
}

/// The attempts made at one fetch.
///
/// Without progress a fetch stops after a few attempts, so that a broken origin fails fast. With
/// progress it may keep resuming, since a slow origin may need several attempts for one piece.
#[derive(Debug)]
pub struct HttpRetryGate {
    /// When the fetch began.
    pub started: std::time::Instant,
    /// Attempts begun so far.
    pub attempts: u32,
    /// Failed attempts since the last one that brought new bytes.
    pub attempts_without_progress: u32,
    /// The largest number of bytes held after a failed attempt.
    pub last_bytes: u64,
}

/// An [`HttpRetryGate`] as contracts speak of it.
pub struct GateView {
    pub started: std::time::Instant,
    pub attempts: u32,
    pub stalls: u32,
    pub last_bytes: u64,
}

/// The successor of a 32-bit counter that stops at its largest value.
pub open spec fn counted(n: u32) -> u32 {
    if n == u32::MAX {
        n
    } else {
        (n + 1) as u32
    }
}

impl GateView {
    /// A fetch that begins at `started` and has made no attempt.
    pub open spec fn fresh(started: std::time::Instant) -> GateView {
        GateView { started, attempts: 0, stalls: 0, last_bytes: 0 }
    }

    /// One more attempt has begun.
    pub open spec fn attempted(self) -> GateView {
        GateView { attempts: counted(self.attempts), ..self }
    }

    /// An attempt has failed with `received` bytes of the fetch held.
    pub open spec fn failed(self, received: u64) -> GateView {
        if received > self.last_bytes {
            GateView { last_bytes: received, stalls: 0, ..self }
        } else {
            GateView { stalls: counted(self.stalls), ..self }
        }
    }

    /// No further attempt is allowed, whatever the clock says.
    pub open spec fn exhausted(self) -> bool {
        ||| self.stalls >= HTTP_FETCH_MAX_ATTEMPTS
        ||| self.attempts >= HTTP_FETCH_MAX_RESUME_ATTEMPTS
    }

    /// The wait before the next attempt, `elapsed_ms` after the fetch began; `None` gives up.
    pub open spec fn retry_after(self, elapsed_ms: u128) -> Option<u64> {
        if self.exhausted() || elapsed_ms + backoff_ms(self.attempts)
            >= HTTP_FETCH_TOTAL_BUDGET_MS {
            None
        } else {
            Some(backoff_ms(self.attempts))
        }
    }
}

/// The time allowed for one fetch is spent after `elapsed_ms`.
pub open spec fn over_budget(elapsed_ms: u128) -> bool {
    elapsed_ms >= HTTP_FETCH_TOTAL_BUDGET_MS
}

/// Whether the time allowed for one fetch is spent after `elapsed_ms`.
pub fn budget_spent(elapsed_ms: u128) -> (yes: bool)
    ensures
        yes == over_budget(elapsed_ms),
{
    elapsed_ms >= HTTP_FETCH_TOTAL_BUDGET_MS as u128
}

impl View for HttpRetryGate {
    type V = GateView;

    open spec fn view(&self) -> GateView {
        GateView {
            started: self.started,
            attempts: self.attempts,
            stalls: self.attempts_without_progress,
            last_bytes: self.last_bytes,
        }
    }
}

impl HttpRetryGate {
    /// A fetch that begins now.
    pub fn new() -> (gate: Self)
        ensures
            gate@ == GateView::fresh(gate.started),
            present(gate.started),
    {
        HttpRetryGate {
            started: std::time::Instant::now(),
            attempts: 0,
            attempts_without_progress: 0,
            last_bytes: 0,
        }
    }

    /// Notes that an attempt begins and gives its number, counted from one.
    pub fn begin_attempt(&mut self) -> (attempt: u32)
        ensures
            final(self)@ == old(self)@.attempted(),
            attempt == final(self)@.attempts,
    {
        self.attempts = self.attempts.saturating_add(1);
        self.attempts
    }

    /// Milliseconds since the fetch began, read off the clock. How many they are is the clock's to
    /// say: nothing is claimed of that.
    pub fn elapsed(&self) -> (ms: u128)
        ensures
            clock_reading(self.started, ms),
    {
        self.started.elapsed().as_millis()
    }

    /// Whether the time allowed for the fetch is spent, by the clock.
    pub fn expired(&self) -> (yes: bool)
        ensures
            exists|elapsed_ms: u128| #[trigger]
                clock_reading(self.started, elapsed_ms) && yes == over_budget(elapsed_ms),
    {
        let elapsed_ms: u128 = self.elapsed();
        budget_spent(elapsed_ms)
    }

    /// Records a failed attempt, `elapsed_ms` after the fetch began and with `received` of its
    /// bytes held: the milliseconds to wait before the next attempt, or `None` to give up.
    pub fn fail_at(&mut self, received: u64, elapsed_ms: u128) -> (wait: Option<u64>)
        ensures
            final(self)@ == old(self)@.failed(received),
            wait == final(self)@.retry_after(elapsed_ms),
    {
        if received > self.last_bytes {
            self.last_bytes = received;
            self.attempts_without_progress = 0;
        } else {
            self.attempts_without_progress = self.attempts_without_progress.saturating_add(1);
        }
        if self.attempts_without_progress >= HTTP_FETCH_MAX_ATTEMPTS || self.attempts
            >= HTTP_FETCH_MAX_RESUME_ATTEMPTS {
            return None;
        }
        let backoff: u64 = http_retry_backoff(self.attempts);
        if elapsed_ms.saturating_add(backoff as u128) >= HTTP_FETCH_TOTAL_BUDGET_MS as u128 {
            return None;
        }
        Some(backoff)
    }

    /// Records a failed attempt, with `received` bytes of the fetch held and the time read off
    /// the clock: the milliseconds to wait before the next attempt, or `None` to give up.
    pub fn fail(&mut self, received: u64) -> (wait: Option<u64>)
        ensures
            final(self)@ == old(self)@.failed(received),
            exists|elapsed_ms: u128| #[trigger]
                clock_reading(old(self).started, elapsed_ms) && wait == final(self)@.retry_after(
                    elapsed_ms,
                ),
    {
        let elapsed_ms: u128 = self.elapsed();
        self.fail_at(received, elapsed_ms)
    }
}

/// A fetch that brings nothing new stops after a few attempts, whatever the clock says.
pub proof fn law_stalled_fetch_gives_up(gate: GateView, received: u64, elapsed_ms: u128)
    requires
        received <= gate.last_bytes,
        gate.stalls + 1 >= HTTP_FETCH_MAX_ATTEMPTS,
    ensures
        gate.failed(received).retry_after(elapsed_ms) is None,
{
}

/// An attempt that brings new bytes forgets the stalls before it, so the fetch goes on as long as
/// attempts and time are left.
pub proof fn law_progress_forgets_stalls(gate: GateView, received: u64, elapsed_ms: u128)
    requires
        received > gate.last_bytes,
        gate.attempts < HTTP_FETCH_MAX_RESUME_ATTEMPTS,
        elapsed_ms + backoff_ms(gate.attempts) < HTTP_FETCH_TOTAL_BUDGET_MS,
    ensures
        gate.failed(received).stalls == 0,
        gate.failed(received).retry_after(elapsed_ms) == Some(backoff_ms(gate.attempts)),
{
}

/// The wait before a further attempt never carries a fetch past its time.
pub proof fn law_waits_stay_within_the_budget(gate: GateView, elapsed_ms: u128)
    requires
        gate.retry_after(elapsed_ms) is Some,
    ensures
        elapsed_ms + gate.retry_after(elapsed_ms)->0 < HTTP_FETCH_TOTAL_BUDGET_MS,
        gate.attempts < HTTP_FETCH_MAX_RESUME_ATTEMPTS,
{
}

/// Whether a fetch may be tried again after each of these attempts, the i-th of which fails at
/// `elapsed[i]` when `received[i]` bytes have arrived.
pub open spec fn attempts_allowed(
    gate: GateView,
    received: Seq<u64>,
    elapsed: Seq<u128>,
) -> bool
    decreases received.len(),
{
    if received.len() == 0 {
        true
    } else {
        let failed = gate.attempted().failed(received[0]);
        &&& failed.retry_after(elapsed[0]) is Some
        &&& attempts_allowed(failed, received.skip(1), elapsed.skip(1))
    }
}

/// However much its attempts bring and however fast they fail, a fetch is allowed fewer retries
/// than its attempts in all.
pub proof fn law_retries_are_bounded(gate: GateView, received: Seq<u64>, elapsed: Seq<u128>)
    requires
        attempts_allowed(gate, received, elapsed),
    ensures
        received.len() > 0 ==> gate.attempts + received.len() < HTTP_FETCH_MAX_RESUME_ATTEMPTS,
    decreases received.len(),
{
    if received.len() > 0 {
        let failed = gate.attempted().failed(received[0]);
        law_retries_are_bounded(failed, received.skip(1), elapsed.skip(1));
    }
}

/// Transport failures and failures of the server are worth repeating; refusals are not.
pub proof fn law_failures_of_the_server_are_transient(failure: HttpFailure)
    ensures
        failure.status is None ==> failure.retryable(),
        failure.status matches Some(status) ==> (failure.retryable() <==> 500 <= status),
{
}

/// A fetch waits a fifth of a second after its first attempt and a second after every other, and is
/// tried again as long as fewer than three attempts in a row have brought nothing, fewer than eight
/// were made in all, and the wait ends within two minutes of its beginning; otherwise it is not.
pub proof fn law_retries_are_granted_within_the_limits(gate: GateView, elapsed_ms: u128)
    ensures
        ({
            let wait: int = if gate.attempts <= 1 {
                200
            } else {
                1_000
            };
            match gate.retry_after(elapsed_ms) {
                Some(ms) => {
                    &&& ms == wait
                    &&& gate.stalls < 3 && gate.attempts < 8 && elapsed_ms + wait < 120_000
                },
                None => gate.stalls >= 3 || gate.attempts >= 8 || elapsed_ms + wait >= 120_000,
            }
        }),
        over_budget(elapsed_ms) <==> elapsed_ms >= 120_000,
{
}

/// Attempts are counted one by one. A failed one counts as a stall unless more bytes are held than
/// after any failed attempt before it, and then the stalls are counted from nought again.
pub proof fn law_attempts_and_stalls_are_counted(gate: GateView, received: u64)
    requires
        gate.attempts < u32::MAX,
        gate.stalls < u32::MAX,
    ensures
        gate.attempted().attempts == gate.attempts + 1,
        gate.attempted().stalls == gate.stalls,
        gate.attempted().last_bytes == gate.last_bytes,
        gate.attempted().started == gate.started,
        gate.failed(received).attempts == gate.attempts,
        gate.failed(received).started == gate.started,
        received > gate.last_bytes ==> gate.failed(received).stalls == 0 && gate.failed(
            received,
        ).last_bytes == received,
        received <= gate.last_bytes ==> gate.failed(received).stalls == gate.stalls + 1
            && gate.failed(received).last_bytes == gate.last_bytes,
{
}

/// A fetch begins with no attempt made, no stall and no byte.
pub proof fn law_fetches_begin_with_nothing(started: std::time::Instant)
    ensures
        GateView::fresh(started).started == started,
        GateView::fresh(started).attempts == 0,
        GateView::fresh(started).stalls == 0,
        GateView::fresh(started).last_bytes == 0,
{
}

/// What contracts say of the attempts at a fetch is said of all that is counted.
pub proof fn law_attempts_are_seen_as_they_are(gate: HttpRetryGate)
    ensures
        gate@.started == gate.started,
        gate@.attempts == gate.attempts,
        gate@.stalls == gate.attempts_without_progress,
        gate@.last_bytes == gate.last_bytes,
{
}

} // verus!
