//! A resource read over HTTP through a window of cached bytes.
//!
//! An [`HttpRangeSource`] decides; its caller talks to the network. A read begins with
//! [`HttpRangeSource::read_range`] and goes on, one [`ReadStep`] after the other, as the caller
//! reports what came of each step.
use vstd::prelude::*;
use vstd::slice::{slice_subrange, slice_to_vec};
use vstd::string::*;

use crate::error::{SourceError, SourceErrorView};
use crate::fetch;
use crate::fetch::{HttpRangeResponse, ResponseView};
use crate::range;
use crate::range::ByteRange;
use crate::retry;
use crate::text;

verus! {

/// The most bytes that one request may ask for.
///
/// It is not the depth of the window. A body has to arrive within the client's deadline, so a
/// request for a whole deep window would demand more of a slow origin than it can deliver. The
/// window is filled to its depth by successive requests instead.
pub const HTTP_REQUEST_MAX_BYTES: u64 = 4 * 1024 * 1024;

/// How much of what was already read stays in the cache, for small rewinds.
pub const HTTP_CACHE_RETAIN_BYTES: u64 = 16 * 1024 * 1024;

/// How far over its budget the retained tail may grow before it is cut, so that the buffer is
/// moved once in a while and not at every read.
pub const HTTP_CACHE_TRIM_SLACK: u64 = 8 * 1024 * 1024;

/// The most bytes that an open-ended read asks for in all. It is a hard stop, so that an origin
/// that never ends cannot grow the cache without bound.
pub const HTTP_STREAM_TO_EOF_BYTE_LIMIT: u64 = 256 * 1024 * 1024;

/// The most pieces that one bounded read may be put together from. Running into it is an error, not a
/// short read.
pub const HTTP_FETCH_MAX_PIECES_PER_READ: u32 = 64;

/// Prefetches that may fail in a row before they are suspended until a fetch succeeds.
pub const HTTP_PREFETCH_MAX_FAILURES: u32 = 3;

/// A resource behind a URI, with a window of its bytes.
///
/// It has no `Debug` form, since the URI and the headers may hold secrets: what is shown of the
/// URI is [`crate::redact::redacted_uri`].
pub struct HttpRangeSource {
    /// Where the resource is.
    pub uri: String,
    /// Headers to send along with every request.
    pub http_headers: Vec<(String, String)>,
    /// The total length of the resource, once it is known.
    pub content_length: Option<u64>,
    /// Position of the first cached byte.
    pub cache_start: u64,
    /// The cached bytes.
    pub cache_bytes: Vec<u8>,
    /// How many unread bytes the window should hold ahead of the reader.
    pub read_ahead_bytes: u64,
    /// The most bytes to ask for in one request beyond what a read needs.
    pub request_bytes: u64,
    /// The range that is being fetched in the background.
    pub prefetch: Option<ByteRange>,
    /// Prefetches that have failed in a row.
    pub prefetch_failures: u32,
}

/// An [`HttpRangeSource`] in terms of sequences.
#[verifier::ext_equal]
pub struct SourceView {
    pub uri: Seq<char>,
    pub own: Seq<(String, String)>,
    pub content_length: Option<u64>,
    pub cache_start: u64,
    pub cache: Seq<u8>,
    pub read_ahead: u64,
    pub request: u64,
    pub prefetch: Option<ByteRange>,
    pub failures: u32,
}

impl View for HttpRangeSource {
    type V = SourceView;

    open spec fn view(&self) -> SourceView {
        SourceView {
            uri: self.uri@,
            own: self.http_headers@,
            content_length: self.content_length,
            cache_start: self.cache_start,
            cache: self.cache_bytes@,
            read_ahead: self.read_ahead_bytes,
            request: self.request_bytes,
            prefetch: self.prefetch,
            failures: self.prefetch_failures,
        }
    }
}

/// The smaller of two numbers.
pub open spec fn least(a: u64, b: u64) -> u64 {
    if a <= b {
        a
    } else {
        b
    }
}

/// The larger of two numbers.
pub open spec fn greatest(a: u64, b: u64) -> u64 {
    if a >= b {
        a
    } else {
        b
    }
}

/// `a - b`, or zero if that is negative.
pub open spec fn excess(a: u64, b: u64) -> u64 {
    if a >= b {
        (a - b) as u64
    } else {
        0
    }
}

/// The read-ahead depth that a setting stands for: its number, or the default.
pub open spec fn read_ahead_setting(setting: Option<Seq<char>>) -> u64 {
    match setting {
        Some(value) => match text::u64_value(value) {
            Some(bytes) => bytes,
            None => HttpRangeSource::DEFAULT_READ_AHEAD_BYTES,
        },
        None => HttpRangeSource::DEFAULT_READ_AHEAD_BYTES,
    }
}

/// A borrowed string that may be missing, as characters.
pub open spec fn str_view(text: Option<&str>) -> Option<Seq<char>> {
    match text {
        Some(text) => Some(text@),
        None => None,
    }
}

/// The read-ahead depth that the value of the `ERIKA_HTTP_READAHEAD_BYTES` setting stands for.
pub fn http_read_ahead_bytes(setting: Option<&str>) -> (bytes: u64)
    ensures
        bytes == read_ahead_setting(str_view(setting)),
{
    match setting {
        Some(value) => {
            let chars: Vec<char> = text::chars_of(value);
            match text::parse_u64(chars.as_slice()) {
                Some(bytes) => bytes,
                None => HttpRangeSource::DEFAULT_READ_AHEAD_BYTES,
            }
        },
        None => HttpRangeSource::DEFAULT_READ_AHEAD_BYTES,
    }
}

/// What becomes of a prefetch in flight when a read comes in that the cache does not cover.
#[derive(Debug, Clone, Copy, PartialEq, Eq, Structural)]
pub enum PrefetchDecision {
    /// Wait for it: it brings bytes that the read needs.
    Join,
    /// Forget it: the read has jumped past it.
    Drop,
    /// Leave it running: it brings bytes that will be wanted later.
    Keep,
}

// ---------------------------------------------------------------------------
// The cache
// ---------------------------------------------------------------------------
impl SourceView {
    /// The source before anything is known of the resource.
    pub open spec fn fresh(
        uri: Seq<char>,
        own: Seq<(String, String)>,
        read_ahead: u64,
    ) -> SourceView {
        SourceView {
            uri,
            own,
            content_length: None,
            cache_start: 0,
            cache: Seq::empty(),
            read_ahead,
            request: least(read_ahead, HTTP_REQUEST_MAX_BYTES),
            prefetch: None,
            failures: 0,
        }
    }

    /// The size of a request follows from the depth of the window.
    pub open spec fn well_formed(self) -> bool {
        self.request == least(self.read_ahead, HTTP_REQUEST_MAX_BYTES)
    }

    /// The position after the last cached byte.
    pub open spec fn end(self) -> u64 {
        range::saturating_sum(self.cache_start, self.cache.len() as int)
    }

    /// The cached bytes of `range`, if the cache holds all of them.
    pub open spec fn slice(self, range: ByteRange) -> Option<Seq<u8>> {
        if range.bounded() && self.cache_start <= range.start && range.start + range.length->0
            <= self.end() {
            let from = range.start - self.cache_start;
            Some(self.cache.subrange(from, from + range.length->0))
        } else {
            None
        }
    }

    /// The number of bytes at the front of the cache that lie further behind a read than they
    /// are worth keeping, if they are enough to be worth cutting off.
    pub open spec fn surplus(self, range: ByteRange) -> u64 {
        let behind = excess(excess(range.start, HTTP_CACHE_RETAIN_BYTES), self.cache_start);
        if range.length is None || behind < HTTP_CACHE_TRIM_SLACK {
            0
        } else if behind <= self.cache.len() {
            behind
        } else {
            self.cache.len() as u64
        }
    }

    /// The cache without what lies too far behind a read.
    pub open spec fn trimmed(self, range: ByteRange) -> SourceView {
        SourceView {
            cache_start: (self.cache_start + self.surplus(range)) as u64,
            cache: self.cache.skip(self.surplus(range) as int),
            ..self
        }
    }

    /// The total length, taken from a response unless it was known.
    pub open spec fn informed(self, total: Option<u64>) -> SourceView {
        SourceView {
            content_length: if self.content_length is Some {
                self.content_length
            } else {
                total
            },
            ..self
        }
    }

    /// A fetch of the caller's own has succeeded: the origin is alive.
    pub open spec fn recorded(self, total: Option<u64>) -> SourceView {
        SourceView { failures: 0, ..self.informed(total) }
    }

    /// A prefetch of the bytes from `start` on has ended. Its bytes are kept if they continue the
    /// cache; that it failed is counted and otherwise of no consequence.
    pub open spec fn absorbed(
        self,
        start: u64,
        outcome: Result<ResponseView, SourceErrorView>,
    ) -> SourceView {
        match outcome {
            Ok(response) => {
                let informed = self.informed(response.total);
                if response.bytes.len() > 0 && start == self.end() {
                    SourceView { cache: self.cache + response.bytes, failures: 0, ..informed }
                } else {
                    informed
                }
            },
            Err(_) => SourceView { failures: retry::counted(self.failures), ..self },
        }
    }

    /// What is decided of the prefetch of `pending` when `range` is read.
    pub open spec fn decision(self, pending: ByteRange, range: ByteRange) -> PrefetchDecision {
        let passed = pending.length matches Some(length) && range.start >= range::saturating_sum(
            pending.start,
            length as int,
        );
        let reaches_past_the_cache = range.length matches Some(length) && range::saturating_sum(
            range.start,
            length as int,
        ) > self.end();
        if passed {
            PrefetchDecision::Drop
        } else if pending.contains(range) || reaches_past_the_cache {
            PrefetchDecision::Join
        } else {
            PrefetchDecision::Keep
        }
    }

    /// The prefetch to start once `range` has been read: the next piece after the cache, if the
    /// window is less deep ahead of the read than it should be.
    pub open spec fn next_prefetch(self, range: ByteRange) -> Option<ByteRange> {
        let wanted = {
            &&& self.prefetch is None
            &&& self.cache.len() > 0
            &&& self.failures < HTTP_PREFETCH_MAX_FAILURES
            &&& range.bounded()
            &&& self.content_length is Some
            &&& range.start + range.length->0 <= self.end()
            &&& self.end() < self.content_length->0
            &&& self.end() - (range.start + range.length->0) < self.read_ahead
            &&& self.request > 0
        };
        if wanted {
            Some(
                ByteRange {
                    start: self.end(),
                    length: Some(
                        least(self.request, (self.content_length->0 - self.end()) as u64),
                    ),
                },
            )
        } else {
            None
        }
    }

    /// How many bytes to ask for from `start` on, for a read that needs `length` of them: some
    /// look-ahead too, but never more than a request may carry or the resource holds.
    pub open spec fn request_length(self, start: u64, length: u64) -> u64 {
        let capped = least(greatest(length, self.request), HTTP_REQUEST_MAX_BYTES);
        match self.content_length {
            Some(total) => least(capped, excess(total, start)),
            None => capped,
        }
    }

    /// Whether nothing of a read is in the cache although it should be: it begins where the cache
    /// ends or after it, and before the known end of the resource.
    pub open spec fn lacks(self, range: ByteRange) -> bool {
        let behind = excess(range.start, self.cache_start);
        &&& self.content_length matches Some(total) && range.start < total
        &&& behind > self.cache.len() || (behind == self.cache.len() && range.length != Some(0u64))
    }

    /// What a read gets once nothing more is fetched for it: what the cache holds from its place
    /// on, up to its length. An empty answer means that the resource has ended, so it is not given
    /// where more bytes are known to exist.
    pub open spec fn served(self, range: ByteRange) -> Result<Seq<u8>, SourceErrorView> {
        let behind = excess(range.start, self.cache_start);
        if self.lacks(range) {
            Err(
                SourceErrorView::Http(
                    "no data for bytes "@ + text::decimal(range.start as nat)
                        + ".. (origin total "@ + text::decimal(self.content_length->0 as nat)
                        + ")"@,
                ),
            )
        } else if behind <= self.cache.len() {
            let tail = self.cache.skip(behind as int);
            match range.length {
                Some(length) if length < tail.len() => Ok(tail.take(length as int)),
                _ => Ok(tail),
            }
        } else {
            Ok(Seq::empty())
        }
    }
}

impl HttpRangeSource {
    /// The depth of the window unless another is asked for.
    pub const DEFAULT_READ_AHEAD_BYTES: u64 = 2 * 1024 * 1024;

    /// A source for the resource at `uri`. `setting` is the value of the
    /// `ERIKA_HTTP_READAHEAD_BYTES` setting, if it is set.
    pub fn new(uri: &str, setting: Option<&str>) -> (source: Self)
        ensures
            source@ == SourceView::fresh(
                uri@,
                Seq::empty(),
                read_ahead_setting(str_view(setting)),
            ),
    {
        Self::with_http_headers(uri, Vec::new(), setting)
    }

    /// A source for the resource at `uri` that sends `http_headers` along with every request.
    pub fn with_http_headers(
        uri: &str,
        http_headers: Vec<(String, String)>,
        setting: Option<&str>,
    ) -> (source: Self)
        ensures
            source@ == SourceView::fresh(
                uri@,
                http_headers@,
                read_ahead_setting(str_view(setting)),
            ),
    {
        Self::with_http_headers_and_read_ahead(uri, http_headers, None, setting)
    }

    /// A source for the resource at `uri` with a window of `read_ahead` bytes; without one, or
    /// with zero, the setting decides, and then the default.
    pub fn with_http_headers_and_read_ahead(
        uri: &str,
        http_headers: Vec<(String, String)>,
        read_ahead: Option<u64>,
        setting: Option<&str>,
    ) -> (source: Self)
        ensures
            source@ == SourceView::fresh(
                uri@,
                http_headers@,
                match read_ahead {
                    Some(bytes) if bytes > 0 => bytes,
                    _ => read_ahead_setting(str_view(setting)),
                },
            ),
            source@.well_formed(),
    {
        let mut read_ahead_bytes: u64 = http_read_ahead_bytes(setting);
        match read_ahead {
            Some(bytes) => {
                if bytes > 0 {
                    read_ahead_bytes = bytes;
                }
            },
            None => {},
        }
        HttpRangeSource {
            uri: uri.to_string(),
            http_headers,
            content_length: None,
            cache_start: 0,
            cache_bytes: Vec::new(),
            read_ahead_bytes,
            request_bytes: if read_ahead_bytes <= HTTP_REQUEST_MAX_BYTES {
                read_ahead_bytes
            } else {
                HTTP_REQUEST_MAX_BYTES
            },
            prefetch: None,
            prefetch_failures: 0,
        }
    }

    /// Where the resource is.
    pub fn uri(&self) -> (uri: &str)
        ensures
            uri@ == self@.uri,
    {
        self.uri.as_str()
    }

    /// The position after the last cached byte.
    pub fn cache_end(&self) -> (end: u64)
        ensures
            end == self@.end(),
    {
        self.cache_start.saturating_add(self.cache_bytes.len() as u64)
    }

    /// A copy of the cached bytes of `range`, if the cache holds all of them.
    pub fn cached_slice(&self, range: ByteRange) -> (bytes: Option<Vec<u8>>)
        ensures
            match (bytes, self@.slice(range)) {
                (Some(bytes), Some(wanted)) => bytes@ == wanted,
                (None, None) => true,
                _ => false,
            },
    {
        match range.length {
            None => None,
            Some(length) => match range.start.checked_add(length) {
                None => None,
                Some(end) => {
                    if range.start < self.cache_start || end > self.cache_end() {
                        return None;
                    }
                    let cached: usize = self.cache_bytes.len();
                    let from: usize = (range.start - self.cache_start) as usize;
                    let to: usize = (end - self.cache_start) as usize;
                    Some(slice_to_vec(slice_subrange(self.cache_bytes.as_slice(), from, to)))
                },
            },
        }
    }

    /// Cuts off the part of the cache that lies too far behind a read.
    pub fn trim_cache(&mut self, range: ByteRange)
        ensures
            final(self)@ == old(self)@.trimmed(range),
    {
        let cached: u64 = self.cache_bytes.len() as u64;
        let floor: u64 = range.start.saturating_sub(HTTP_CACHE_RETAIN_BYTES);
        let behind: u64 = floor.saturating_sub(self.cache_start);
        if range.length.is_none() || behind < HTTP_CACHE_TRIM_SLACK {
            assert(self.cache_bytes@.skip(0) =~= self.cache_bytes@);
            return;
        }
        let surplus: u64 = if behind <= cached {
            behind
        } else {
            cached
        };
        let rest: Vec<u8> = self.cache_bytes.split_off(surplus as usize);
        assert(rest@ =~= old(self).cache_bytes@.skip(surplus as int));
        self.cache_bytes = rest;
        self.cache_start = self.cache_start + surplus;
    }

    /// Takes in what a prefetch of the bytes from `start` on has brought.
    pub fn absorb_prefetch(
        &mut self,
        start: u64,
        outcome: Result<HttpRangeResponse, SourceError>,
    )
        ensures
            final(self)@ == old(self)@.absorbed(start, fetch::outcome_view(outcome)),
    {
        match outcome {
            Ok(response) => {
                if self.content_length.is_none() {
                    self.content_length = response.total_length;
                }
                let mut bytes: Vec<u8> = response.bytes;
                if bytes.len() > 0 && start == self.cache_end() {
                    self.cache_bytes.append(&mut bytes);
                    self.prefetch_failures = 0;
                }
            },
            Err(_) => {
                self.prefetch_failures = self.prefetch_failures.saturating_add(1);
            },
        }
    }

    /// Decides what becomes of the prefetch of `pending` when `range` is read.
    pub fn settle_prefetch_for(&self, pending: ByteRange, range: ByteRange) -> (decision:
        PrefetchDecision)
        ensures
            decision == self@.decision(pending, range),
    {
        let covers: bool = range::range_contains(pending, range);
        let passed: bool = match pending.length {
            Some(length) => range.start >= pending.start.saturating_add(length),
            None => false,
        };
        let needed: bool = match range.length {
            Some(length) => range.start.saturating_add(length) > self.cache_end(),
            None => false,
        };
        if (covers || needed) && !passed {
            PrefetchDecision::Join
        } else if passed {
            PrefetchDecision::Drop
        } else {
            PrefetchDecision::Keep
        }
    }

    /// Decides whether to start a prefetch once `range` has been read, and of which bytes.
    pub fn maybe_start_prefetch(&mut self, range: ByteRange) -> (started: Option<ByteRange>)
        ensures
            started == old(self)@.next_prefetch(range),
            final(self)@ == (SourceView {
                prefetch: if started is Some {
                    started
                } else {
                    old(self)@.prefetch
                },
                ..old(self)@
            }),
    {
        if self.prefetch.is_some() || self.cache_bytes.len() == 0 {
            return None;
        }
        if self.prefetch_failures >= HTTP_PREFETCH_MAX_FAILURES {
            return None;
        }
        match (range.length, self.content_length) {
            (Some(length), Some(total)) => match range.start.checked_add(length) {
                None => None,
                Some(end) => {
                    let cache_end: u64 = self.cache_end();
                    if end > cache_end || cache_end >= total {
                        return None;
                    }
                    if cache_end - end >= self.read_ahead_bytes || self.request_bytes == 0 {
                        return None;
                    }
                    let left: u64 = total - cache_end;
                    let piece: ByteRange = ByteRange {
                        start: cache_end,
                        length: Some(
                            if self.request_bytes <= left {
                                self.request_bytes
                            } else {
                                left
                            },
                        ),
                    };
                    self.prefetch = Some(piece);
                    Some(piece)
                },
            },
            _ => None,
        }
    }

    /// How many bytes to ask for from `start` on, for a read that needs `length` of them.
    pub fn fetch_length(&self, start: u64, length: u64) -> (bytes: u64)
        ensures
            bytes == self@.request_length(start, length),
    {
        let mut wanted: u64 = if length >= self.request_bytes {
            length
        } else {
            self.request_bytes
        };
        if wanted > HTTP_REQUEST_MAX_BYTES {
            wanted = HTTP_REQUEST_MAX_BYTES;
        }
        match self.content_length {
            Some(total) => {
                let left: u64 = total.saturating_sub(start);
                if wanted <= left {
                    wanted
                } else {
                    left
                }
            },
            None => wanted,
        }
    }

    /// Notes that a fetch of the reader's own has brought a response, and hands out its bytes.
    pub fn record_fetch(&mut self, response: HttpRangeResponse) -> (bytes: Vec<u8>)
        ensures
            final(self)@ == old(self)@.recorded(response@.total),
            bytes@ == response@.bytes,
    {
        if self.content_length.is_none() {
            self.content_length = response.total_length;
        }
        self.prefetch_failures = 0;
        response.bytes
    }

    /// What a read gets once nothing more is fetched for it.
    pub fn serve(&self, range: ByteRange) -> (outcome: Result<Vec<u8>, SourceError>)
        ensures
            bytes_view(outcome) == self@.served(range),
    {
        let behind: u64 = range.start.saturating_sub(self.cache_start);
        let cached: u64 = self.cache_bytes.len() as u64;
        if behind > cached || (behind == cached && range.length != Some(0u64)) {
            match self.content_length {
                Some(total) => {
                    if range.start < total {
                        let message: String = text::joined(
                            text::joined_decimal(
                                text::joined(
                                    text::joined_decimal(
                                        "no data for bytes ".to_string(),
                                        range.start,
                                    ),
                                    ".. (origin total ",
                                ),
                                total,
                            ),
                            ")",
                        );
                        return Err(SourceError::Http(message));
                    }
                },
                None => {},
            }
        }
        if behind > cached {
            return Ok(Vec::new());
        }
        let mut to: u64 = cached;
        match range.length {
            Some(length) => {
                if length < cached - behind {
                    to = behind + length;
                }
            },
            None => {},
        }
        let bytes: Vec<u8> = slice_to_vec(
            slice_subrange(self.cache_bytes.as_slice(), behind as usize, to as usize),
        );
        proof {
            let tail = self.cache_bytes@.skip(behind as int);
            if to < cached {
                assert(bytes@ =~= tail.take(to - behind));
            } else {
                assert(bytes@ =~= tail);
            }
        }
        Ok(bytes)
    }
}

/// The outcome of a read, in terms of sequences.
pub open spec fn bytes_view(outcome: Result<Vec<u8>, SourceError>) -> Result<
    Seq<u8>,
    SourceErrorView,
> {
    match outcome {
        Ok(bytes) => Ok(bytes@),
        Err(error) => Err(error@),
    }
}

// ---------------------------------------------------------------------------
// What holds of the cache and of what is asked for
// ---------------------------------------------------------------------------
/// The depth that a setting names is its number; without a setting, or with one that is no number,
/// it is two mebibytes.
pub proof fn law_settings_name_the_depth(n: u64, setting: Seq<char>)
    ensures
        read_ahead_setting(Some(text::decimal(n as nat))) == n,
        read_ahead_setting(None) == 2_097_152,
        text::u64_value(setting) is None ==> read_ahead_setting(Some(setting)) == 2_097_152,
{
    text::law_u64_round_trip(n);
}

/// The cache holds a range if and only if the range lies between its first byte and its last, and
/// the slice is then the cached bytes at the places of the range.
pub proof fn law_slices_are_cut_from_the_cache(
    source: SourceView,
    start: u64,
    length: u64,
    i: int,
)
    requires
        source.cache_start + source.cache.len() <= u64::MAX,
    ensures
        ({
            let range = ByteRange { start, length: Some(length) };
            &&& source.slice(range) is Some <==> source.cache_start <= start && start + length
                <= source.cache_start + source.cache.len()
            &&& source.slice(range) matches Some(bytes) ==> {
                &&& bytes.len() == length
                &&& 0 <= i < length ==> bytes[i] == source.cache[start + i - source.cache_start]
            }
        }),
        source.slice(ByteRange { start, length: None }) is None,
        source.end() == source.cache_start + source.cache.len(),
{
}

/// Trimming leaves the cache as it is until at least eight mebibytes of it lie more than sixteen
/// behind a bounded read, and then it cuts off exactly what lies more than sixteen behind.
pub proof fn law_trimming_cuts_what_lies_far_behind(source: SourceView, range: ByteRange)
    requires
        source.cache_start + source.cache.len() <= u64::MAX,
    ensures
        ({
            let behind = range.start - 16_777_216 - source.cache_start;
            let trimmed = source.trimmed(range);
            &&& range.length is None || range.start - 16_777_216 < source.cache_start + 8_388_608
                ==> trimmed == source
            &&& range.length is Some && range.start - 16_777_216 >= source.cache_start + 8_388_608
                ==> {
                &&& behind <= source.cache.len() ==> trimmed.cache_start + 16_777_216
                    == range.start && trimmed.cache == source.cache.skip(behind)
                &&& behind > source.cache.len() ==> trimmed.cache.len() == 0
                    && trimmed.cache_start == source.cache_start + source.cache.len()
            }
            &&& trimmed == (SourceView {
                cache_start: trimmed.cache_start,
                cache: trimmed.cache,
                ..source
            })
        }),
{
    assert(source.cache.skip(0) =~= source.cache);
}

/// The first total that is told is kept, and a later one does not replace it.
pub proof fn law_the_first_total_is_kept(source: SourceView, total: Option<u64>)
    ensures
        source.content_length is None ==> source.recorded(total).content_length == total,
        source.content_length is Some ==> source.recorded(total).content_length
            == source.content_length,
        source.recorded(total) == (SourceView {
            content_length: source.recorded(total).content_length,
            failures: 0,
            ..source
        }),
{
}

/// What a prefetch brings is added to the cache if it begins where the cache ends, all of it and
/// nothing else; otherwise the cache stays as it is. A failed one is counted and changes nothing
/// else.
pub proof fn law_prefetched_pieces_continue_the_cache(
    source: SourceView,
    start: u64,
    response: ResponseView,
    error: SourceErrorView,
)
    requires
        source.cache_start + source.cache.len() <= u64::MAX,
        source.failures < u32::MAX,
    ensures
        ({
            let absorbed = source.absorbed(start, Ok(response));
            let fits = start == source.cache_start + source.cache.len() && response.bytes.len() > 0;
            &&& fits ==> absorbed.cache == source.cache + response.bytes && absorbed.failures == 0
            &&& !fits ==> absorbed.cache == source.cache && absorbed.failures == source.failures
            &&& source.content_length is None ==> absorbed.content_length == response.total
            &&& source.content_length is Some ==> absorbed.content_length == source.content_length
            &&& absorbed == (SourceView {
                cache: absorbed.cache,
                failures: absorbed.failures,
                content_length: absorbed.content_length,
                ..source
            })
        }),
        source.absorbed(start, Err(error)) == (SourceView {
            failures: (source.failures + 1) as u32,
            ..source
        }),
{
}

/// A piece in flight is forgotten by a read that begins after it; waited for by one that it covers
/// or that reaches past the cache; and left running by any other.
pub proof fn law_pieces_in_flight_are_settled(
    source: SourceView,
    pending: ByteRange,
    range: ByteRange,
)
    requires
        source.cache_start + source.cache.len() <= u64::MAX,
        pending.bounded(),
    ensures
        ({
            let passed = range.start >= pending.start + pending.length->0;
            let covered = range.bounded() && pending.start <= range.start && range.start
                + range.length->0 <= pending.start + pending.length->0;
            let past = range.bounded() && range.start + range.length->0 > source.cache_start
                + source.cache.len();
            &&& passed ==> source.decision(pending, range) == PrefetchDecision::Drop
            &&& !passed && (covered || past) ==> source.decision(pending, range)
                == PrefetchDecision::Join
            &&& !passed && (range.length is None || range.bounded()) && !covered && !past
                ==> source.decision(pending, range) == PrefetchDecision::Keep
        }),
{
}

/// A piece is prefetched if and only if none is in flight, something is cached, fewer than three
/// failed in a row, the read ended within the cache with less than the depth of the window after it,
/// and the resource is known to go on. It begins where the cache ends and is as long as a request, or
/// ends where the resource ends if that is earlier.
pub proof fn law_prefetches_ask_for_the_next_piece(
    source: SourceView,
    start: u64,
    length: u64,
    total: u64,
)
    requires
        source.cache_start + source.cache.len() <= u64::MAX,
        source.content_length == Some(total),
        start + length <= u64::MAX,
    ensures
        ({
            let range = ByteRange { start, length: Some(length) };
            let end = source.cache_start + source.cache.len();
            match source.next_prefetch(range) {
                Some(piece) => {
                    &&& source.prefetch is None && source.cache.len() > 0 && source.failures < 3
                    &&& start + length <= end < total && end - (start + length) < source.read_ahead
                    &&& piece.start == end
                    &&& piece.length matches Some(asked) && asked > 0 && asked <= source.request
                        && end + asked <= total && (asked == source.request || end + asked == total)
                },
                None => {
                    ||| source.prefetch is Some || source.cache.len() == 0 || source.failures >= 3
                    ||| start + length > end || end >= total
                    ||| end - (start + length) >= source.read_ahead
                    ||| source.request == 0
                },
            }
        }),
        source.next_prefetch(ByteRange { start, length: None }) is None,
        (SourceView { content_length: None, ..source }).next_prefetch(
            ByteRange { start, length: Some(length) },
        ) is None,
{
}

/// A request asks for as much as the read needs and as the look-ahead comes to, whichever is more,
/// but for no more than four mebibytes and nothing past the known end of the resource; and for less
/// than the first of these only where one of the others stops it.
pub proof fn law_requests_are_as_large_as_allowed(source: SourceView, start: u64, length: u64)
    ensures
        ({
            let asked = source.request_length(start, length);
            let at_the_limit = asked == 4_194_304;
            let at_the_end = source.content_length matches Some(total) && (start + asked == total
                || (start >= total && asked == 0));
            &&& asked <= 4_194_304
            &&& source.content_length matches Some(total) ==> asked == 0 || start + asked <= total
            &&& asked <= length || asked <= source.request
            &&& at_the_limit || at_the_end || (asked >= length && asked >= source.request)
        }),
{
}

/// What a read gets from the cache is what the cache holds from the start of the read on, up to the
/// length of the read. Past the end of the cache it gets nothing, and an error that names the place
/// and the total where the resource is known to go on.
pub proof fn law_reads_are_served_from_their_place(source: SourceView, range: ByteRange)
    requires
        source.cache_start <= range.start,
    ensures
        ({
            let at = range.start - source.cache_start;
            let lacking = source.content_length matches Some(total) && range.start < total
                && range.length != Some(0u64);
            &&& at < source.cache.len() ==> (source.served(range) matches Ok(bytes) && {
                &&& range.length is None ==> bytes == source.cache.skip(at)
                &&& range.length matches Some(length) ==> {
                    &&& at + length <= source.cache.len() ==> bytes == source.cache.subrange(
                        at,
                        at + length,
                    )
                    &&& at + length > source.cache.len() ==> bytes == source.cache.skip(at)
                }
            })
            &&& at >= source.cache.len() && lacking ==> source.served(range) == Err::<
                Seq<u8>,
                SourceErrorView,
            >(
                SourceErrorView::Http(
                    "no data for bytes "@ + text::decimal(range.start as nat)
                        + ".. (origin total "@ + text::decimal(source.content_length->0 as nat)
                        + ")"@,
                ),
            )
            &&& at >= source.cache.len() && !(source.content_length matches Some(total)
                && range.start < total) ==> (source.served(range) matches Ok(bytes) && bytes.len()
                == 0)
            &&& at == source.cache.len() && range.length == Some(0u64) ==> (source.served(
                range,
            ) matches Ok(bytes) && bytes.len() == 0)
        }),
{
    let at = range.start - source.cache_start;
    if at < source.cache.len() {
        if let Some(length) = range.length {
            if at + length <= source.cache.len() {
                assert(source.served(range)->Ok_0 =~= source.cache.subrange(at, at + length));
            }
        }
    }
}

/// A source is made for its address, with its headers and the depth of its window, and with nothing
/// known, cached or in flight. A request is as large as the window, up to four mebibytes.
pub proof fn law_sources_begin_with_nothing_known(
    uri: Seq<char>,
    own: Seq<(String, String)>,
    read_ahead: u64,
)
    ensures
        ({
            let source = SourceView::fresh(uri, own, read_ahead);
            &&& source.uri == uri && source.own == own && source.read_ahead == read_ahead
            &&& source.request <= read_ahead && source.request <= 4_194_304
            &&& source.request == read_ahead || source.request == 4_194_304
            &&& source.content_length is None && source.cache.len() == 0
            &&& source.prefetch is None && source.failures == 0
        }),
{
}

/// What contracts say of a source is said of all that it holds.
pub proof fn law_sources_are_seen_as_they_are(
    source: HttpRangeSource,
    bytes: Vec<u8>,
    error: SourceError,
    setting: &str,
)
    ensures
        source@.uri == source.uri@,
        source@.own == source.http_headers@,
        source@.content_length == source.content_length,
        source@.cache_start == source.cache_start,
        source@.cache == source.cache_bytes@,
        source@.read_ahead == source.read_ahead_bytes,
        source@.request == source.request_bytes,
        source@.prefetch == source.prefetch,
        source@.failures == source.prefetch_failures,
        bytes_view(Ok(bytes)) == Ok::<_, SourceErrorView>(bytes@),
        bytes_view(Err(error)) == Err::<Seq<u8>, SourceErrorView>(error@),
        str_view(Some(setting)) == Some(setting@),
        str_view(None) is None,
{
}

/// A source that is made for an address keeps it, with the headers given and no others; its window is
/// as deep as was asked for, or else as the setting says, or else two mebibytes.
pub proof fn law_sources_are_made_to_order(
    uri: &str,
    own: Vec<(String, String)>,
    read_ahead: Option<u64>,
    setting: Option<&str>,
    source: HttpRangeSource,
    plain: HttpRangeSource,
)
    requires
        call_ensures(
            HttpRangeSource::with_http_headers_and_read_ahead,
            (uri, own, read_ahead, setting),
            source,
        ),
        call_ensures(HttpRangeSource::new, (uri, setting), plain),
    ensures
        source.uri@ == uri@,
        source.http_headers@ == own@,
        read_ahead matches Some(bytes) ==> (bytes > 0 ==> source.read_ahead_bytes == bytes),
        read_ahead is None || read_ahead == Some(0u64) ==> source.read_ahead_bytes
            == plain.read_ahead_bytes,
        source.request_bytes <= source.read_ahead_bytes && source.request_bytes <= 4_194_304,
        source.request_bytes == source.read_ahead_bytes || source.request_bytes == 4_194_304,
        source.content_length is None && source.cache_bytes@.len() == 0,
        source.prefetch is None && source.prefetch_failures == 0,
        plain.uri@ == uri@,
        plain.http_headers@.len() == 0,
        setting is None ==> plain.read_ahead_bytes == 2_097_152,
        setting matches Some(setting) ==> match text::u64_value(setting@) {
            Some(bytes) => plain.read_ahead_bytes == bytes,
            None => plain.read_ahead_bytes == 2_097_152,
        },
{
}

} // verus!
