//! HTTP sources against a scripted origin.
use erika::error::SourceError;
use erika::fetch::{FetchStep, HttpRangeResponse, RangeFetch};
use erika::http_read::{ReadStage, ReadStep};
use erika::http_source::{
    HttpRangeSource, PrefetchDecision, HTTP_CACHE_RETAIN_BYTES, HTTP_CACHE_TRIM_SLACK,
    HTTP_PREFETCH_MAX_FAILURES, HTTP_REQUEST_MAX_BYTES, HTTP_STREAM_TO_EOF_BYTE_LIMIT,
};
use erika::length::{probe_http_total_length, probe_request_headers, LengthStep};
use erika::range::ByteRange;
use erika::retry::HttpFailure;
use ureq::http::{HeaderMap, HeaderName, HeaderValue};

const MIB: u64 = 1024 * 1024;

/// What the origin answers to one request.
struct Reply {
    status: u16,
    headers: Vec<(&'static str, String)>,
    body: Vec<u8>,
    /// The connection closes before the promised end of the body.
    broken: bool,
}

fn partial(start: u64, total: u64, body: &[u8]) -> Reply {
    let end = start + body.len() as u64 - 1;
    Reply {
        status: 206,
        headers: vec![
            ("content-range", format!("bytes {start}-{end}/{total}")),
            ("content-length", format!("{}", body.len())),
        ],
        body: body.to_vec(),
        broken: false,
    }
}

fn truncated(start: u64, total: u64, declared_length: u64, body: &[u8]) -> Reply {
    let end = start + declared_length - 1;
    Reply {
        status: 206,
        headers: vec![
            ("content-range", format!("bytes {start}-{end}/{total}")),
            ("content-length", format!("{declared_length}")),
        ],
        body: body.to_vec(),
        broken: true,
    }
}

fn simple(status: u16, body: &[u8]) -> Reply {
    Reply {
        status,
        headers: vec![("content-length", format!("{}", body.len()))],
        body: body.to_vec(),
        broken: false,
    }
}

/// How the origin behaves.
enum Behaviour {
    /// It gives these answers, one per request.
    Script(Vec<Reply>),
    /// It serves ranges of a resource, in bodies of at most so many bytes.
    Ranges { total: u64, piece: u64 },
}

struct Origin {
    behaviour: Behaviour,
    requests: Vec<String>,
}

impl Origin {
    fn script(replies: Vec<Reply>) -> Origin {
        Origin { behaviour: Behaviour::Script(replies), requests: Vec::new() }
    }

    fn ranges(total: u64, piece: u64) -> Origin {
        Origin { behaviour: Behaviour::Ranges { total, piece }, requests: Vec::new() }
    }

    /// Answers a request and keeps its head.
    fn answer(&mut self, method: &str, headers: &[(String, String)]) -> Reply {
        let mut head = format!("{method} /video.mkv\n");
        let mut asked = String::new();
        for (name, value) in headers {
            head.push_str(&format!("{name}: {value}\n"));
            if name == "Range" {
                asked = value.clone();
            }
        }
        self.requests.push(head.to_lowercase());
        match &mut self.behaviour {
            Behaviour::Script(replies) => {
                assert!(!replies.is_empty(), "unexpected request: {head}");
                replies.remove(0)
            }
            Behaviour::Ranges { total, piece } => {
                let (start, end) = asked_range(&asked, *total);
                let end = end.min(start + *piece - 1);
                partial(start, *total, &vec![b'x'; (end - start + 1) as usize])
            }
        }
    }

    fn next_request(&mut self) -> String {
        assert!(!self.requests.is_empty(), "the origin should have received a request");
        self.requests.remove(0)
    }
}

fn asked_range(value: &str, total: u64) -> (u64, u64) {
    let spec = value.strip_prefix("bytes=").unwrap_or_default();
    let (start, end) = spec.split_once('-').unwrap_or_default();
    let end = end.parse::<u64>().unwrap_or(total - 1);
    (start.parse::<u64>().unwrap_or(0), end.min(total - 1))
}

fn header_map(reply: &Reply) -> HeaderMap<HeaderValue> {
    let mut map = HeaderMap::new();
    for (name, value) in &reply.headers {
        map.insert(HeaderName::from_static(name), HeaderValue::from_str(value).unwrap());
    }
    map
}

fn failure(status: u16) -> HttpFailure {
    HttpFailure { status: Some(status), message: format!("http status: {status}") }
}

fn fetch(
    origin: &mut Origin,
    own: &Vec<(String, String)>,
    range: ByteRange,
) -> Result<HttpRangeResponse, SourceError> {
    let mut step = RangeFetch::new(range).next_attempt(own, 0);
    loop {
        step = match step {
            FetchStep::Request(fetch, headers) => {
                let reply = origin.answer("get", &headers);
                if reply.status >= 400 {
                    fetch.request_failed(failure(reply.status), 0)
                } else {
                    match fetch.response_arrived(reply.status, &header_map(&reply)) {
                        FetchStep::Receive(fetch) => {
                            let broken = match reply.broken {
                                true => Some("Peer disconnected".to_string()),
                                false => None,
                            };
                            fetch.body_received(reply.body, broken, 0)
                        }
                        other => other,
                    }
                }
            }
            FetchStep::Wait(fetch, ms) => {
                assert!(ms == 200 || ms == 1000);
                fetch.next_attempt(own, 0)
            }
            FetchStep::Receive(_) => unreachable!(),
            FetchStep::Done(outcome) => return outcome,
        };
    }
}

fn learn_length(
    source: &mut HttpRangeSource,
    origin: &mut Origin,
) -> Result<Option<u64>, SourceError> {
    let own = source.http_headers.clone();
    let mut step = source.len();
    loop {
        step = match step {
            LengthStep::Head(probe) => {
                let reply = origin.answer("head", &own);
                if reply.status >= 400 {
                    probe.head_failed(failure(reply.status), 0)
                } else {
                    probe.head_arrived(&header_map(&reply))
                }
            }
            LengthStep::Wait(probe, _) => probe.next_attempt(),
            LengthStep::FirstByte(probe) => {
                let reply = origin.answer("get", &probe_request_headers(&own));
                let outcome = probe_http_total_length(reply.status, &header_map(&reply));
                probe.first_byte_probed(outcome)
            }
            LengthStep::Done(outcome) => {
                source.record_length(&outcome);
                return outcome;
            }
        };
    }
}

/// A source with its prefetch, which has brought its answer but may not have ended yet.
struct Reader {
    source: HttpRangeSource,
    origin: Origin,
    flight: Option<Result<HttpRangeResponse, SourceError>>,
    ended: bool,
}

impl Reader {
    fn new(source: HttpRangeSource, origin: Origin) -> Reader {
        Reader { source, origin, flight: None, ended: false }
    }

    fn launch(&mut self, range: ByteRange) {
        self.source.prefetch = Some(range);
        let own = self.source.http_headers.clone();
        self.flight = Some(fetch(&mut self.origin, &own, range));
        self.ended = false;
    }

    fn read(&mut self, range: ByteRange) -> Result<Vec<u8>, SourceError> {
        let mut step = self.source.read_range(range);
        loop {
            step = match step {
                ReadStep::Poll(read) => {
                    let polled = match self.ended {
                        true => self.flight.take(),
                        false => None,
                    };
                    self.source.prefetch_polled(read, polled)
                }
                ReadStep::Join(read) => {
                    let outcome = self.flight.take().unwrap();
                    self.source.prefetch_joined(read, outcome)
                }
                ReadStep::Learn(read) => {
                    let _ = learn_length(&mut self.source, &mut self.origin);
                    self.source.length_learned(read)
                }
                ReadStep::Fetch(read, piece) => {
                    let own = self.source.http_headers.clone();
                    let outcome = fetch(&mut self.origin, &own, piece);
                    self.source.fetched(read, outcome)
                }
                ReadStep::Done(outcome) => {
                    if let Some(piece) = outcome.prefetch {
                        if let Behaviour::Script(replies) = &self.origin.behaviour {
                            if replies.is_empty() {
                                return outcome.result;
                            }
                        }
                        self.launch(piece);
                    }
                    return outcome.result;
                }
            };
        }
    }
}

fn bytes(start: u64, length: u64) -> ByteRange {
    ByteRange { start, length: Some(length) }
}

fn source(total: Option<u64>) -> HttpRangeSource {
    let mut source = HttpRangeSource::new("http://origin.invalid/video.mkv", None);
    source.content_length = total;
    source
}

fn deep_source(total: u64, read_ahead: u64) -> HttpRangeSource {
    let mut source = HttpRangeSource::with_http_headers_and_read_ahead(
        "http://origin.invalid/video.mkv",
        Vec::new(),
        Some(read_ahead),
        None,
    );
    source.content_length = Some(total);
    source
}

#[test]
fn http_default_read_ahead_is_streaming_sized() {
    assert_eq!(HttpRangeSource::DEFAULT_READ_AHEAD_BYTES, 2 * 1024 * 1024);
}

#[test]
fn http_source_constructor_preserves_custom_headers() {
    let source = HttpRangeSource::with_http_headers(
        "https://example.invalid/video.mp4",
        vec![
            ("Authorization".to_string(), "Bearer test".to_string()),
            ("X-Playback-Session".to_string(), "session-123".to_string()),
        ],
        None,
    );
    assert_eq!(
        source.http_headers,
        vec![
            ("Authorization".to_string(), "Bearer test".to_string()),
            ("X-Playback-Session".to_string(), "session-123".to_string()),
        ]
    );
}

#[test]
fn http_source_constructor_preserves_explicit_read_ahead() {
    let source = HttpRangeSource::with_http_headers_and_read_ahead(
        "https://example.invalid/video.mp4",
        Vec::new(),
        Some(16 * 1024 * 1024),
        None,
    );

    assert_eq!(source.read_ahead_bytes, 16 * 1024 * 1024);
}

#[test]
fn http_source_new_starts_without_custom_headers() {
    let source = HttpRangeSource::new("https://example.invalid/video.mp4", None);

    assert!(source.http_headers.is_empty());
    assert_eq!(source.uri(), "https://example.invalid/video.mp4");
}

#[test]
fn http_source_preserves_headers_without_normalizing_values() {
    let headers = vec![
        ("Authorization".to_string(), "Bearer a+b/c==".to_string()),
        ("X-Client-Tag".to_string(), "  preserve whitespace  ".to_string()),
    ];
    let source = HttpRangeSource::with_http_headers(
        "https://example.invalid/video.mp4",
        headers.clone(),
        None,
    );

    assert_eq!(source.http_headers, headers);
}

#[test]
fn the_read_ahead_setting_yields_to_an_explicit_window() {
    let uri = "https://example.invalid/video.mp4";
    assert_eq!(HttpRangeSource::new(uri, Some("123456")).read_ahead_bytes, 123456);
    assert_eq!(HttpRangeSource::new(uri, Some("+7")).read_ahead_bytes, 7);
    assert_eq!(HttpRangeSource::new(uri, Some(" 7")).read_ahead_bytes, 2 * MIB);
    assert_eq!(HttpRangeSource::new(uri, Some("lots")).read_ahead_bytes, 2 * MIB);
    assert_eq!(HttpRangeSource::new(uri, Some("0")).read_ahead_bytes, 0);
    let explicit = |read_ahead| {
        let source = HttpRangeSource::with_http_headers_and_read_ahead(
            uri,
            Vec::new(),
            read_ahead,
            Some("123456"),
        );
        (source.read_ahead_bytes, source.request_bytes)
    };
    assert_eq!(explicit(Some(9 * MIB)), (9 * MIB, 4 * MIB));
    assert_eq!(explicit(Some(0)), (123456, 123456));
    assert_eq!(explicit(None), (123456, 123456));
}

#[test]
fn length_probe_keeps_non_range_http_statuses_as_errors() {
    let reply = simple(404, b"");
    let error = probe_http_total_length(reply.status, &header_map(&reply)).unwrap_err();
    assert!(error.message().contains("404"));
}

#[test]
fn http_range_rejects_status_200_for_nonzero_offset() {
    let body = vec![b'a'; 100];
    let mut reader = Reader::new(source(Some(100)), Origin::script(vec![simple(200, &body)]));
    let error = reader
        .read(bytes(10, 10))
        .expect_err("a 200 answer to a mid-file Range request must fail");
    assert!(matches!(error, SourceError::Http(message) if message.contains("ignored Range")));
    assert!(reader.origin.next_request().contains("range: bytes=10-99"));
}

#[test]
fn http_range_accepts_status_200_for_whole_file_and_backfills_total() {
    let body = b"whole-file-payload".to_vec();
    let mut reader = Reader::new(source(None), Origin::script(vec![simple(200, &body)]));
    assert_eq!(reader.read(ByteRange::suffix_from(0)).unwrap(), body);
    // The Content-Length of the 200 response backfills the total without HEAD.
    let mut silent = Origin::script(Vec::new());
    assert_eq!(
        learn_length(&mut reader.source, &mut silent).unwrap(),
        Some(body.len() as u64)
    );
}

#[test]
fn http_range_backfills_total_from_206_content_range() {
    let body = vec![b'x'; 16];
    let mut reader = Reader::new(source(None), Origin::script(vec![partial(0, 4096, &body)]));
    assert_eq!(reader.read(ByteRange::suffix_from(0)).unwrap(), body);
    // The total of the 206 Content-Range satisfies len() without a HEAD request.
    let mut silent = Origin::script(Vec::new());
    assert_eq!(learn_length(&mut reader.source, &mut silent).unwrap(), Some(4096));
}

#[test]
fn http_range_retries_after_server_error() {
    let body: Vec<u8> = (0..64u8).collect();
    let mut reader = Reader::new(
        source(Some(64)),
        Origin::script(vec![simple(500, b"boom"), partial(0, 64, &body)]),
    );
    assert_eq!(reader.read(bytes(0, 64)).unwrap(), body);
    assert!(reader.origin.next_request().contains("range: bytes=0-63"));
    assert!(reader.origin.next_request().contains("range: bytes=0-63"));
}

#[test]
fn http_range_resumes_truncated_body_from_received_offset() {
    let body: Vec<u8> = (0..64u8).collect();
    let mut reader = Reader::new(
        source(Some(64)),
        Origin::script(vec![
            // Promises 64 bytes but closes after 32.
            truncated(0, 64, 64, &body[..32]),
            partial(32, 64, &body[32..]),
        ]),
    );
    assert_eq!(reader.read(bytes(0, 64)).unwrap(), body);
    assert!(reader.origin.next_request().contains("range: bytes=0-63"));
    // The resumed request must start where the truncated body stopped.
    assert!(reader.origin.next_request().contains("range: bytes=32-63"));
}

#[test]
fn take_prefetch_joins_inflight_thread_instead_of_refetching() {
    let body: Vec<u8> = (0..100u8).collect();
    let mut reader =
        Reader::new(source(Some(100)), Origin::script(vec![partial(0, 100, &body)]));
    reader.launch(bytes(0, 100));
    assert_eq!(reader.read(bytes(0, 100)).unwrap(), body);
    let _ = reader.origin.next_request();
    // Joining the pending prefetch must not issue a duplicate download.
    assert!(reader.origin.requests.is_empty());
}

#[test]
fn short_prefetch_read_falls_back_to_synchronous_fetch() {
    let body: Vec<u8> = (0..100u8).collect();
    let mut reader = Reader::new(
        source(Some(100)),
        Origin::script(vec![
            // The answer to the prefetch is complete but shorter than was asked for.
            partial(0, 100, &body[..50]),
            partial(50, 100, &body[50..]),
        ]),
    );
    reader.launch(bytes(0, 100));
    // The piece already held is kept, so the follow-up only asks for the gap.
    assert_eq!(reader.read(bytes(0, 100)).unwrap(), body);
    let _ = reader.origin.next_request();
    assert!(reader.origin.next_request().contains("range: bytes=50-99"));
}

#[test]
fn failing_prefetch_degrades_to_a_synchronous_fetch() {
    let body: Vec<u8> = (0..64u8).collect();
    let mut reader = Reader::new(
        source(Some(64)),
        Origin::script(vec![
            // 4xx is not retried, so the prefetch fails on its first answer.
            simple(404, b"gone"),
            partial(0, 64, &body),
        ]),
    );
    reader.launch(bytes(0, 64));

    // A dead prefetch must not end the read: the same bytes are fetched.
    assert_eq!(reader.read(bytes(0, 64)).unwrap(), body);
    let first = reader.origin.next_request();
    assert!(first.contains("range: bytes=0-63"), "first: {first}");
    let second = reader.origin.next_request();
    assert!(second.contains("range: bytes=0-63"), "second: {second}");
    assert_eq!(
        reader.source.prefetch_failures, 0,
        "a successful synchronous fetch clears the failure latch"
    );
}

#[test]
fn http_read_straddling_the_cache_end_joins_the_inflight_piece() {
    let total = 1024 * 1024 + 4096;
    let piece = vec![b'p'; 4096];
    let mut reader = Reader::new(
        source(Some(total)),
        Origin::script(vec![
            partial(1024 * 1024, total, &piece),
            // Only a duplicate download would ever need this one.
            partial(1024 * 1024, total, &piece),
        ]),
    );
    // 1 MiB already buffered, and the next piece in flight.
    reader.source.cache_start = 0;
    reader.source.cache_bytes = vec![b'c'; 1024 * 1024];
    reader.launch(bytes(1024 * 1024, 4096));

    // The read starts inside the cache and ends past its end, so it needs the piece that is
    // already on the wire.
    let read = reader.read(bytes(1024 * 1024 - 1024, 2048)).unwrap();
    assert_eq!(read.len(), 2048);
    assert!(read[..1024].iter().all(|byte| *byte == b'c'));
    assert!(read[1024..].iter().all(|byte| *byte == b'p'));
    let _ = reader.origin.next_request();
    assert!(
        reader.origin.requests.is_empty(),
        "a read that straddles the cache end must not duplicate the in-flight request"
    );
}

#[test]
fn http_stream_to_eof_reads_past_eight_pieces() {
    // An open-ended read larger than one read's fetch allowance must still reach the end.
    let chunks = 9u64;
    let total = chunks * HTTP_REQUEST_MAX_BYTES;
    let replies = (0..chunks)
        .map(|index| {
            partial(
                index * HTTP_REQUEST_MAX_BYTES,
                total,
                &vec![b'x'; HTTP_REQUEST_MAX_BYTES as usize],
            )
        })
        .collect();
    let mut reader = Reader::new(source(None), Origin::script(replies));

    let read = reader.read(ByteRange::suffix_from(0)).unwrap();
    assert_eq!(
        read.len() as u64,
        total,
        "an open-ended read must reach EOF, not stop at the attempt cap"
    );
    for index in 0..chunks {
        let head = reader.origin.next_request();
        assert!(
            head.contains(&format!("range: bytes={}-", index * HTTP_REQUEST_MAX_BYTES)),
            "request {index}: {head}"
        );
    }
}

#[test]
fn http_short_pieces_still_cover_the_read() {
    // An origin that caps every body at 256 KiB needs many pieces to cover a gap.
    let total = 8 * 1024 * 1024u64;
    let piece = 256 * 1024u64;
    let mut reader = Reader::new(source(Some(total)), Origin::ranges(total, piece));

    // Warm the cache with the first short piece, then read just inside the 4 MiB forward-gap
    // guard: covering it takes about 15 more pieces.
    assert_eq!(reader.read(bytes(0, 1024)).unwrap().len(), 1024);
    let target = HTTP_REQUEST_MAX_BYTES;
    let read = reader.read(bytes(target, 1024)).expect("short pieces must still cover the read");
    assert_eq!(read.len(), 1024, "a covered read must not look like EOF");
    assert!(reader.origin.requests.len() <= 40);
}

#[test]
fn http_caller_requests_are_capped_too() {
    let total = 64 * 1024 * 1024u64;
    let mut reader = Reader::new(
        deep_source(total, 32 * 1024 * 1024),
        Origin::script(vec![partial(0, total, &vec![b'a'; 4096])]),
    );

    // The caller sees a short read and asks again.
    let read = reader.read(bytes(0, 32 * 1024 * 1024)).unwrap();
    assert_eq!(read.len(), 4096);
    let head = reader.origin.next_request();
    assert!(head.contains("range: bytes=0-4194303"), "request head: {head}");
}

#[test]
fn http_trim_never_drops_the_current_read_position() {
    let mut source = HttpRangeSource::new("https://example.invalid/video.mp4", None);
    source.cache_start = 0;
    source.cache_bytes = vec![b'c'; 25 * 1024 * 1024];

    // A read starting at 0 may not have its own start trimmed away, however large it is.
    source.trim_cache(bytes(0, 20 * 1024 * 1024));
    assert_eq!(source.cache_start, 0);

    // A read near the cache end trims the head down to the retention budget.
    source.trim_cache(bytes(25 * 1024 * 1024, 1024));
    assert_eq!(source.cache_start, 25 * 1024 * 1024 - HTTP_CACHE_RETAIN_BYTES);
}

#[test]
fn http_prefetch_refills_towards_the_configured_depth() {
    // 20 MiB ahead with a 32 MiB window is still below the configured depth.
    let mut source = deep_source(64 * 1024 * 1024, 32 * 1024 * 1024);
    source.cache_start = 0;
    source.cache_bytes = vec![b'c'; 20 * 1024 * 1024];

    let started = source.maybe_start_prefetch(bytes(0, 1024));
    assert!(source.prefetch.is_some(), "20 MiB ahead is below a 32 MiB window");
    assert_eq!(started, Some(bytes(20 * MIB, 4 * MIB)));
}

#[test]
fn http_deep_window_against_a_slow_origin_still_serves_the_read() {
    // A 32 MiB window must not go out as one 32 MiB body, which a slow origin could not deliver
    // before the client's deadline.
    let total = 64 * 1024 * 1024u64;
    let mut reader = Reader::new(
        deep_source(total, 32 * 1024 * 1024),
        Origin::ranges(total, HTTP_REQUEST_MAX_BYTES),
    );
    let read = reader
        .read(bytes(0, 1024))
        .expect("a deep window must not turn a slow origin into a failed read");
    assert_eq!(read.len(), 1024);
    let head = reader.origin.next_request();
    assert!(head.contains("range: bytes=0-4194303"), "request head: {head}");
}

#[test]
fn http_resumes_more_than_three_times_while_bytes_arrive() {
    // Three truncated bodies, then the rest: every attempt moves the resume point, so the fetch
    // has to keep going.
    let total = 4 * 1024 * 1024u64;
    let held = vec![b'a'; 1024 * 1024];
    let mut reader = Reader::new(
        deep_source(total, 8 * 1024 * 1024),
        Origin::script(vec![
            truncated(0, total, 4 * 1024 * 1024, &held),
            truncated(1024 * 1024, total, 3 * 1024 * 1024, &held),
            truncated(2 * 1024 * 1024, total, 2 * 1024 * 1024, &held),
            partial(3 * 1024 * 1024, total, &held),
        ]),
    );

    assert_eq!(reader.read(bytes(0, 1024)).unwrap().len(), 1024);
    let first = reader.origin.next_request();
    assert!(first.contains("range: bytes=0-4194303"), "{first}");
    let second = reader.origin.next_request();
    assert!(second.contains("range: bytes=1048576-4194303"), "{second}");
    let third = reader.origin.next_request();
    assert!(third.contains("range: bytes=2097152-4194303"), "{third}");
    let fourth = reader.origin.next_request();
    assert!(fourth.contains("range: bytes=3145728-4194303"), "{fourth}");
}

#[test]
fn http_request_body_is_capped_regardless_of_the_read_ahead_window() {
    let total = 64 * 1024 * 1024u64;
    let mut reader = Reader::new(
        deep_source(total, 32 * 1024 * 1024),
        Origin::script(vec![partial(0, total, &vec![b'a'; 4096])]),
    );
    assert_eq!(reader.source.read_ahead_bytes, 32 * 1024 * 1024);
    assert_eq!(reader.source.request_bytes, HTTP_REQUEST_MAX_BYTES);

    assert_eq!(reader.read(bytes(0, 1024)).unwrap().len(), 1024);
    let head = reader.origin.next_request();
    assert!(head.contains("range: bytes=0-4194303"), "request head: {head}");
}

#[test]
fn http_prefetch_chain_refills_the_window_in_capped_pieces() {
    let total = 64 * 1024 * 1024u64;
    let piece = vec![b'p'; HTTP_REQUEST_MAX_BYTES as usize];
    let mut reader = Reader::new(
        deep_source(total, 8 * 1024 * 1024),
        Origin::script(vec![
            partial(0, total, &piece),
            partial(HTTP_REQUEST_MAX_BYTES, total, &piece),
        ]),
    );

    assert_eq!(reader.read(bytes(0, 1024)).unwrap().len(), 1024);
    let first = reader.origin.next_request();
    assert!(first.contains("range: bytes=0-4194303"), "first: {first}");
    // The refill is the next capped piece, anchored at the cache end.
    let refill = reader.origin.next_request();
    assert!(refill.contains("range: bytes=4194304-8388607"), "refill: {refill}");

    // Once the piece lands it is folded into the cache.
    reader.ended = true;
    assert_eq!(reader.read(bytes(1024, 64)).unwrap().len(), 64);
    assert_eq!(
        reader.source.cache_bytes.len() as u64,
        2 * HTTP_REQUEST_MAX_BYTES,
        "the finished piece must have been absorbed into the cache"
    );
}

#[test]
fn http_rewind_inside_the_retained_tail_is_served_from_cache() {
    let total = 40 * 1024 * 1024u64;
    let mut reader = Reader::new(source(Some(total)), Origin::script(Vec::new()));
    // A 40 MiB window has been buffered from byte zero.
    reader.source.cache_start = 0;
    reader.source.cache_bytes = (0..total).map(|offset| (offset % 251) as u8).collect();

    // Reading near the tail trims the head down to the retention budget...
    let tail_start = total - 1024;
    assert_eq!(reader.read(bytes(tail_start, 1024)).unwrap().len(), 1024);
    assert_eq!(
        reader.source.cache_start,
        (tail_start) - HTTP_CACHE_RETAIN_BYTES,
        "the head must be trimmed to the retention budget, measured from the read"
    );

    // ...and a small rewind lands inside what is left: served locally.
    let rewind_start = reader.source.cache_end() - 4 * 1024 * 1024;
    let read = reader.read(bytes(rewind_start, 64)).unwrap();
    assert_eq!(read.len(), 64);
    assert_eq!(read[0], (rewind_start % 251) as u8);
    assert!(
        reader.origin.requests.is_empty(),
        "a rewind inside the retained tail must not hit the network"
    );
}

#[test]
fn http_rewind_past_the_retained_tail_reanchors_the_window() {
    let target = 2 * 1024 * 1024u64;
    let total = target + 128;
    let mut reader = Reader::new(
        source(Some(total)),
        Origin::script(vec![partial(target, total, &[b'r'; 128])]),
    );
    // The cache only holds the tail; everything before it was trimmed.
    reader.source.cache_start = 24 * 1024 * 1024;
    reader.source.cache_bytes = vec![b'c'; 1024];

    assert_eq!(reader.read(bytes(target, 64)).unwrap().len(), 64);
    let head = reader.origin.next_request();
    assert!(head.contains(&format!("range: bytes={target}-")), "request head: {head}");
    assert_eq!(reader.source.cache_start, target);
}

#[test]
fn len_retries_head_before_succeeding() {
    let mut source = source(None);
    let mut head_response = simple(200, b"");
    head_response.headers = vec![("content-length", "4321".to_string())];
    let mut origin = Origin::script(vec![simple(500, b""), head_response]);
    assert_eq!(learn_length(&mut source, &mut origin).unwrap(), Some(4321));
    assert!(origin.next_request().starts_with("head"));
    assert!(origin.next_request().starts_with("head"));
}

#[test]
fn len_probe_does_not_download_a_body_that_ignores_range() {
    // HEAD is rejected and the origin ignores Range, answering 200 with the whole object: the
    // total comes from Content-Length.
    let payload = vec![b'x'; 512 * 1024];
    let mut source = source(None);
    let mut origin = Origin::script(vec![simple(405, b""), simple(200, &payload)]);
    assert_eq!(learn_length(&mut source, &mut origin).unwrap(), Some(payload.len() as u64));
    assert!(origin.next_request().starts_with("head"));
    let probe = origin.next_request();
    assert!(probe.starts_with("get"));
    assert!(probe.contains("range: bytes=0-0"), "probe head: {probe}");
}

#[test]
fn resumed_range_is_bound_to_the_first_response_entity() {
    let body: Vec<u8> = (0..64u8).collect();
    let mut first_reply = truncated(0, 64, 64, &body[..32]);
    first_reply.headers.push(("etag", "\"v1\"".to_string()));
    let mut reader = Reader::new(
        source(Some(64)),
        Origin::script(vec![first_reply, partial(32, 64, &body[32..])]),
    );
    assert_eq!(reader.read(bytes(0, 64)).unwrap(), body);

    let first = reader.origin.next_request();
    assert!(!first.contains("if-range"), "first request: {first}");
    let resumed = reader.origin.next_request();
    assert!(
        resumed.contains("if-range: \"v1\""),
        "resumed request must replay the validator: {resumed}"
    );
}

#[test]
fn resumed_range_rejects_a_response_served_from_a_different_offset() {
    let body: Vec<u8> = (0..64u8).collect();
    let mut reader = Reader::new(
        source(Some(64)),
        Origin::script(vec![
            truncated(0, 64, 64, &body[..32]),
            // The resume asked for byte 32; this answers from 0 instead.
            partial(0, 64, &body[..32]),
        ]),
    );
    let error = reader.read(bytes(0, 64)).unwrap_err();
    assert!(
        error.message().contains("served range from 0"),
        "unexpected error: {error:?}"
    );
    assert_eq!(
        error,
        SourceError::Http("server served range from 0, expected 32".to_string())
    );
}

#[test]
fn len_falls_back_to_range_probe_when_head_is_rejected() {
    let mut source = source(None);
    let mut origin = Origin::script(vec![simple(405, b""), partial(0, 1234, b"z")]);
    assert_eq!(learn_length(&mut source, &mut origin).unwrap(), Some(1234));
    assert!(origin.next_request().starts_with("head"));
    let probe = origin.next_request();
    assert!(probe.starts_with("get"));
    assert!(probe.contains("range: bytes=0-0"));
}

#[test]
fn len_falls_back_to_range_probe_when_head_reports_zero() {
    let mut source = source(None);
    let mut origin = Origin::script(vec![simple(200, b""), partial(0, 911_198_509, b"z")]);
    assert_eq!(learn_length(&mut source, &mut origin).unwrap(), Some(911_198_509));
    assert!(origin.next_request().starts_with("head"));
    let probe = origin.next_request();
    assert!(probe.starts_with("get"));
    assert!(probe.contains("range: bytes=0-0"));
}

#[test]
fn len_preserves_zero_when_range_probe_confirms_empty_resource() {
    let mut source = source(None);
    let mut refused = simple(416, b"");
    refused.headers.push(("content-range", "bytes */0".to_string()));
    let mut origin = Origin::script(vec![simple(200, b""), refused]);
    assert_eq!(learn_length(&mut source, &mut origin).unwrap(), Some(0));
    assert!(origin.next_request().starts_with("head"));
    let probe = origin.next_request();
    assert!(probe.starts_with("get"));
    assert!(probe.contains("range: bytes=0-0"));
}

#[test]
fn len_reports_why_it_failed() {
    let mut rejected = source(None);
    let mut origin = Origin::script(vec![simple(405, b""), simple(403, b"")]);
    assert_eq!(
        learn_length(&mut rejected, &mut origin),
        Err(SourceError::Http("http status: 405".to_string()))
    );
    assert_eq!(rejected.content_length, None);

    let mut zero = source(None);
    let mut origin = Origin::script(vec![simple(200, b""), simple(403, b"")]);
    assert_eq!(
        learn_length(&mut zero, &mut origin),
        Err(SourceError::Http(
            "HEAD reported Content-Length: 0 and range probe failed: http error: http status: 403"
                .to_string()
        ))
    );
}

#[test]
fn len_gives_up_on_head_after_three_failures() {
    let mut source = source(None);
    let mut origin = Origin::script(vec![
        simple(500, b""),
        simple(502, b""),
        simple(503, b""),
        partial(0, 77, b"z"),
    ]);
    assert_eq!(learn_length(&mut source, &mut origin).unwrap(), Some(77));
    assert_eq!(origin.requests.len(), 4);
    assert!(origin.requests[3].starts_with("get"));
    // Once known, the length needs no request.
    let mut silent = Origin::script(Vec::new());
    assert_eq!(learn_length(&mut source, &mut silent).unwrap(), Some(77));
}

#[test]
fn length_probe_ignores_other_statuses_and_unknown_totals() {
    let total = |reply: Reply| probe_http_total_length(reply.status, &header_map(&reply));
    assert_eq!(total(simple(204, b"")), Ok(None));
    let mut unknown = partial(0, 1, b"z");
    unknown.headers = vec![("content-range", "bytes 0-0/*".to_string())];
    assert_eq!(total(unknown), Ok(None));
    let mut padded = simple(200, b"");
    padded.headers = vec![("content-length", " 42 ".to_string())];
    assert_eq!(total(padded), Ok(Some(42)));
    let mut bare = simple(206, b"");
    bare.headers = Vec::new();
    assert_eq!(total(bare), Ok(None));
}

#[test]
fn fetch_fails_on_statuses_without_a_range() {
    let mut origin = Origin::script(vec![simple(204, b"")]);
    assert_eq!(
        fetch(&mut origin, &Vec::new(), bytes(0, 4)).unwrap_err(),
        SourceError::Http("unexpected HTTP status 204 for Range request".to_string())
    );
    let mut origin = Origin::script(vec![simple(404, b"")]);
    assert_eq!(
        fetch(&mut origin, &Vec::new(), bytes(0, 4)).unwrap_err(),
        SourceError::Http("http status: 404".to_string())
    );
    assert_eq!(origin.requests.len(), 1);
}

#[test]
fn fetch_stops_after_three_stalls() {
    let mut origin =
        Origin::script(vec![simple(500, b""), simple(500, b""), simple(503, b"")]);
    assert_eq!(
        fetch(&mut origin, &Vec::new(), bytes(0, 4)).unwrap_err(),
        SourceError::Http("http status: 503".to_string())
    );
    assert_eq!(origin.requests.len(), 3);
}

#[test]
fn fetch_stops_when_its_budget_is_spent() {
    let own = Vec::new();
    match RangeFetch::new(bytes(5, 4)).next_attempt(&own, 119_999) {
        FetchStep::Request(_, headers) => {
            assert_eq!(headers, vec![("Range".to_string(), "bytes=5-8".to_string())]);
        }
        other => panic!("{other:?}"),
    }
    match RangeFetch::new(bytes(5, 4)).next_attempt(&own, 120_000) {
        FetchStep::Done(outcome) => assert_eq!(
            outcome.unwrap_err(),
            SourceError::Http("fetch budget of 120s exhausted for bytes 5..".to_string())
        ),
        other => panic!("{other:?}"),
    }
}

#[test]
fn fetch_takes_a_broken_body_that_is_complete() {
    let mut origin = Origin::script(vec![truncated(0, 9, 9, b"abcdef")]);
    let response = fetch(&mut origin, &Vec::new(), bytes(0, 6)).unwrap();
    assert_eq!(response.bytes, b"abcdef");
    assert_eq!(response.total_length, Some(9));
    assert_eq!(origin.requests.len(), 1);
}

#[test]
fn fetch_sends_the_caller_headers_after_the_range() {
    let own = vec![("X-One".to_string(), "1".to_string()), ("X-Two".to_string(), "2".to_string())];
    let mut reply = truncated(0, 4, 4, b"ab");
    reply.headers.push(("last-modified", "Sat, 01 Jan 2022 00:00:00 GMT".to_string()));
    let mut origin = Origin::script(vec![reply, partial(2, 4, b"cd")]);
    assert_eq!(fetch(&mut origin, &own, bytes(0, 4)).unwrap().bytes, b"abcd");
    assert_eq!(
        origin.requests,
        vec![
            "get /video.mkv\nrange: bytes=0-3\nx-one: 1\nx-two: 2\n".to_string(),
            "get /video.mkv\nrange: bytes=2-3\nx-one: 1\nx-two: 2\n\
             if-range: sat, 01 jan 2022 00:00:00 gmt\n"
                .to_string(),
        ]
    );
}

#[test]
fn validators_prefer_the_entity_tag_and_skip_empty_ones() {
    let validator = |headers: Vec<(&'static str, String)>| {
        let reply = Reply { status: 200, headers, body: Vec::new(), broken: false };
        erika::headers::response_entity_validator(&header_map(&reply))
    };
    let date = "Sat, 01 Jan 2022 00:00:00 GMT".to_string();
    assert_eq!(
        validator(vec![("last-modified", date.clone()), ("etag", " W/\"x\" ".to_string())]),
        Some("W/\"x\"".to_string())
    );
    assert_eq!(
        validator(vec![("last-modified", date.clone()), ("etag", "  ".to_string())]),
        Some(date)
    );
    assert_eq!(validator(vec![("content-type", "video/mp4".to_string())]), None);
}

#[test]
fn headers_that_are_not_text_are_ignored() {
    let mut map = HeaderMap::new();
    map.insert(HeaderName::from_static("etag"), HeaderValue::from_bytes(b"\"\xff\"").unwrap());
    assert_eq!(erika::headers::response_entity_validator(&map), None);
    map.insert(HeaderName::from_static("content-length"), HeaderValue::from_static("12"));
    assert_eq!(erika::headers::content_length(&map), Some(12));
    assert_eq!(erika::headers::content_range_text(&map), None);
    // Of several values the first one counts.
    map.append(HeaderName::from_static("content-length"), HeaderValue::from_static("34"));
    assert_eq!(erika::headers::content_length_text(&map), Some("12".to_string()));
}

#[test]
fn reads_past_the_known_end_are_empty() {
    let mut reader = Reader::new(source(Some(100)), Origin::script(Vec::new()));
    assert_eq!(reader.read(bytes(100, 10)).unwrap(), Vec::<u8>::new());
    assert_eq!(reader.read(ByteRange::suffix_from(4000)).unwrap(), Vec::<u8>::new());
    assert!(reader.origin.requests.is_empty());
}

#[test]
fn reads_stop_at_the_end_of_the_resource() {
    let body: Vec<u8> = (0..100u8).collect();
    let mut reader =
        Reader::new(source(None), Origin::script(vec![simple(405, b""), partial(0, 100, b"z"), partial(90, 100, &body[90..])]));
    assert_eq!(reader.read(bytes(90, 64)).unwrap(), &body[90..]);
    assert_eq!(reader.source.content_length, Some(100));
    assert!(reader.origin.requests[2].contains("range: bytes=90-99"));
}

#[test]
fn reads_go_on_when_the_length_cannot_be_learned() {
    let body: Vec<u8> = (0..100u8).collect();
    let mut reader = Reader::new(
        source(None),
        Origin::script(vec![simple(405, b""), simple(403, b""), simple(200, &body)]),
    );
    assert_eq!(reader.read(bytes(0, 10)).unwrap(), &body[..10]);
    assert!(reader.origin.requests[2].contains("range: bytes=0-2097151"));
    // The whole file has arrived.
    assert_eq!(reader.read(bytes(95, 10)).unwrap(), &body[95..]);
}

#[test]
fn an_origin_of_endless_short_pieces_is_an_error() {
    let total = 8 * MIB;
    let mut reader = Reader::new(source(Some(total)), Origin::ranges(total, 16));
    assert_eq!(reader.read(bytes(0, 16)).unwrap().len(), 16);
    reader.source.prefetch = None;
    assert_eq!(
        reader.read(bytes(MIB, 1024)).unwrap_err(),
        SourceError::Http(
            "origin answered 64 short pieces without covering bytes 1048576..1049600".to_string()
        )
    );
}

#[test]
fn an_origin_without_data_is_an_error() {
    let total = 8 * MIB;
    let mut empty = simple(206, b"");
    empty.headers = Vec::new();
    let mut reader = Reader::new(source(Some(total)), Origin::script(vec![empty]));
    reader.source.cache_bytes = vec![b'c'; 16];
    assert_eq!(
        reader.read(bytes(1000, 8)).unwrap_err(),
        SourceError::Http("no data for bytes 1000.. (origin total 8388608)".to_string())
    );
}

#[test]
fn a_failed_fetch_fails_the_read() {
    let mut reader = Reader::new(source(Some(64)), Origin::script(vec![simple(404, b"")]));
    assert_eq!(
        reader.read(bytes(0, 8)).unwrap_err(),
        SourceError::Http("http status: 404".to_string())
    );
}

#[test]
fn a_far_jump_starts_a_new_window() {
    let total = 64 * MIB;
    let mut reader = Reader::new(source(Some(total)), Origin::ranges(total, 4 * MIB));
    assert_eq!(reader.read(bytes(0, 1024)).unwrap().len(), 1024);
    reader.ended = true;
    assert_eq!(reader.read(bytes(32 * MIB, 1024)).unwrap().len(), 1024);
    assert_eq!(reader.source.cache_start, 32 * MIB);
    let asked: Vec<String> = reader.origin.requests.clone();
    assert!(asked[0].contains("range: bytes=0-2097151"));
    assert!(asked[1].contains("range: bytes=2097152-4194303"));
    assert!(asked[2].contains("range: bytes=33554432-35651583"));
}

#[test]
fn prefetching_pauses_after_three_failures_and_resumes_after_a_fetch() {
    let total = 64 * MIB;
    let mut source = source(Some(total));
    source.cache_bytes = vec![b'c'; 1024];
    for failures in 1..=HTTP_PREFETCH_MAX_FAILURES {
        assert_eq!(source.maybe_start_prefetch(bytes(0, 64)), Some(bytes(1024, 2 * MIB)));
        assert_eq!(source.maybe_start_prefetch(bytes(0, 64)), None);
        source.prefetch = None;
        source.absorb_prefetch(1024, Err(SourceError::Http("gone".to_string())));
        assert_eq!(source.prefetch_failures, failures);
    }
    assert_eq!(source.maybe_start_prefetch(bytes(0, 64)), None);
    let response = HttpRangeResponse { bytes: vec![b'd'; 3], total_length: None };
    assert_eq!(source.record_fetch(response), b"ddd");
    assert_eq!(source.prefetch_failures, 0);
    assert_eq!(source.maybe_start_prefetch(bytes(0, 64)), Some(bytes(1024, 2 * MIB)));
}

#[test]
fn a_full_window_starts_no_prefetch() {
    let mut source = source(Some(64 * MIB));
    source.cache_bytes = vec![b'c'; 3 * MIB as usize];
    assert_eq!(source.maybe_start_prefetch(bytes(0, MIB)), None);
    assert_eq!(
        source.maybe_start_prefetch(bytes(0, MIB + 1)),
        Some(bytes(3 * MIB, 2 * MIB))
    );
    // Near the end only the rest is asked for.
    source.prefetch = None;
    source.content_length = Some(3 * MIB + 5);
    assert_eq!(source.maybe_start_prefetch(bytes(0, 2 * MIB)), Some(bytes(3 * MIB, 5)));
    source.prefetch = None;
    source.content_length = Some(3 * MIB);
    assert_eq!(source.maybe_start_prefetch(bytes(0, 2 * MIB)), None);
}

#[test]
fn a_prefetch_is_absorbed_only_where_the_cache_ends() {
    let mut source = source(None);
    source.cache_start = 10;
    source.cache_bytes = b"abc".to_vec();
    let response = |total| {
        Ok(HttpRangeResponse { bytes: b"xyz".to_vec(), total_length: total })
    };
    source.absorb_prefetch(12, response(Some(50)));
    assert_eq!(source.cache_bytes, b"abc");
    assert_eq!(source.content_length, Some(50));
    source.absorb_prefetch(13, response(Some(60)));
    assert_eq!(source.cache_bytes, b"abcxyz");
    assert_eq!(source.content_length, Some(50));
    assert_eq!(source.cache_end(), 16);
    assert_eq!(source.cached_slice(bytes(12, 3)), Some(b"cxy".to_vec()));
    assert_eq!(source.cached_slice(bytes(9, 3)), None);
    assert_eq!(source.cached_slice(bytes(14, 3)), None);
    assert_eq!(source.cached_slice(ByteRange::suffix_from(12)), None);
    assert_eq!(source.cached_slice(bytes(u64::MAX, 3)), None);
}

#[test]
fn a_prefetch_is_joined_dropped_or_kept() {
    let mut source = source(Some(100));
    source.cache_bytes = vec![b'c'; 20];
    let pending = bytes(20, 20);
    assert_eq!(source.settle_prefetch_for(pending, bytes(10, 15)), PrefetchDecision::Join);
    assert_eq!(source.settle_prefetch_for(pending, bytes(25, 5)), PrefetchDecision::Join);
    assert_eq!(source.settle_prefetch_for(pending, bytes(40, 5)), PrefetchDecision::Drop);
    assert_eq!(source.settle_prefetch_for(pending, bytes(0, 5)), PrefetchDecision::Keep);
    assert_eq!(
        source.settle_prefetch_for(pending, ByteRange::suffix_from(0)),
        PrefetchDecision::Keep
    );
}

#[test]
fn trimming_waits_for_the_slack() {
    let mut source = source(None);
    source.cache_bytes = vec![b'c'; 26 * MIB as usize];
    let start = HTTP_CACHE_RETAIN_BYTES + HTTP_CACHE_TRIM_SLACK;
    source.trim_cache(bytes(start - 1, 8));
    assert_eq!(source.cache_start, 0);
    source.trim_cache(ByteRange::suffix_from(start));
    assert_eq!(source.cache_start, 0);
    source.trim_cache(bytes(start, 8));
    assert_eq!(source.cache_start, HTTP_CACHE_TRIM_SLACK);
    assert_eq!(source.cache_end(), 26 * MIB);
    source.trim_cache(bytes(90 * MIB, 8));
    assert_eq!(source.cache_start, 26 * MIB);
    assert!(source.cache_bytes.is_empty());
}

#[test]
fn a_read_looks_at_the_prefetch_first_and_last() {
    let mut source = source(Some(100));
    source.cache_bytes = vec![b'c'; 20];
    source.prefetch = Some(bytes(20, 20));
    let ReadStep::Poll(read) = source.read_range(bytes(0, 5)) else { panic!("no poll") };
    assert!(matches!(read.stage, ReadStage::Settle));
    let ReadStep::Poll(read) = source.prefetch_polled(read, None) else { panic!("no poll") };
    assert!(matches!(&read.stage, ReadStage::Refill(Some(hit)) if hit == b"ccccc"));
    let landed = Ok(HttpRangeResponse { bytes: vec![b'p'; 20], total_length: Some(100) });
    let ReadStep::Done(outcome) = source.prefetch_polled(read, Some(landed)) else {
        panic!("not done")
    };
    assert_eq!(outcome.result.unwrap(), b"ccccc");
    assert_eq!(outcome.prefetch, Some(bytes(40, 60)));
    assert_eq!(source.prefetch, Some(bytes(40, 60)));
}

#[test]
fn open_ended_reads_stop_at_their_limit() {
    let mut source = source(None);
    let mut step = source.read_range(ByteRange::suffix_from(0));
    let mut pieces = 0u64;
    loop {
        step = match step {
            ReadStep::Fetch(read, piece) => {
                assert_eq!(piece, bytes(pieces * 4 * MIB, 4 * MIB));
                pieces += 1;
                let body = vec![0u8; 4 * MIB as usize];
                source.fetched(read, Ok(HttpRangeResponse { bytes: body, total_length: None }))
            }
            ReadStep::Done(outcome) => {
                assert_eq!(outcome.result.unwrap().len() as u64, HTTP_STREAM_TO_EOF_BYTE_LIMIT);
                break;
            }
            other => panic!("{other:?}"),
        };
    }
    assert_eq!(pieces, 64);
    assert_eq!(source.cache_bytes.len() as u64, 256 * MIB);
}

#[test]
fn fetch_stops_after_eight_attempts_however_much_they_bring() {
    let replies = (0..9u64).map(|at| truncated(at, 100, 100 - at, b"x")).collect();
    let mut origin = Origin::script(replies);
    assert_eq!(
        fetch(&mut origin, &Vec::new(), bytes(0, 100)).unwrap_err(),
        SourceError::Http("Peer disconnected".to_string())
    );
    assert_eq!(origin.requests.len(), 8);
}

#[test]
fn pieces_from_everywhere_make_up_the_resource() {
    let resource: Vec<u8> = (0..5000u32).map(|at| (at % 253) as u8).collect();
    let mut source = HttpRangeSource::with_http_headers_and_read_ahead(
        "http://origin.invalid/video.mkv",
        vec![("X-Tag".to_string(), "t".to_string())],
        Some(700),
        None,
    );
    let mut polls = 0u32;
    let mut flight: Option<ByteRange> = None;
    // Answers are cut short in turn, prefetches land late or fail in turn.
    let answer = |piece: ByteRange, short: u64| {
        let start = piece.start.min(5000);
        let end = (start + piece.length.unwrap().saturating_sub(short).max(1)).min(5000);
        Ok(HttpRangeResponse {
            bytes: resource[start as usize..end as usize].to_vec(),
            total_length: None,
        })
    };
    for (start, length) in [(0, 100), (100, 900), (4000, 2000), (3900, 64), (950, 300), (0, 5000)] {
        let mut held = Vec::new();
        while (held.len() as u64) < length && start + (held.len() as u64) < 5000 {
            let at = start + held.len() as u64;
            let mut step = source.read_range(bytes(at, length - held.len() as u64));
            let read = loop {
                step = match step {
                    ReadStep::Poll(read) => {
                        polls += 1;
                        let polled = match polls % 3 {
                            0 => Some(Err(SourceError::Http("lost".to_string()))),
                            1 => Some(answer(flight.unwrap(), 13)),
                            _ => None,
                        };
                        source.prefetch_polled(read, polled)
                    }
                    ReadStep::Join(read) => {
                        source.prefetch_joined(read, answer(flight.unwrap(), 0))
                    }
                    ReadStep::Learn(read) => {
                        source.record_length(&Ok(Some(5000)));
                        source.length_learned(read)
                    }
                    ReadStep::Fetch(read, piece) => {
                        assert!(piece.start + piece.length.unwrap() <= 5000);
                        source.fetched(read, answer(piece, 5))
                    }
                    ReadStep::Done(outcome) => {
                        if outcome.prefetch.is_some() {
                            flight = outcome.prefetch;
                        }
                        break outcome.result.unwrap();
                    }
                };
            };
            assert!(!read.is_empty());
            held.extend_from_slice(&read);
        }
        let end = (start + length).min(5000);
        assert_eq!(held, &resource[start as usize..end as usize]);
    }
    assert_eq!(source.http_headers, vec![("X-Tag".to_string(), "t".to_string())]);
    assert_eq!((source.read_ahead_bytes, source.request_bytes), (700, 700));
    assert_eq!(source.uri(), "http://origin.invalid/video.mkv");
}

#[test]
fn bytes_that_are_known_to_exist_never_look_like_the_end() {
    let nothing = || {
        let mut reply = simple(206, b"");
        reply.headers = Vec::new();
        reply
    };
    // An empty answer to a read of the first bytes, with and without a window to continue.
    let mut reader = Reader::new(source(Some(100)), Origin::script(vec![nothing()]));
    assert_eq!(
        reader.read(bytes(0, 10)).unwrap_err(),
        SourceError::Http("no data for bytes 0.. (origin total 100)".to_string())
    );
    let mut reader = Reader::new(source(Some(100)), Origin::script(vec![nothing(), nothing()]));
    reader.source.cache_bytes = vec![b'c'; 16];
    assert_eq!(
        reader.read(bytes(16, 8)).unwrap_err(),
        SourceError::Http("no data for bytes 16.. (origin total 100)".to_string())
    );
    assert_eq!(
        reader.read(ByteRange::suffix_from(16)).unwrap_err(),
        SourceError::Http("no data for bytes 16.. (origin total 100)".to_string())
    );
    // One byte is enough of an answer to go on from.
    reader.origin = Origin::ranges(100, 1);
    assert_eq!(reader.read(bytes(16, 8)).unwrap(), b"x");
    assert_eq!(reader.read(bytes(16, 8)).unwrap(), b"xxxxxxxx");
    // A read of no bytes is no read of bytes that exist.
    assert_eq!(reader.read(bytes(20, 0)).unwrap(), b"");
    // Where the length is not known, an empty answer is all there is to go by.
    let mut unknown = source(None);
    unknown.cache_bytes = vec![b'c'; 16];
    assert_eq!(unknown.serve(bytes(16, 8)).unwrap(), b"");
    assert_eq!(unknown.serve(bytes(17, 8)).unwrap(), b"");
    assert_eq!(unknown.serve(bytes(15, 8)).unwrap(), b"c");
}

#[test]
fn open_ended_reads_reach_a_known_end_in_short_pieces() {
    let total = 64 * MIB;
    let mut reader = Reader::new(source(Some(total)), Origin::ranges(total, MIB));
    let read = reader.read(ByteRange::suffix_from(5)).unwrap();
    assert_eq!(read.len() as u64, total - 5);
    assert_eq!((reader.source.cache_start, reader.source.cache_end()), (5, total));
    assert_eq!(reader.origin.requests.len(), 64);
    // A total that the first answer tells counts from the second on.
    let mut reader = Reader::new(
        source(None),
        Origin::script(vec![
            partial(0, 4 * MIB + 4, &vec![b'x'; 4 * MIB as usize]),
            partial(4 * MIB, 4 * MIB + 4, b"yy"),
            partial(4 * MIB + 2, 4 * MIB + 4, b"zz"),
        ]),
    );
    let read = reader.read(ByteRange::suffix_from(0)).unwrap();
    assert_eq!(read.len() as u64, 4 * MIB + 4);
    assert!(read.ends_with(b"yyzz"));
}

#[test]
fn the_last_piece_of_an_open_ended_read_is_cut_at_the_limit() {
    let mut source = source(Some(1024 * MIB));
    let mut step = source.read_range(ByteRange::suffix_from(3));
    let mut asked = 0u64;
    loop {
        step = match step {
            ReadStep::Fetch(read, piece) => {
                asked = piece.length.unwrap();
                let count = asked.min(3 * MIB);
                let body = vec![0u8; count as usize];
                source.fetched(read, Ok(HttpRangeResponse { bytes: body, total_length: None }))
            }
            ReadStep::Done(outcome) => {
                assert_eq!(outcome.result.unwrap().len() as u64, HTTP_STREAM_TO_EOF_BYTE_LIMIT);
                break;
            }
            other => panic!("{other:?}"),
        };
    }
    assert_eq!(asked, MIB);
}

#[test]
fn the_clock_of_a_fetch_runs_on() {
    let own = Vec::new();
    let fetch = RangeFetch::new(bytes(0, 4));
    let started = fetch.gate.started;
    let FetchStep::Request(fetch, _) = fetch.next_attempt(&own, 0) else { panic!("no request") };
    let FetchStep::Wait(fetch, _) = fetch.request_failed(failure(500), 0) else {
        panic!("no wait")
    };
    let FetchStep::Request(fetch, _) = fetch.next_attempt(&own, 0) else { panic!("no request") };
    let reply = truncated(0, 4, 4, b"ab");
    let FetchStep::Receive(fetch) = fetch.response_arrived(206, &header_map(&reply)) else {
        panic!("no body")
    };
    let FetchStep::Wait(fetch, _) = fetch.body_received(reply.body, Some(String::new()), 0) else {
        panic!("no wait")
    };
    assert_eq!(fetch.gate.started, started);
    assert_eq!(fetch.gate.attempts, 2);

    let LengthStep::Head(probe) = source(None).len() else { panic!("no request") };
    let started = probe.gate.started;
    let LengthStep::Wait(probe, _) = probe.head_failed(failure(500), 0) else { panic!("no wait") };
    let LengthStep::Head(probe) = probe.next_attempt() else { panic!("no request") };
    assert_eq!(probe.gate.started, started);
}

#[test]
fn a_learned_length_is_kept_through_reads() {
    let body: Vec<u8> = (0..100u8).collect();
    // The first answer tells the total; a later one contradicts it, one tells none, one fails.
    let mut silent = partial(60, 100, &body[60..80]);
    silent.headers = Vec::new();
    let mut reader = Reader::new(
        source(None),
        Origin::script(vec![
            simple(405, b""),
            simple(403, b""),
            partial(0, 100, &body[..40]),
            partial(40, 999, &body[40..60]),
            silent,
            simple(404, b""),
        ]),
    );
    assert_eq!(reader.read(bytes(0, 10)).unwrap(), &body[..10]);
    assert_eq!(reader.source.content_length, Some(100));
    reader.source.prefetch = None;
    reader.flight = None;
    let _ = reader.read(bytes(30, 70));
    assert_eq!(reader.source.content_length, Some(100));
    let mut unasked = Origin::script(Vec::new());
    assert_eq!(learn_length(&mut reader.source, &mut unasked).unwrap(), Some(100));
}
