//! Choosing sources, and retrying requests.
use std::time::{Duration, Instant};

use erika::error::SourceError;
use erika::fd_uri::OwnedFdUri;
use erika::owned_fd::{register_android_owned_fd, OwnedFdRegistry};
use erika::range::ByteRange;
use erika::retry::{
    http_error_is_retryable, http_retry_backoff, HttpFailure, HttpRetryGate,
    HTTP_FETCH_MAX_RESUME_ATTEMPTS, HTTP_FETCH_TOTAL_BUDGET_MS,
};
use erika::select::{
    local_path_from_uri, read_uri_to_end, source_from_uri, source_from_uri_with_hint,
    source_from_uri_with_hint_and_headers, source_from_uri_with_options, Host, LocalFileSource,
    MediaSourceHint, SelectedSource,
};

fn host() -> Host {
    Host { path_exists: false, read_ahead_setting: None, descriptors: None }
}

#[test]
fn http_retry_gate_fails_fast_when_no_bytes_arrive() {
    let mut gate = HttpRetryGate::new();
    let _ = gate.begin_attempt();
    assert!(gate.fail(0).is_some());
    let _ = gate.begin_attempt();
    assert!(gate.fail(0).is_some());
    // A fetch that never moved must fail fast.
    let _ = gate.begin_attempt();
    assert!(gate.fail(0).is_none(), "three stalls must stop the fetch");
}

#[test]
fn http_retry_gate_keeps_resuming_while_bytes_arrive() {
    let mut gate = HttpRetryGate::new();
    let mut allowed = 0;
    for received in 1..=u64::from(HTTP_FETCH_MAX_RESUME_ATTEMPTS) {
        let _ = gate.begin_attempt();
        match gate.fail(received) {
            Some(_) => allowed += 1,
            None => break,
        }
    }
    // The whole resume allowance is available once every attempt moves the resume point.
    assert_eq!(allowed, HTTP_FETCH_MAX_RESUME_ATTEMPTS - 1);
}

#[test]
fn http_retry_gate_forgets_stalls_once_bytes_arrive() {
    let mut gate = HttpRetryGate::new();
    let _ = gate.begin_attempt();
    assert!(gate.fail(0).is_some());
    let _ = gate.begin_attempt();
    assert!(gate.fail(0).is_some());
    let _ = gate.begin_attempt();
    assert!(gate.fail(64).is_some(), "progress resets the stall count");
    let _ = gate.begin_attempt();
    assert!(gate.fail(64).is_some());
    let _ = gate.begin_attempt();
    assert!(gate.fail(64).is_some());
    let _ = gate.begin_attempt();
    assert!(gate.fail(64).is_none(), "progress does not license endless stalls");
}

#[test]
fn http_retry_gate_respects_the_wall_clock_ceiling() {
    let mut gate = HttpRetryGate::new();
    gate.started = Instant::now() - Duration::from_millis(HTTP_FETCH_TOTAL_BUDGET_MS as u64);
    let _ = gate.begin_attempt();
    assert!(gate.fail(1).is_none(), "the ceiling stops even a progressing fetch");
    assert!(gate.expired());
    assert!(gate.elapsed() >= 120_000);
}

#[test]
fn waits_grow_and_end_before_the_ceiling() {
    assert_eq!(http_retry_backoff(0), 200);
    assert_eq!(http_retry_backoff(1), 200);
    assert_eq!(http_retry_backoff(2), 1000);
    assert_eq!(http_retry_backoff(9), 1000);
    let mut gate = HttpRetryGate::new();
    assert_eq!(gate.begin_attempt(), 1);
    assert_eq!(gate.fail_at(1, 119_799), Some(200));
    assert_eq!(gate.fail_at(2, 119_800), None);
    assert!(!HttpRetryGate::new().expired());
}

#[test]
fn refusals_by_the_server_are_lasting() {
    let failure = |status| HttpFailure { status, message: String::new() };
    assert!(http_error_is_retryable(&failure(None)));
    assert!(http_error_is_retryable(&failure(Some(500))));
    assert!(http_error_is_retryable(&failure(Some(503))));
    assert!(!http_error_is_retryable(&failure(Some(499))));
    assert!(!http_error_is_retryable(&failure(Some(404))));
}

#[test]
fn source_from_uri_rejects_unknown_scheme() {
    match source_from_uri("smb://example/video.mkv", &mut host()) {
        Ok(_) => panic!("unexpectedly accepted unsupported source"),
        Err(error) => assert!(matches!(error, SourceError::Unsupported(_))),
    }
}

#[test]
fn source_hint_controls_selection() {
    let source = source_from_uri_with_hint(
        "https://example.invalid/video.mp4",
        MediaSourceHint::Http,
        &mut host(),
    )
    .unwrap();
    assert_eq!(source.uri(), "https://example.invalid/video.mp4");

    assert!(matches!(
        source_from_uri_with_hint("file:///tmp/video.mp4", MediaSourceHint::Http, &mut host()),
        Err(SourceError::Unsupported(_))
    ));
}

#[test]
fn schemes_select_sources() {
    let source = source_from_uri("file:///tmp/a b.mp4", &mut host()).unwrap();
    assert_eq!(source.uri(), "file:///tmp/a b.mp4");
    assert!(matches!(source, SelectedSource::LocalFile(file) if file.path == "/tmp/a b.mp4"));

    let mut there = host();
    there.path_exists = true;
    let source = source_from_uri("clips/one.mp4", &mut there).unwrap();
    assert_eq!(source.uri(), "file://clips/one.mp4");

    let source =
        source_from_uri_with_hint("http://x/y", MediaSourceHint::LocalFile, &mut host()).unwrap();
    assert!(matches!(source, SelectedSource::LocalFile(file) if file.path == "http://x/y"));
    assert_eq!(local_path_from_uri("file://a"), "a");
    assert_eq!(local_path_from_uri("a"), "a");
    assert_eq!(LocalFileSource::open("/a").unwrap().uri(), "file:///a");
}

#[test]
fn options_reach_http_sources() {
    let headers = vec![("A".to_string(), "b".to_string())];
    let mut setting = host();
    setting.read_ahead_setting = Some("4096".to_string());
    let selected = source_from_uri_with_hint_and_headers(
        "http://x/y",
        MediaSourceHint::Auto,
        headers.clone(),
        &mut setting,
    );
    let Ok(SelectedSource::Http(source)) = selected else { panic!("not an HTTP source") };
    assert_eq!(source.http_headers, headers);
    assert_eq!(source.read_ahead_bytes, 4096);
    let selected = source_from_uri_with_options(
        "https://x/y",
        MediaSourceHint::Http,
        Vec::new(),
        Some(5 * 1024 * 1024),
        &mut setting,
    );
    let Ok(SelectedSource::Http(source)) = selected else { panic!("not an HTTP source") };
    assert_eq!(source.read_ahead_bytes, 5 * 1024 * 1024);
    assert_eq!(source.request_bytes, 4 * 1024 * 1024);
}

#[test]
fn descriptors_are_local_sources_where_they_are_handed_over() {
    let uri = "fd://4?offset=1&length=2";
    assert!(matches!(
        source_from_uri(uri, &mut host()),
        Err(SourceError::Unsupported(text)) if text == uri
    ));
    let mut registry = OwnedFdRegistry::new();
    let _registration = register_android_owned_fd(&mut registry, 4).unwrap();
    let mut android = host();
    android.descriptors = Some(registry);
    assert!(matches!(
        source_from_uri_with_hint(uri, MediaSourceHint::Http, &mut android),
        Err(SourceError::Unsupported(_))
    ));
    let source = source_from_uri(uri, &mut android).unwrap();
    assert_eq!(source.uri(), uri);
    assert!(matches!(
        source,
        SelectedSource::OwnedFd(OwnedFdUri { fd: 4, offset: 1, length: Some(2) }, _)
    ));
    // The registration has been used up.
    assert!(matches!(
        source_from_uri_with_hint(uri, MediaSourceHint::LocalFile, &mut android),
        Err(SourceError::InvalidFileDescriptorUri(_))
    ));
}

#[test]
fn reading_to_the_end_reads_everything() {
    let (source, range) = read_uri_to_end("https://x/subtitles.ass", &mut host()).unwrap();
    assert_eq!(source.uri(), "https://x/subtitles.ass");
    assert_eq!(range, ByteRange::suffix_from(0));
    let Err(error) = read_uri_to_end("gopher://x", &mut host()) else { panic!("accepted") };
    assert_eq!(error, SourceError::Unsupported("gopher://x".to_string()));
}
