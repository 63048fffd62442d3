//! Numbers, headers, addresses and descriptors in text.
use erika::content_range::{parse_content_range_start, parse_content_range_total};
use erika::error::SourceError;
use erika::fd_uri::{parse_fd_uri, parse_owned_fd, OwnedFdUri};
use erika::owned_fd::{
    register_android_owned_fd, OwnedFdRegistry, OwnedFileDescriptorSource,
};
use erika::range::{http_range_header, range_contains, ByteRange};
use erika::redact::{json_escape, redacted_uri};
use erika::text::{chars_of, joined_decimal, parse_u64};

#[test]
fn range_contains_accepts_inner_byte_ranges() {
    assert!(range_contains(
        ByteRange { start: 100, length: Some(200) },
        ByteRange { start: 128, length: Some(64) },
    ));
    assert!(!range_contains(
        ByteRange { start: 100, length: Some(200) },
        ByteRange { start: 280, length: Some(64) },
    ));
}

#[test]
fn unbounded_and_overflowing_ranges_contain_nothing() {
    let all = ByteRange::suffix_from(0);
    let some = ByteRange { start: 1, length: Some(2) };
    let wide = ByteRange { start: 1, length: Some(u64::MAX) };
    assert!(!range_contains(all, some));
    assert!(!range_contains(some, all));
    assert!(!range_contains(wide, some));
    assert!(!range_contains(some, wide));
    assert!(range_contains(some, some));
}

#[test]
fn content_range_total_parses_totals_and_rejects_unknown() {
    assert_eq!(parse_content_range_total("bytes 0-99/1234"), Some(1234));
    assert_eq!(parse_content_range_total("bytes 100-199/200"), Some(200));
    assert_eq!(parse_content_range_total("bytes */555"), Some(555));
    assert_eq!(parse_content_range_total("bytes 0-99/*"), None);
    assert_eq!(parse_content_range_total("items 0-99/1234"), None);
    assert_eq!(parse_content_range_total(""), None);
}

#[test]
fn content_range_start_names_the_first_byte() {
    assert_eq!(parse_content_range_start("bytes 100-199/200"), Some(100));
    assert_eq!(parse_content_range_start(" bytes\t7 - 9 / 10 "), Some(7));
    assert_eq!(parse_content_range_start("bytes */555"), None);
    assert_eq!(parse_content_range_start("bytes 1-2"), None);
    assert_eq!(parse_content_range_start("bytes 18446744073709551616-2/3"), None);
    assert_eq!(parse_content_range_start("bytes 18446744073709551615-2/3"), Some(u64::MAX));
}

#[test]
fn range_headers_name_the_last_byte() {
    let header = |start, length| http_range_header(ByteRange { start, length });
    assert_eq!(header(0, Some(1)), "bytes=0-0");
    assert_eq!(header(100, Some(50)), "bytes=100-149");
    assert_eq!(header(7, None), "bytes=7-");
    assert_eq!(header(7, Some(0)), "bytes=7-");
    assert_eq!(header(10, Some(u64::MAX)), "bytes=10-18446744073709551614");
}

#[test]
fn errors_read_as_sentences() {
    assert_eq!(SourceError::Io("x".to_string()).message(), "io error: x");
    assert_eq!(SourceError::Http("x".to_string()).message(), "http error: x");
    assert_eq!(
        SourceError::Unsupported("x".to_string()).message(),
        "unsupported source URI: x"
    );
    assert_eq!(
        SourceError::InvalidFileDescriptorUri("x".to_string()).message(),
        "invalid owned file descriptor URI: x"
    );
}

#[test]
fn owned_fd_uri_parses_asset_slice() {
    assert_eq!(
        parse_fd_uri("fd://42?offset=4096&length=8192").unwrap(),
        OwnedFdUri { fd: 42, offset: 4096, length: Some(8192) }
    );
    assert_eq!(
        parse_fd_uri("fd://7?length=-1").unwrap(),
        OwnedFdUri { fd: 7, offset: 0, length: None }
    );
}

#[test]
fn owned_fd_uri_rejects_invalid_or_ambiguous_values() {
    for uri in [
        "fd://-1",
        "fd://not-a-number",
        "fd://3?offset=x",
        "fd://3?offset=1&offset=2",
        "fd://3?unknown=1",
    ] {
        assert!(matches!(parse_fd_uri(uri), Err(SourceError::InvalidFileDescriptorUri(_))));
    }
}

#[test]
fn owned_fd_uri_reads_every_form() {
    let plain = OwnedFdUri { fd: 3, offset: 0, length: None };
    for uri in ["fd://3", "fd://+3", "fd://3?", "fd://3?&&", "fd://3?length=", "fd://3?name=a=b&display_uri="] {
        assert_eq!(parse_fd_uri(uri), Ok(plain), "{uri}");
    }
    assert_eq!(parse_fd_uri("fd://-0").unwrap().fd, 0);
    assert_eq!(parse_fd_uri("fd://2147483647").unwrap().fd, i32::MAX);
    for uri in [
        "fd://",
        "fd://2147483648",
        "fd://-",
        "fd:/3",
        "fd://3/x",
        "fd://3?offset",
        "fd://3?length=1&length=",
        "fd://3?length=-2",
        "fd://3?Offset=1",
    ] {
        assert_eq!(
            parse_fd_uri(uri),
            Err(SourceError::InvalidFileDescriptorUri(uri.to_string())),
            "{uri}"
        );
    }
}

#[test]
fn the_descriptor_ends_at_the_query_the_path_or_the_fragment() {
    for uri in ["fd://5", "fd://5?offset=x", "fd://5/a?b", "fd://5#?/"] {
        assert_eq!(parse_owned_fd(uri), Ok(5), "{uri}");
    }
    assert_eq!(
        parse_owned_fd("fd://x?"),
        Err(SourceError::InvalidFileDescriptorUri("fd://x?".to_string()))
    );
}

#[test]
fn unregistered_owned_fd_uri_cannot_adopt_a_numeric_descriptor() {
    let error = OwnedFdRegistry::new()
        .open_uri("fd://2147483647")
        .expect_err("an unregistered descriptor must be rejected");
    assert!(matches!(
        error,
        SourceError::InvalidFileDescriptorUri(message)
            if message.contains("not explicitly transferred")
    ));
}

#[test]
fn a_registered_descriptor_is_adopted_once() {
    let mut registry = OwnedFdRegistry::new();
    let registration = register_android_owned_fd(&mut registry, 9).unwrap();
    assert_eq!(registration.fd, 9);
    assert!(registry.awaits(9));
    assert!(!registry.awaits(8));
    assert_eq!(
        register_android_owned_fd(&mut registry, 9).unwrap_err(),
        SourceError::InvalidFileDescriptorUri(
            "descriptor 9 is already awaiting source adoption".to_string()
        )
    );
    assert_eq!(
        registry.open_uri("fd://9?offset=2").unwrap(),
        OwnedFdUri { fd: 9, offset: 2, length: None }
    );
    assert!(registry.open_uri("fd://9?offset=2").is_err());
    registry.release(registration);

    let registration = register_android_owned_fd(&mut registry, 9).unwrap();
    registry.release(registration);
    assert!(!registry.take_registered_android_owned_fd(9));
    assert_eq!(
        register_android_owned_fd(&mut registry, -7).unwrap_err(),
        SourceError::InvalidFileDescriptorUri("negative descriptor -7".to_string())
    );
}

#[test]
fn a_descriptor_is_taken_even_if_the_rest_is_invalid() {
    let mut registry = OwnedFdRegistry::new();
    let _registration = register_android_owned_fd(&mut registry, 9).unwrap();
    assert_eq!(
        registry.open_uri("fd://9?offset=x"),
        Err(SourceError::InvalidFileDescriptorUri("fd://9?offset=x".to_string()))
    );
    assert!(!registry.take_registered_android_owned_fd(9));
}

#[test]
fn a_slice_is_read_as_a_file_of_its_own() {
    let source = OwnedFileDescriptorSource::from_owned_fd(9, 1000, 100, Some(50), "fd://9").unwrap();
    assert_eq!(source.len(), Some(50));
    assert_eq!(source.uri(), "fd://9");
    let window = |start, length| source.read_range(ByteRange { start, length });
    assert_eq!(
        window(10, Some(20)),
        Ok(Some(ByteRange { start: 110, length: Some(20) }))
    );
    assert_eq!(window(40, Some(20)), Ok(Some(ByteRange { start: 140, length: Some(10) })));
    assert_eq!(window(40, None), Ok(Some(ByteRange { start: 140, length: Some(10) })));
    assert_eq!(window(50, Some(20)), Ok(None));

    let rest = OwnedFileDescriptorSource::from_owned_file(1000, 100, None, "fd://9");
    assert_eq!(rest.len(), Some(900));
    let outside = OwnedFileDescriptorSource::from_owned_file(1000, 2000, None, "fd://9");
    assert_eq!(outside.len(), None);
    assert_eq!(
        outside.read_range(ByteRange::suffix_from(u64::MAX)),
        Err(SourceError::Io("owned descriptor seek offset overflowed u64".to_string()))
    );
    assert_eq!(
        OwnedFileDescriptorSource::from_owned_fd(i32::MIN, 0, 0, None, "fd://x").unwrap_err(),
        SourceError::InvalidFileDescriptorUri("negative descriptor -2147483648".to_string())
    );
}

#[test]
fn redacted_uri_hides_access_tokens() {
    assert_eq!(
        redacted_uri("https://example.invalid/video.mkv?api_key=secret&x=1"),
        "https://example.invalid/video.mkv?api_key=REDACTED&x=1"
    );
    assert_eq!(
        redacted_uri("https://example.invalid/video.mkv?AccessToken=secret"),
        "https://example.invalid/video.mkv?AccessToken=REDACTED"
    );
}

#[test]
fn redacted_uri_hides_every_token() {
    assert_eq!(
        redacted_uri("http://h/?api_key=a&AccessToken=b&api_key=&y=AccessToken=c=d&z"),
        "http://h/?api_key=REDACTED&AccessToken=REDACTED&api_key=REDACTED&y=AccessToken=REDACTED&z"
    );
    assert_eq!(redacted_uri("a?AccessToken=api_key=x"), "a?AccessToken=REDACTED");
    assert_eq!(redacted_uri("a?api_key=AccessToken=x"), "a?api_key=REDACTED");
    assert_eq!(redacted_uri("a?apikey=x&&\u{e9}"), "a?apikey=x&&\u{e9}");
    assert_eq!(redacted_uri(""), "");
    for uri in ["a?api_key=AccessToken=x&AccessToken=api_key=y", "api_key=api_key=&AccessToken=A"] {
        assert_eq!(redacted_uri(&redacted_uri(uri)), redacted_uri(uri));
    }
}

#[test]
fn json_escape_keeps_a_string_on_one_line() {
    assert_eq!(json_escape("a\\b\"c\nd\re\u{e9}"), "a\\\\b\\\"c\\nd\\re\u{e9}");
    assert_eq!(json_escape(""), "");
}

#[test]
fn secrets_leave_no_trace() {
    let shown = |secret: &str| redacted_uri(&format!("a?x=1&api_key={secret}&AccessToken={secret}"));
    assert_eq!(shown("one"), shown("a much longer one"));
    assert_eq!(shown(""), "a?x=1&api_key=REDACTED&AccessToken=REDACTED");
}

#[test]
fn numbers_read_back() {
    for n in [0, 7, 10, 99, 100, 4_294_967_296, u64::MAX] {
        let text = joined_decimal("n=".to_string(), n);
        assert_eq!(text, format!("n={n}"));
        assert_eq!(parse_u64(&chars_of(&text[2..])), Some(n));
    }
    for text in ["", "+", "-1", "1 ", "18446744073709551616", "0x1", "\u{661}"] {
        assert_eq!(parse_u64(&chars_of(text)), None, "{text}");
    }
    assert_eq!(parse_u64(&chars_of("+0012")), Some(12));
}
