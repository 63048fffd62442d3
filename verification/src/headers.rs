//! The headers of an HTTP response.
use vstd::prelude::*;

use crate::text;

verus! {

/// The header map of the `http` crate: names, each with its values in order.
#[verifier::external_type_specification]
#[verifier::external_body]
#[verifier::reject_recursive_types(T)]
pub struct ExHeaderMap<T>(ureq::http::HeaderMap<T>);

/// The value of one header: a row of bytes.
#[verifier::external_type_specification]
#[verifier::external_body]
pub struct ExHeaderValue(ureq::http::HeaderValue);

/// What a header map holds: for each name, in lower case, the bytes of its first value.
pub uninterp spec fn first_values(
    headers: ureq::http::HeaderMap<ureq::http::HeaderValue>,
) -> Map<Seq<char>, Seq<u8>>;

/// Whether `name` is written in lower-case letters and hyphens only.
pub open spec fn is_lower_name(name: Seq<char>) -> bool {
    forall|i: int| 0 <= i < name.len() ==> 'a' <= #[trigger] name[i] <= 'z' || name[i] == '-'
}

/// Whether a byte is a printable ASCII character or a tab.
pub open spec fn is_visible(b: u8) -> bool {
    32 <= b < 127 || b == 9
}

/// Bytes as text, if each of them is visible.
pub open spec fn visible_text(bytes: Seq<u8>) -> Option<Seq<char>> {
    if forall|i: int| 0 <= i < bytes.len() ==> is_visible(#[trigger] bytes[i]) {
        Some(Seq::new(bytes.len(), |i: int| bytes[i] as char))
    } else {
        None
    }
}

/// The text of the value under `name`, if there is one and it is text.
pub open spec fn text_under(values: Map<Seq<char>, Seq<u8>>, name: Seq<char>) -> Option<Seq<char>> {
    if values.dom().contains(name) {
        visible_text(values[name])
    } else {
        None
    }
}

/// The text of the first header called `name`, if there is one and it is text.
pub open spec fn field(
    headers: ureq::http::HeaderMap<ureq::http::HeaderValue>,
    name: Seq<char>,
) -> Option<Seq<char>> {
    text_under(first_values(headers), name)
}

/// A string that may be missing, as characters.
pub open spec fn text_view(text: Option<String>) -> Option<Seq<char>> {
    match text {
        Some(text) => Some(text@),
        None => None,
    }
}

/// Calls `HeaderMap::get` of the `http` crate and `HeaderValue::to_str` on what it finds.
///
/// `get` looks a name up without regard to case, and finds the first of several values; the map
/// keeps its names in lower case. `to_str` gives the bytes of the value as text if each is a
/// printable ASCII character or a tab, and an error otherwise.
#[verifier::external_body]
fn header_text(
    headers: &ureq::http::HeaderMap<ureq::http::HeaderValue>,
    name: &str,
) -> (found: Option<String>)
    requires
        is_lower_name(name@),
    ensures
        text_view(found) == text_under(first_values(*headers), name@),
{
    headers.get(name).and_then(|value| value.to_str().ok()).map(str::to_string)
}

/// What the library reads of a response before its body.
pub struct HeadView {
    /// The status code.
    pub status: u16,
    /// The text of `Content-Range`.
    pub content_range: Option<Seq<char>>,
    /// The text of `Content-Length`.
    pub content_length: Option<Seq<char>>,
    /// The text that tells this entity from other versions of the resource.
    pub validator: Option<Seq<char>>,
}

/// `value` without surrounding whitespace, unless nothing is left of it.
pub open spec fn non_empty(value: Option<Seq<char>>) -> Option<Seq<char>> {
    match value {
        Some(value) if text::trim(value).len() > 0 => Some(text::trim(value)),
        _ => None,
    }
}

/// The `ETag` of a response, or else its `Last-Modified`.
pub open spec fn entity_validator(
    headers: ureq::http::HeaderMap<ureq::http::HeaderValue>,
) -> Option<Seq<char>> {
    match non_empty(field(headers, "etag"@)) {
        Some(etag) => Some(etag),
        None => non_empty(field(headers, "last-modified"@)),
    }
}

/// The head of a response with this status and these headers.
pub open spec fn head_of(
    status: u16,
    headers: ureq::http::HeaderMap<ureq::http::HeaderValue>,
) -> HeadView {
    HeadView {
        status,
        content_range: field(headers, "content-range"@),
        content_length: field(headers, "content-length"@),
        validator: entity_validator(headers),
    }
}

/// The number that a header's text stands for, taken as it is.
pub open spec fn number(value: Option<Seq<char>>) -> Option<u64> {
    match value {
        Some(value) => text::u64_value(value),
        None => None,
    }
}

/// Finds the text of `Content-Range`.
pub fn content_range_text(headers: &ureq::http::HeaderMap<ureq::http::HeaderValue>) -> (found:
    Option<String>)
    ensures
        text_view(found) == field(*headers, "content-range"@),
{
    proof {
        reveal_strlit("content-range");
    }
    header_text(headers, "content-range")
}

/// Finds the text of `Content-Length`.
pub fn content_length_text(headers: &ureq::http::HeaderMap<ureq::http::HeaderValue>) -> (found:
    Option<String>)
    ensures
        text_view(found) == field(*headers, "content-length"@),
{
    proof {
        reveal_strlit("content-length");
    }
    header_text(headers, "content-length")
}

/// Reads the number in `Content-Length`, which may have no whitespace around it.
pub fn content_length(headers: &ureq::http::HeaderMap<ureq::http::HeaderValue>) -> (length: Option<
    u64,
>)
    ensures
        length == number(field(*headers, "content-length"@)),
{
    match content_length_text(headers) {
        None => None,
        Some(value) => {
            let chars: Vec<char> = text::chars_of(value.as_str());
            text::parse_u64(chars.as_slice())
        },
    }
}

/// Removes the whitespace around `value`; nothing is left of a blank one.
fn trimmed_value(value: Option<String>) -> (trimmed: Option<String>)
    ensures
        text_view(trimmed) == non_empty(text_view(value)),
{
    match value {
        None => None,
        Some(value) => {
            let chars: Vec<char> = text::chars_of(value.as_str());
            let inner: &[char] = text::trimmed(chars.as_slice());
            if inner.len() == 0 {
                None
            } else {
                Some(text::text_of(inner))
            }
        },
    }
}

/// The text that tells the entity of a response from other versions of the resource.
pub fn response_entity_validator(
    headers: &ureq::http::HeaderMap<ureq::http::HeaderValue>,
) -> (validator: Option<String>)
    ensures
        text_view(validator) == entity_validator(*headers),
{
    proof {
        reveal_strlit("etag");
        reveal_strlit("last-modified");
    }
    match trimmed_value(header_text(headers, "etag")) {
        Some(etag) => Some(etag),
        None => trimmed_value(header_text(headers, "last-modified")),
    }
}

/// The text of a value has a character for every byte, with the same code; only values of printable
/// ASCII characters and tabs have one.
pub proof fn law_visible_values_are_read_byte_by_byte(bytes: Seq<u8>, i: int)
    ensures
        visible_text(bytes) matches Some(read) ==> {
            &&& read.len() == bytes.len()
            &&& 0 <= i < bytes.len() ==> {
                &&& read[i] as int == bytes[i] as int
                &&& 32 <= bytes[i] <= 126 || bytes[i] == 9
            }
        },
        (forall|j: int| 0 <= j < bytes.len() ==> 32 <= #[trigger] bytes[j] <= 126 || bytes[j] == 9)
            ==> visible_text(bytes) is Some,
{
    if visible_text(bytes) is Some && 0 <= i < bytes.len() {
        assert(is_visible(bytes[i]));
    }
    if forall|j: int| 0 <= j < bytes.len() ==> 32 <= #[trigger] bytes[j] <= 126 || bytes[j] == 9 {
        assert forall|j: int| 0 <= j < bytes.len() implies is_visible(#[trigger] bytes[j]) by {
            assert(32 <= bytes[j] <= 126 || bytes[j] == 9);
        }
    }
}

/// A header is read by its own name, and what is missing is not made up.
pub proof fn law_headers_are_read_by_their_names(
    status: u16,
    headers: ureq::http::HeaderMap<ureq::http::HeaderValue>,
)
    ensures
        ({
            let head = head_of(status, headers);
            let values = first_values(headers);
            &&& head.status == status
            &&& values.dom().contains("content-range"@) ==> head.content_range == visible_text(
                values["content-range"@],
            )
            &&& !values.dom().contains("content-range"@) ==> head.content_range is None
            &&& values.dom().contains("content-length"@) ==> head.content_length == visible_text(
                values["content-length"@],
            )
            &&& !values.dom().contains("content-length"@) ==> head.content_length is None
            &&& head.validator == entity_validator(headers)
        }),
{
}

/// The version of a resource is its `ETag` without the whitespace around it, or, only where there is
/// no such text, its `Last-Modified`; where neither says anything, the version is not known.
pub proof fn law_the_etag_comes_before_the_date(
    headers: ureq::http::HeaderMap<ureq::http::HeaderValue>,
    before: Seq<char>,
    version: Seq<char>,
    after: Seq<char>,
)
    requires
        text::blank(before),
        text::blank(after),
        version.len() > 0,
        !text::is_white_space(version[0]),
        !text::is_white_space(version.last()),
    ensures
        field(headers, "etag"@) == Some(before + version + after) ==> entity_validator(headers)
            == Some(version),
        (field(headers, "etag"@) is None || field(headers, "etag"@) == Some(before)) && field(
            headers,
            "last-modified"@,
        ) == Some(before + version + after) ==> entity_validator(headers) == Some(version),
        (field(headers, "etag"@) is None || field(headers, "etag"@) == Some(before)) && (field(
            headers,
            "last-modified"@,
        ) is None || field(headers, "last-modified"@) == Some(after)) ==> entity_validator(headers)
            is None,
{
    let none = Seq::<char>::empty();
    text::law_trimming_removes_what_is_around(before, version, after);
    text::law_trimming_removes_what_is_around(before, none, none);
    text::law_trimming_removes_what_is_around(after, none, none);
    assert(before + none + none =~= before);
    assert(after + none + none =~= after);
}

/// A header's text is read as the number it is written for, however large; one that is missing or
/// has anything around the digits is not.
pub proof fn law_numbers_in_headers_are_read(n: u64)
    ensures
        number(Some(text::decimal(n as nat))) == Some(n),
        number(Some(text::decimal(n as nat).push(' '))) is None,
        number(Some(seq![' '] + text::decimal(n as nat))) is None,
        number(Some(Seq::empty())) is None,
        number(None) is None,
{
    let digits = text::decimal(n as nat);
    text::law_u64_round_trip(n);
    text::law_decimal_reads_back(n as nat);
    let after = digits.push(' ');
    let before = seq![' '] + digits;
    if text::u64_value(after) is Some {
        text::law_only_rows_of_digits_are_read(after, digits.len() as int);
    }
    if text::u64_value(before) is Some {
        text::law_only_rows_of_digits_are_read(before, 0);
    }
}

} // verus!
