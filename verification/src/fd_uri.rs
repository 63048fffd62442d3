//! URIs that name a file descriptor and a slice of its file.
//!
//! `fd://42?offset=4096&length=8192` is the file open at descriptor 42, read from byte 4096 on and
//! 8192 bytes long.
use vstd::prelude::*;
use vstd::string::*;

use crate::error::{SourceError, SourceErrorView};
use crate::text;

verus! {

/// What an `fd://` URI names.
#[derive(Debug, Clone, Copy, PartialEq, Eq, Structural)]
pub struct OwnedFdUri {
    /// The descriptor.
    pub fd: i32,
    /// Where the slice begins in the file.
    pub offset: u64,
    /// How long the slice is; `None` reaches to the end of the file.
    pub length: Option<u64>,
}

/// The descriptor that `s` stands for: a number that is not negative, with an optional sign.
pub open spec fn fd_value(s: Seq<char>) -> Option<i32> {
    if s.len() > 0 && s[0] == '-' {
        if text::natural(s.skip(1)) == Some(0nat) {
            Some(0)
        } else {
            None
        }
    } else {
        match text::u64_value(s) {
            Some(n) if n <= i32::MAX => Some(n as i32),
            _ => None,
        }
    }
}

/// Reads a descriptor.
fn fd_number(s: &[char]) -> (fd: Option<i32>)
    ensures
        fd == fd_value(s@),
{
    if s.len() > 0 && s[0] == '-' {
        let digits: &[char] = vstd::slice::slice_subrange(s, 1, s.len());
        assert(digits@ =~= s@.skip(1));
        match text::bounded_natural(digits, 0) {
            Some(_) => Some(0),
            None => None,
        }
    } else {
        match text::parse_u64(s) {
            Some(n) => {
                if n <= i32::MAX as u64 {
                    Some(n as i32)
                } else {
                    None
                }
            },
            None => None,
        }
    }
}

/// The parts of a URI after `fd://`: what stands before the first `?`, and the query after it.
pub open spec fn head_and_query(body: Seq<char>) -> (Seq<char>, Seq<char>) {
    match text::split_at_first(body, '?') {
        Some(parts) => parts,
        None => (body, Seq::empty()),
    }
}

/// Whether a query item is `key=` and a value.
pub open spec fn sets(item: Seq<char>, key: Seq<char>) -> bool {
    text::split_at_first(item, '=') matches Some((name, _)) && name == key
}

/// The value of a query item.
pub open spec fn value_of(item: Seq<char>) -> Seq<char> {
    match text::split_at_first(item, '=') {
        Some((_, value)) => value,
        None => Seq::empty(),
    }
}

/// Whether a length is left open: it is empty or minus one.
pub open spec fn open_length(value: Seq<char>) -> bool {
    value.len() == 0 || value == "-1"@
}

/// Whether a query item may stand in a URI by itself. A name or an address for display may, with
/// any value.
pub open spec fn item_fits(item: Seq<char>) -> bool {
    ||| item.len() == 0
    ||| sets(item, "offset"@) && text::u64_value(value_of(item)) is Some
    ||| sets(item, "length"@) && (open_length(value_of(item)) || text::u64_value(
        value_of(item),
    ) is Some)
    ||| sets(item, "name"@)
    ||| sets(item, "display_uri"@)
}

/// Whether some item sets `key`.
pub open spec fn is_set(items: Seq<Seq<char>>, key: Seq<char>) -> bool {
    exists|i: int| 0 <= i < items.len() && sets(#[trigger] items[i], key)
}

/// Whether at most one item sets `key`.
pub open spec fn set_once(items: Seq<Seq<char>>, key: Seq<char>) -> bool {
    forall|i: int, j: int|
        0 <= i < j < items.len() ==> !(sets(#[trigger] items[i], key) && sets(
            #[trigger] items[j],
            key,
        ))
}

/// The value that `key` is set to, if any item sets it.
pub open spec fn setting(items: Seq<Seq<char>>, key: Seq<char>) -> Option<Seq<char>> {
    if is_set(items, key) {
        Some(value_of(items[choose|i: int| 0 <= i < items.len() && sets(#[trigger] items[i], key)]))
    } else {
        None
    }
}

/// Whether a query may stand in a URI.
pub open spec fn query_fits(items: Seq<Seq<char>>) -> bool {
    &&& forall|i: int| 0 <= i < items.len() ==> item_fits(#[trigger] items[i])
    &&& set_once(items, "offset"@)
    &&& set_once(items, "length"@)
}

/// The offset that a query sets; zero if it sets none.
pub open spec fn query_offset(items: Seq<Seq<char>>) -> u64 {
    match setting(items, "offset"@) {
        Some(value) => text::u64_value(value)->0,
        None => 0,
    }
}

/// The length that a query sets; `None` if it sets none or leaves it open.
pub open spec fn query_length(items: Seq<Seq<char>>) -> Option<u64> {
    match setting(items, "length"@) {
        Some(value) => if open_length(value) {
            None
        } else {
            text::u64_value(value)
        },
        None => None,
    }
}

/// What a URI names, if it is a valid `fd://` URI.
pub open spec fn named_by(uri: Seq<char>) -> Option<OwnedFdUri> {
    match text::after_prefix(uri, "fd://"@) {
        Some(body) => {
            let (head, query) = head_and_query(body);
            let items = text::split(query, '&');
            match fd_value(head) {
                Some(fd) if query_fits(items) => Some(
                    OwnedFdUri { fd, offset: query_offset(items), length: query_length(items) },
                ),
                _ => None,
            }
        },
        None => None,
    }
}

/// The error for a URI that does not name a usable descriptor.
pub open spec fn invalid(uri: Seq<char>) -> SourceErrorView {
    SourceErrorView::InvalidFileDescriptorUri(uri)
}

/// If only one item sets `key`, its value is the setting.
proof fn lemma_setting(items: Seq<Seq<char>>, key: Seq<char>, i: int)
    requires
        set_once(items, key),
        0 <= i < items.len(),
        sets(items[i], key),
    ensures
        setting(items, key) == Some(value_of(items[i])),
{
    let chosen = choose|j: int| 0 <= j < items.len() && sets(#[trigger] items[j], key);
    assert(sets(items[chosen], key));
    if chosen < i {
        assert(!(sets(items[chosen], key) && sets(items[i], key)));
    } else if i < chosen {
        assert(!(sets(items[i], key) && sets(items[chosen], key)));
    }
}

/// One more item that does not set `key` leaves its setting alone.
proof fn lemma_other_item(items: Seq<Seq<char>>, item: Seq<char>, key: Seq<char>)
    requires
        set_once(items, key),
        !sets(item, key),
    ensures
        set_once(items.push(item), key),
        is_set(items.push(item), key) == is_set(items, key),
        setting(items.push(item), key) == setting(items, key),
{
    let more = items.push(item);
    if is_set(items, key) {
        let i = choose|i: int| 0 <= i < items.len() && sets(#[trigger] items[i], key);
        assert(sets(more[i], key));
        lemma_setting(items, key, i);
        lemma_setting(more, key, i);
    }
    if is_set(more, key) {
        let i = choose|i: int| 0 <= i < more.len() && sets(#[trigger] more[i], key);
        assert(sets(items[i], key));
    }
}

/// One item that sets `key`, after others that do not, makes the setting.
proof fn lemma_first_item(items: Seq<Seq<char>>, item: Seq<char>, key: Seq<char>)
    requires
        !is_set(items, key),
        sets(item, key),
    ensures
        set_once(items.push(item), key),
        is_set(items.push(item), key),
        setting(items.push(item), key) == Some(value_of(item)),
{
    let more = items.push(item);
    assert(more[items.len() as int] == item);
    assert forall|i: int, j: int| 0 <= i < j < more.len() implies !(sets(#[trigger] more[i], key)
        && sets(#[trigger] more[j], key)) by {
        assert(more[i] == items[i]);
    }
    lemma_setting(more, key, items.len() as int);
}

/// No two of the keys are the same.
proof fn lemma_keys_differ()
    ensures
        "offset"@ != "length"@,
        "offset"@ != "name"@,
        "offset"@ != "display_uri"@,
        "length"@ != "name"@,
        "length"@ != "display_uri"@,
{
    reveal_strlit("offset");
    reveal_strlit("length");
    reveal_strlit("name");
    reveal_strlit("display_uri");
    assert("offset"@[0] == 'o');
    assert("length"@[0] == 'l');
    assert("name"@[0] == 'n');
    assert("display_uri"@[0] == 'd');
}

/// What a query sets.
struct Settings {
    offset: Option<u64>,
    length: Option<Option<u64>>,
}

impl Settings {
    /// Whether these are the settings of a query that may stand in a URI.
    spec fn of(self, items: Seq<Seq<char>>) -> bool {
        &&& query_fits(items)
        &&& self.offset is Some <==> is_set(items, "offset"@)
        &&& self.offset matches Some(offset) ==> offset == query_offset(items)
        &&& self.length is Some <==> is_set(items, "length"@)
        &&& self.length matches Some(length) ==> length == query_length(items)
    }

    /// The settings with one more item, if the query may go on with it.
    fn with(self, item: &[char], Ghost(items): Ghost<Seq<Seq<char>>>) -> (next: Option<Self>)
        requires
            self.of(items),
        ensures
            next is Some <==> query_fits(items.push(item@)),
            next matches Some(settings) ==> settings.of(items.push(item@)),
    {
        let ghost more = items.push(item@);
        proof {
            lemma_keys_differ();
            assert(more[items.len() as int] == item@);
            assert(forall|i: int| 0 <= i < items.len() ==> #[trigger] more[i] == items[i]);
            text::lemma_find_char(item@, '=');
        }
        if item.len() == 0 {
            proof {
                lemma_other_item(items, item@, "offset"@);
                lemma_other_item(items, item@, "length"@);
            }
            return Some(self);
        }
        let (key, value): (&[char], &[char]) = match text::split_first(item, '=') {
            Some(parts) => parts,
            None => {
                assert(!item_fits(more[items.len() as int]));
                return None;
            },
        };
        if text::is_text(key, "offset") {
            proof {
                lemma_other_item(items, item@, "length"@);
            }
            if self.offset.is_some() {
                proof {
                    lemma_twice(items, item@, "offset"@);
                }
                return None;
            }
            match text::parse_u64(value) {
                Some(offset) => {
                    proof {
                        lemma_first_item(items, item@, "offset"@);
                    }
                    Some(Settings { offset: Some(offset), length: self.length })
                },
                None => {
                    assert(!item_fits(more[items.len() as int]));
                    None
                },
            }
        } else if text::is_text(key, "length") {
            proof {
                lemma_other_item(items, item@, "offset"@);
            }
            if self.length.is_some() {
                proof {
                    lemma_twice(items, item@, "length"@);
                }
                return None;
            }
            proof {
                lemma_first_item(items, item@, "length"@);
            }
            if value.len() == 0 || text::is_text(value, "-1") {
                return Some(Settings { offset: self.offset, length: Some(None) });
            }
            match text::parse_u64(value) {
                Some(length) => Some(
                    Settings { offset: self.offset, length: Some(Some(length)) },
                ),
                None => {
                    assert(!item_fits(more[items.len() as int]));
                    None
                },
            }
        } else if text::is_text(key, "name") || text::is_text(key, "display_uri") {
            proof {
                lemma_other_item(items, item@, "offset"@);
                lemma_other_item(items, item@, "length"@);
            }
            Some(self)
        } else {
            assert(!item_fits(more[items.len() as int]));
            None
        }
    }
}

/// An item that sets a key again spoils the query.
proof fn lemma_twice(items: Seq<Seq<char>>, item: Seq<char>, key: Seq<char>)
    requires
        is_set(items, key),
        sets(item, key),
    ensures
        !set_once(items.push(item), key),
{
    let more = items.push(item);
    let i = choose|i: int| 0 <= i < items.len() && sets(#[trigger] items[i], key);
    let last = items.len() as int;
    assert(sets(more[i], key) && sets(more[last], key));
}

/// A query that may stand in a URI could have ended anywhere.
proof fn lemma_shorter_query(items: Seq<Seq<char>>, n: int)
    requires
        0 <= n <= items.len(),
        query_fits(items),
    ensures
        query_fits(items.take(n)),
{
    let shorter = items.take(n);
    assert(forall|i: int| 0 <= i < n ==> #[trigger] shorter[i] == items[i]);
}

/// Reads what a query sets, if it may stand in a URI.
fn query_settings(query: &[char]) -> (settings: Option<Settings>)
    ensures
        settings is Some <==> query_fits(text::split(query@, '&')),
        settings matches Some(settings) ==> settings.of(text::split(query@, '&')),
{
    let items: Vec<&[char]> = text::parts(query, '&');
    let ghost all = text::split(query@, '&');
    let mut settings: Settings = Settings { offset: None, length: None };
    let mut i: usize = 0;
    assert(settings.of(all.take(0)));
    while i < items.len()
        invariant
            i <= items.len(),
            items@.len() == all.len(),
            forall|j: int| 0 <= j < items@.len() ==> (#[trigger] items@[j])@ == all[j],
            settings.of(all.take(i as int)),
            all == text::split(query@, '&'),
        decreases items.len() - i,
    {
        assert(all.take(i + 1) =~= all.take(i as int).push(items@[i as int]@));
        match settings.with(items[i], Ghost(all.take(i as int))) {
            Some(next) => {
                settings = next;
            },
            None => {
                proof {
                    if query_fits(all) {
                        lemma_shorter_query(all, i + 1);
                    }
                }
                return None;
            },
        }
        i = i + 1;
    }
    assert(all.take(all.len() as int) =~= all);
    Some(settings)
}

/// Reads a descriptor that stands in `uri`.
pub fn parse_owned_fd_value(value: &[char], uri: &str) -> (fd: Result<i32, SourceError>)
    ensures
        match (fd, fd_value(value@)) {
            (Ok(fd), Some(wanted)) => fd == wanted,
            (Err(error), None) => error@ == invalid(uri@),
            _ => false,
        },
{
    match fd_number(value) {
        Some(fd) => Ok(fd),
        None => Err(SourceError::InvalidFileDescriptorUri(uri.to_string())),
    }
}

/// Reads an `fd://` URI.
pub fn parse_fd_uri(uri: &str) -> (named: Result<OwnedFdUri, SourceError>)
    ensures
        match (named, named_by(uri@)) {
            (Ok(named), Some(wanted)) => named == wanted,
            (Err(error), None) => error@ == invalid(uri@),
            _ => false,
        },
{
    let chars: Vec<char> = text::chars_of(uri);
    let body: &[char] = match text::strip_prefix(chars.as_slice(), "fd://") {
        Some(body) => body,
        None => {
            return Err(SourceError::InvalidFileDescriptorUri(uri.to_string()));
        },
    };
    let nothing: Vec<char> = Vec::new();
    let (head, query): (&[char], &[char]) = match text::split_first(body, '?') {
        Some(parts) => parts,
        None => (body, nothing.as_slice()),
    };
    assert(query@ == head_and_query(body@).1);
    let fd: i32 = match parse_owned_fd_value(head, uri) {
        Ok(fd) => fd,
        Err(error) => {
            return Err(error);
        },
    };
    match query_settings(query) {
        Some(settings) => {
            let offset: u64 = match settings.offset {
                Some(offset) => offset,
                None => 0,
            };
            let length: Option<u64> = match settings.length {
                Some(length) => length,
                None => None,
            };
            Ok(OwnedFdUri { fd, offset, length })
        },
        None => Err(SourceError::InvalidFileDescriptorUri(uri.to_string())),
    }
}

/// Whether a character ends the descriptor in a URI.
pub open spec fn ends_fd(c: char) -> bool {
    c == '?' || c == '/' || c == '#'
}

/// How many characters of `body` belong to the descriptor.
pub open spec fn fd_len(body: Seq<char>) -> int
    decreases body.len(),
{
    if body.len() == 0 || ends_fd(body[0]) {
        0
    } else {
        1 + fd_len(body.skip(1))
    }
}

/// The descriptor that a URI names, whatever else it says.
pub open spec fn fd_named_by(uri: Seq<char>) -> Option<i32> {
    match text::after_prefix(uri, "fd://"@) {
        Some(body) => fd_value(body.take(fd_len(body))),
        None => None,
    }
}

/// The descriptor ends at the first character that ends one.
proof fn lemma_fd_len_is(body: Seq<char>, at: int)
    requires
        0 <= at <= body.len(),
        at < body.len() ==> ends_fd(body[at]),
        forall|j: int| 0 <= j < at ==> !ends_fd(#[trigger] body[j]),
    ensures
        fd_len(body) == at,
    decreases body.len(),
{
    if at > 0 {
        assert(!ends_fd(body[0]));
        assert forall|j: int| 0 <= j < at - 1 implies !ends_fd(#[trigger] body.skip(1)[j]) by {
            assert(body.skip(1)[j] == body[j + 1]);
        }
        lemma_fd_len_is(body.skip(1), at - 1);
    }
}

/// Reads the descriptor that a URI names, whatever else it says.
pub fn parse_owned_fd(uri: &str) -> (fd: Result<i32, SourceError>)
    ensures
        match (fd, fd_named_by(uri@)) {
            (Ok(fd), Some(wanted)) => fd == wanted,
            (Err(error), None) => error@ == invalid(uri@),
            _ => false,
        },
{
    let chars: Vec<char> = text::chars_of(uri);
    let body: &[char] = match text::strip_prefix(chars.as_slice(), "fd://") {
        Some(body) => body,
        None => {
            return Err(SourceError::InvalidFileDescriptorUri(uri.to_string()));
        },
    };
    let mut at: usize = 0;
    while at < body.len() && !(body[at] == '?' || body[at] == '/' || body[at] == '#')
        invariant
            at <= body.len(),
            forall|j: int| 0 <= j < at ==> !ends_fd(#[trigger] body@[j]),
        decreases body.len() - at,
    {
        at = at + 1;
    }
    proof {
        lemma_fd_len_is(body@, at as int);
    }
    let head: &[char] = vstd::slice::slice_subrange(body, 0, at);
    assert(head@ =~= body@.take(at as int));
    parse_owned_fd_value(head, uri)
}

/// A descriptor holds no character that ends one.
proof fn lemma_fd_has_no_end(s: Seq<char>, i: int)
    requires
        fd_value(s) is Some,
        0 <= i < s.len(),
    ensures
        !ends_fd(s[i]),
{
    if i > 0 && (s[0] == '-' || s[0] == '+') {
        assert(s.skip(1)[i - 1] == s[i]);
    }
}

/// Reading only the descriptor of a URI gives the one that the whole URI names.
pub proof fn law_the_descriptor_can_be_read_first(uri: Seq<char>)
    requires
        named_by(uri) is Some,
    ensures
        fd_named_by(uri) == Some(named_by(uri)->0.fd),
{
    let body = text::after_prefix(uri, "fd://"@)->0;
    let head = head_and_query(body).0;
    text::lemma_find_char(body, '?');
    assert forall|j: int| 0 <= j < head.len() implies !ends_fd(#[trigger] body[j]) by {
        assert(head[j] == body[j]);
        lemma_fd_has_no_end(head, j);
    }
    lemma_fd_len_is(body, head.len() as int);
    assert(body.take(head.len() as int) =~= head);
}

/// The usual way to write what an `fd://` URI names.
pub open spec fn written(named: OwnedFdUri) -> Seq<char> {
    let length = match named.length {
        Some(length) => text::decimal(length as nat),
        None => "-1"@,
    };
    "fd://"@ + (text::decimal(named.fd as nat) + "?"@ + ("offset="@ + text::decimal(
        named.offset as nat,
    ) + "&"@ + ("length="@ + length)))
}

/// What comes before a character that it does not hold, and after it, are the two parts of the
/// text.
proof fn lemma_split_of_joined(head: Seq<char>, c: char, tail: Seq<char>)
    requires
        !head.contains(c),
    ensures
        text::split_at_first(head + seq![c] + tail, c) == Some((head, tail)),
{
    let whole = head + seq![c] + tail;
    assert forall|j: int| 0 <= j < head.len() implies whole[j] != c by {
        assert(head.contains(head[j]));
    }
    text::lemma_find_char_is(whole, c, head.len() as int);
    assert(whole.take(head.len() as int) =~= head);
    assert(whole.skip(head.len() as int + 1) =~= tail);
}

/// A text that does not hold `c` has one part.
proof fn lemma_one_part(s: Seq<char>, c: char)
    requires
        !s.contains(c),
    ensures
        text::split(s, c) == seq![s],
{
    assert forall|j: int| 0 <= j < s.len() implies s[j] != c by {
        assert(s.contains(s[j]));
    }
    text::lemma_find_char_is(s, c, s.len() as int);
}

/// What an `fd://` URI names is what it was written for.
pub proof fn law_written_uris_read_back(named: OwnedFdUri)
    requires
        named.fd >= 0,
    ensures
        named_by(written(named)) == Some(named),
{
    let fd = text::decimal(named.fd as nat);
    let offset = text::decimal(named.offset as nat);
    let length = match named.length {
        Some(length) => text::decimal(length as nat),
        None => "-1"@,
    };
    reveal_strlit("fd://");
    reveal_strlit("?");
    reveal_strlit("&");
    reveal_strlit("offset=");
    reveal_strlit("length=");
    reveal_strlit("offset");
    reveal_strlit("length");
    reveal_strlit("-1");
    text::law_decimal_reads_back(named.fd as nat);
    text::law_decimal_reads_back(named.offset as nat);
    if named.length is Some {
        text::law_decimal_reads_back(named.length->0 as nat);
    }
    let first = "offset="@ + offset;
    let second = "length="@ + length;
    let query = first + "&"@ + second;
    let body = fd + "?"@ + query;
    assert(written(named) =~= "fd://"@ + body);
    assert(text::after_prefix("fd://"@ + body, "fd://"@) == Some(body)) by {
        assert(("fd://"@ + body).take(5) =~= "fd://"@);
        assert(("fd://"@ + body).skip(5) =~= body);
    }
    assert(body =~= fd + seq!['?'] + query);
    lemma_split_of_joined(fd, '?', query);
    assert(query =~= first + seq!['&'] + second);
    lemma_split_of_joined(first, '&', second);
    lemma_one_part(second, '&');
    let items = text::split(query, '&');
    assert(items =~= seq![first, second]) by {
        text::lemma_find_char(query, '&');
    }
    assert(first =~= "offset"@ + seq!['='] + offset);
    lemma_split_of_joined("offset"@, '=', offset);
    assert(second =~= "length"@ + seq!['='] + length);
    lemma_split_of_joined("length"@, '=', length);
    lemma_keys_differ();
    assert(items[0] == first && items[1] == second);
    assert(set_once(items, "offset"@));
    assert(set_once(items, "length"@));
    lemma_setting(items, "offset"@, 0);
    lemma_setting(items, "length"@, 1);
    text::law_u64_round_trip(named.fd as u64);
    text::law_u64_round_trip(named.offset);
    if named.length is Some {
        text::law_u64_round_trip(named.length->0);
    }
}

// ---------------------------------------------------------------------------
// What URIs say and what they must not say
// ---------------------------------------------------------------------------
/// A descriptor is a number that is not negative and fits into 31 bits, perhaps with a sign.
pub proof fn law_descriptors_are_not_negative(s: Seq<char>, n: nat)
    ensures
        fd_value(s) matches Some(fd) ==> fd >= 0,
        n <= i32::MAX ==> fd_value(text::decimal(n)) == Some(n as i32),
        n > i32::MAX ==> fd_value(text::decimal(n)) is None,
        n > 0 ==> fd_value(seq!['-'] + text::decimal(n)) is None,
        fd_value(Seq::empty()) is None,
        n <= i32::MAX ==> fd_value(seq!['+'] + text::decimal(n)) == Some(n as i32),
        fd_value(seq!['-', '0']) == Some(0i32),
{
    let digits = text::decimal(n);
    text::law_decimal_reads_back(n);
    text::law_decimal_reads_back(0);
    assert(text::decimal(0) =~= seq!['0']);
    assert(seq!['-', '0'].skip(1) =~= seq!['0']);
    assert((seq!['+'] + digits).skip(1) =~= digits);
    assert(text::is_digit(digits[0]));
    assert((seq!['-'] + digits).skip(1) =~= digits);
}

/// Only digits, with or without a sign before them, are read as a descriptor.
pub proof fn law_descriptors_are_rows_of_digits(s: Seq<char>, i: int)
    requires
        fd_value(s) is Some,
        0 <= i < s.len(),
    ensures
        48 <= s[i] as int <= 57 || (i == 0 && (s[0] == '+' || s[0] == '-') && s.len() > 1),
{
    if s[0] == '-' {
        assert(text::all_digits(s.skip(1)));
        if i > 0 {
            assert(s.skip(1)[i - 1] == s[i]);
        }
    } else {
        text::law_only_rows_of_digits_are_read(s, i);
    }
}

/// The parts of a URI with a query.
proof fn lemma_with_query(head: Seq<char>, query: Seq<char>)
    requires
        !head.contains('?'),
    ensures
        ({
            let items = text::split(query, '&');
            named_by(with_query(head, query)) == match fd_value(head) {
                Some(fd) if query_fits(items) => Some(
                    OwnedFdUri { fd, offset: query_offset(items), length: query_length(items) },
                ),
                _ => None,
            }
        }),
{
    let body = head + seq!['?'] + query;
    text::law_prefixes_come_first("fd://"@, body, with_query(head, query));
    text::law_texts_are_split_where_the_character_is(head, '?', query);
}

/// A URI that names a descriptor and has a query after it.
pub open spec fn with_query(head: Seq<char>, query: Seq<char>) -> Seq<char> {
    "fd://"@ + (head + seq!['?'] + query)
}

/// An item of a query that sets `key` to `value`.
pub open spec fn item(key: Seq<char>, value: Seq<char>) -> Seq<char> {
    key + seq!['='] + value
}

/// What an item sets.
proof fn lemma_item(key: Seq<char>, value: Seq<char>, other: Seq<char>)
    requires
        !key.contains('='),
    ensures
        sets(item(key, value), other) <==> key == other,
        value_of(item(key, value)) == value,
        item(key, value).len() > 0,
{
    text::law_texts_are_split_where_the_character_is(key, '=', value);
}

/// None of the keys holds an equals sign or an ampersand.
proof fn lemma_keys()
    ensures
        !"offset"@.contains('=') && !"offset"@.contains('&'),
        !"length"@.contains('=') && !"length"@.contains('&'),
        !"name"@.contains('=') && !"name"@.contains('&'),
        !"display_uri"@.contains('=') && !"display_uri"@.contains('&'),
{
    reveal_strlit("offset");
    reveal_strlit("length");
    reveal_strlit("name");
    reveal_strlit("display_uri");
}

/// A descriptor alone names the whole file at it, from its first byte to its end.
pub proof fn law_a_descriptor_alone_names_the_whole_file(n: nat)
    requires
        n <= i32::MAX,
    ensures
        named_by("fd://"@ + text::decimal(n)) == Some(
            OwnedFdUri { fd: n as i32, offset: 0, length: None },
        ),
        named_by(with_query(text::decimal(n), Seq::empty())) == Some(
            OwnedFdUri { fd: n as i32, offset: 0, length: None },
        ),
{
    let head = text::decimal(n);
    let none = Seq::<char>::empty();
    text::law_decimal_reads_back(n);
    law_descriptors_are_not_negative(head, n);
    assert(!head.contains('?')) by {
        assert forall|i: int| 0 <= i < head.len() implies head[i] != '?' by {
            assert(text::is_digit(head[i]));
        }
    }
    text::law_prefixes_come_first("fd://"@, head, "fd://"@ + head);
    text::law_texts_are_split_where_the_character_is(head, '?', none);
    text::law_parts_stand_between_the_characters(none, '&', none);
    lemma_with_query(head, none);
    let items = text::split(none, '&');
    assert(items =~= seq![none]);
    text::law_texts_are_split_where_the_character_is(none, '=', none);
    assert(!sets(items[0], "offset"@) && !sets(items[0], "length"@));
    assert(query_fits(items));
    assert(!is_set(items, "offset"@) && !is_set(items, "length"@));
}

/// Whether no item of a query sets `key`.
pub open spec fn leaves_open(query: Seq<char>, key: Seq<char>) -> bool {
    forall|i: int, value: Seq<char>|
        0 <= i < text::split(query, '&').len() ==> #[trigger] text::split(query, '&')[i]
            != #[trigger] item(key, value)
}

/// An item that sets `key` has the form of one.
proof fn lemma_leaves_open(query: Seq<char>, key: Seq<char>)
    requires
        leaves_open(query, key),
    ensures
        !is_set(text::split(query, '&'), key),
{
    let items = text::split(query, '&');
    if is_set(items, key) {
        let i = choose|i: int| 0 <= i < items.len() && sets(#[trigger] items[i], key);
        let at = text::find_char(items[i], '=');
        text::lemma_find_char(items[i], '=');
        let value = value_of(items[i]);
        assert(items[i] =~= item(key, value)) by {
            assert(items[i] =~= items[i].take(at) + seq!['='] + items[i].skip(at + 1));
        }
    }
}

/// An offset may be added to what a URI says if it says nothing of one, and likewise a length, in
/// any order: what the URI then names begins there, or is that long, and is otherwise what it named
/// before. A length that is empty or minus one is left open.
pub proof fn law_settings_add_up(head: Seq<char>, query: Seq<char>, n: u64)
    requires
        !head.contains('?'),
        named_by(with_query(head, query)) is Some,
    ensures
        ({
            let named = named_by(with_query(head, query))->0;
            let more = |key: Seq<char>, value: Seq<char>|
                named_by(with_query(head, query + seq!['&'] + item(key, value)));
            &&& leaves_open(query, "offset"@) ==> more("offset"@, text::decimal(n as nat)) == Some(
                OwnedFdUri { offset: n, ..named },
            )
            &&& leaves_open(query, "length"@) ==> {
                &&& more("length"@, text::decimal(n as nat)) == Some(
                    OwnedFdUri { length: Some(n), ..named },
                )
                &&& more("length"@, "-1"@) == Some(OwnedFdUri { length: None, ..named })
                &&& more("length"@, Seq::empty()) == Some(OwnedFdUri { length: None, ..named })
            }
        }),
{
    let digits = text::decimal(n as nat);
    text::law_decimal_reads_back(n as nat);
    text::law_u64_round_trip(n);
    assert(text::is_digit(digits[0]));
    lemma_keys_differ();
    reveal_strlit("-1");
    lemma_plain("-1"@);
    lemma_plain(Seq::empty());
    assert(!digits.contains('&')) by {
        assert forall|i: int| 0 <= i < digits.len() implies digits[i] != '&' by {
            assert(text::is_digit(digits[i]));
        }
    }
    if leaves_open(query, "offset"@) {
        lemma_added(head, query, "offset"@, digits);
    }
    if leaves_open(query, "length"@) {
        lemma_added(head, query, "length"@, digits);
        lemma_added(head, query, "length"@, "-1"@);
        lemma_added(head, query, "length"@, Seq::empty());
    }
}

proof fn lemma_plain(s: Seq<char>)
    requires
        s.len() == 0 || s == "-1"@,
    ensures
        !s.contains('&'),
{
    reveal_strlit("-1");
}

/// One more item that sets a key which was left open.
proof fn lemma_added(head: Seq<char>, query: Seq<char>, key: Seq<char>, value: Seq<char>)
    requires
        !head.contains('?'),
        named_by(with_query(head, query)) is Some,
        key == "offset"@ || key == "length"@,
        !value.contains('&'),
        leaves_open(query, key),
        key == "offset"@ ==> text::u64_value(value) is Some,
        key == "length"@ ==> open_length(value) || text::u64_value(value) is Some,
    ensures
        ({
            let named = named_by(with_query(head, query))->0;
            named_by(with_query(head, query + seq!['&'] + item(key, value))) == Some(
                if key == "offset"@ {
                    OwnedFdUri { offset: text::u64_value(value)->0, ..named }
                } else {
                    OwnedFdUri {
                        length: if open_length(value) {
                            None
                        } else {
                            text::u64_value(value)
                        },
                        ..named
                    }
                },
            )
        }),
{
    let added = item(key, value);
    let items = text::split(query, '&');
    let other = if key == "offset"@ {
        "length"@
    } else {
        "offset"@
    };
    lemma_keys();
    lemma_keys_differ();
    lemma_item(key, value, key);
    lemma_item(key, value, other);
    lemma_with_query(head, query);
    lemma_with_query(head, query + seq!['&'] + added);
    lemma_no_ampersand(key, value);
    text::law_what_is_added_is_one_more_part(query, '&', added);
    lemma_leaves_open(query, key);
    lemma_first_item(items, added, key);
    lemma_other_item(items, added, other);
    let more = items.push(added);
    assert(item_fits(added));
    assert forall|i: int| 0 <= i < more.len() implies item_fits(#[trigger] more[i]) by {
        if i < items.len() {
            assert(more[i] == items[i]);
        }
    }
    assert(query_fits(more));
}

proof fn lemma_no_ampersand(key: Seq<char>, value: Seq<char>)
    requires
        !key.contains('&'),
        !value.contains('&'),
    ensures
        !item(key, value).contains('&'),
{
    let whole = item(key, value);
    assert forall|i: int| 0 <= i < whole.len() implies whole[i] != '&' by {
        if i < key.len() {
            assert(key.contains(key[i]));
        } else if i > key.len() {
            assert(value.contains(value[i - key.len() - 1]));
        }
    }
}

/// A name or an address for display changes nothing of what a URI names, nor does an empty item.
pub proof fn law_display_items_change_nothing(
    head: Seq<char>,
    query: Seq<char>,
    key: Seq<char>,
    value: Seq<char>,
)
    requires
        !head.contains('?'),
        !value.contains('&'),
        key == "name"@ || key == "display_uri"@,
    ensures
        named_by(with_query(head, query + seq!['&'] + item(key, value))) == named_by(
            with_query(head, query),
        ),
        named_by(with_query(head, query + seq!['&'])) == named_by(with_query(head, query)),
{
    let none = Seq::<char>::empty();
    lemma_keys();
    lemma_keys_differ();
    lemma_item(key, value, key);
    lemma_item(key, value, "offset"@);
    lemma_item(key, value, "length"@);
    lemma_no_ampersand(key, value);
    lemma_idle_item(head, query, item(key, value));
    text::law_texts_are_split_where_the_character_is(none, '=', none);
    assert(query + seq!['&'] + none =~= query + seq!['&']);
    lemma_idle_item(head, query, none);
}

/// An item that may stand in a query and sets neither the offset nor the length.
proof fn lemma_idle_item(head: Seq<char>, query: Seq<char>, added: Seq<char>)
    requires
        !head.contains('?'),
        !added.contains('&'),
        item_fits(added),
        !sets(added, "offset"@),
        !sets(added, "length"@),
    ensures
        named_by(with_query(head, query + seq!['&'] + added)) == named_by(with_query(head, query)),
{
    let items = text::split(query, '&');
    let more = items.push(added);
    lemma_with_query(head, query);
    lemma_with_query(head, query + seq!['&'] + added);
    text::law_what_is_added_is_one_more_part(query, '&', added);
    assert(more.drop_last() =~= items);
    if query_fits(items) {
        lemma_other_item(items, added, "offset"@);
        lemma_other_item(items, added, "length"@);
        assert forall|i: int| 0 <= i < more.len() implies item_fits(#[trigger] more[i]) by {
            if i < items.len() {
                assert(more[i] == items[i]);
            }
        }
    }
    if query_fits(more) {
        lemma_shorter_query(more, items.len() as int);
        assert(more.take(items.len() as int) =~= items);
    }
}

/// An offset or a length that is set twice spoils a URI, even if both say the same.
pub proof fn law_no_key_is_set_twice(
    head: Seq<char>,
    query: Seq<char>,
    key: Seq<char>,
    one: Seq<char>,
    other: Seq<char>,
    i: int,
    j: int,
)
    requires
        !head.contains('?'),
        key == "offset"@ || key == "length"@,
        0 <= i < j < text::split(query, '&').len(),
        text::split(query, '&')[i] == item(key, one),
        text::split(query, '&')[j] == item(key, other),
    ensures
        named_by(with_query(head, query)) is None,
{
    let items = text::split(query, '&');
    lemma_keys();
    lemma_item(key, one, key);
    lemma_item(key, other, key);
    lemma_with_query(head, query);
    assert(sets(items[i], key) && sets(items[j], key));
}

/// An item that sets an unknown key, or none, spoils a URI; so does an offset that is no number, and
/// a length that is neither a number nor left open.
pub proof fn law_unreadable_items_spoil_a_uri(
    head: Seq<char>,
    query: Seq<char>,
    key: Seq<char>,
    value: Seq<char>,
    i: int,
)
    requires
        !head.contains('?'),
        !key.contains('='),
        0 <= i < text::split(query, '&').len(),
        text::split(query, '&')[i] == item(key, value) || (text::split(query, '&')[i] == key
            && key.len() > 0),
        text::split(query, '&')[i] == item(key, value) ==> {
            &&& key != "name"@ && key != "display_uri"@
            &&& key == "offset"@ ==> text::u64_value(value) is None
            &&& key == "length"@ ==> text::u64_value(value) is None && value.len() > 0 && value
                != "-1"@
        },
    ensures
        named_by(with_query(head, query)) is None,
{
    let items = text::split(query, '&');
    lemma_with_query(head, query);
    lemma_item(key, value, "offset"@);
    lemma_item(key, value, "length"@);
    lemma_item(key, value, "name"@);
    lemma_item(key, value, "display_uri"@);
    text::law_texts_are_split_where_the_character_is(key, '=', value);
    assert(!item_fits(items[i]));
}

/// A URI with another scheme, or whose descriptor cannot be read, names nothing.
pub proof fn law_only_readable_descriptors_are_named(
    uri: Seq<char>,
    head: Seq<char>,
    query: Seq<char>,
)
    requires
        !head.contains('?'),
    ensures
        !text::starts_with(uri, "fd://"@) ==> named_by(uri) is None && fd_named_by(uri) is None,
        fd_value(head) is None ==> named_by(with_query(head, query)) is None,
        named_by(with_query(head, query)) matches Some(named) ==> fd_value(head) == Some(named.fd),
{
    lemma_with_query(head, query);
}

/// The descriptor alone is read up to the first `?`, `/` or `#`, whatever follows.
pub proof fn law_the_descriptor_ends_at_a_mark(n: nat, mark: char, rest: Seq<char>)
    requires
        n <= i32::MAX,
        mark == '?' || mark == '/' || mark == '#',
    ensures
        fd_named_by("fd://"@ + (text::decimal(n) + seq![mark] + rest)) == Some(n as i32),
        fd_named_by("fd://"@ + text::decimal(n)) == Some(n as i32),
{
    let digits = text::decimal(n);
    let body = digits + seq![mark] + rest;
    text::law_decimal_reads_back(n);
    law_descriptors_are_not_negative(digits, n);
    text::law_prefixes_come_first("fd://"@, body, "fd://"@ + body);
    text::law_prefixes_come_first("fd://"@, digits, "fd://"@ + digits);
    assert forall|j: int| 0 <= j < digits.len() implies !ends_fd(#[trigger] body[j]) && !ends_fd(
        digits[j],
    ) by {
        assert(text::is_digit(digits[j]));
    }
    lemma_fd_len_is(body, digits.len() as int);
    lemma_fd_len_is(digits, digits.len() as int);
    assert(body.take(digits.len() as int) =~= digits);
    assert(digits.take(digits.len() as int) =~= digits);
}

} // verus!
