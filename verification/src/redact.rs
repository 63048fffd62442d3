//! Text for logs: addresses without their secrets, and strings inside JSON.
use vstd::prelude::*;
use vstd::string::*;

use crate::text;

verus! {

// ---------------------------------------------------------------------------
// Secrets
// ---------------------------------------------------------------------------
/// Where `wanted` first occurs in `s`.
pub open spec fn find_text(s: Seq<char>, wanted: Seq<char>) -> Option<int>
    decreases s.len(),
{
    if text::starts_with(s, wanted) {
        Some(0)
    } else if s.len() == 0 {
        None
    } else {
        match find_text(s.skip(1), wanted) {
            Some(at) => Some(at + 1),
            None => None,
        }
    }
}

/// One part of an address with all that follows `key` hidden.
pub open spec fn masked_after(part: Seq<char>, key: Seq<char>) -> Seq<char> {
    match find_text(part, key) {
        Some(at) => part.take(at + key.len()) + "REDACTED"@,
        None => part,
    }
}

/// One part of an address without its secrets.
pub open spec fn redacted_part(part: Seq<char>) -> Seq<char> {
    masked_after(masked_after(part, "api_key="@), "AccessToken="@)
}

/// Parts of a text with `&` between them.
pub open spec fn ampersand_joined(parts: Seq<Seq<char>>) -> Seq<char>
    decreases parts.len(),
{
    if parts.len() == 0 {
        Seq::empty()
    } else if parts.len() == 1 {
        parts[0]
    } else {
        parts[0] + "&"@ + ampersand_joined(parts.skip(1))
    }
}

/// An address without its secrets: in each part between two `&`, what follows the first
/// `api_key=` or `AccessToken=` is hidden.
pub open spec fn redacted(uri: Seq<char>) -> Seq<char> {
    ampersand_joined(text::split(uri, '&').map_values(|part: Seq<char>| redacted_part(part)))
}

/// Where a text that occurs in `s` first occurs.
proof fn lemma_find_text(s: Seq<char>, wanted: Seq<char>)
    ensures
        match find_text(s, wanted) {
            Some(at) => {
                &&& 0 <= at
                &&& at + wanted.len() <= s.len()
                &&& text::starts_with(s.skip(at), wanted)
                &&& forall|i: int| 0 <= i < at ==> !#[trigger] text::starts_with(s.skip(i), wanted)
            },
            None => forall|i: int|
                0 <= i <= s.len() ==> !#[trigger] text::starts_with(s.skip(i), wanted),
        },
    decreases s.len(),
{
    assert(s.skip(0) =~= s);
    if !text::starts_with(s, wanted) && s.len() > 0 {
        let rest = s.skip(1);
        lemma_find_text(rest, wanted);
        assert forall|i: int| 1 <= i <= s.len() implies #[trigger] s.skip(i) == rest.skip(i - 1) by {
            assert(s.skip(i) =~= rest.skip(i - 1));
        }
        match find_text(rest, wanted) {
            Some(at) => {
                assert(s.skip(at + 1) == rest.skip(at));
                assert forall|i: int| 0 <= i < at + 1 implies !#[trigger] text::starts_with(
                    s.skip(i),
                    wanted,
                ) by {
                    if i > 0 {
                        assert(s.skip(i) == rest.skip(i - 1));
                    }
                }
            },
            None => {
                assert forall|i: int| 0 <= i <= s.len() implies !#[trigger] text::starts_with(
                    s.skip(i),
                    wanted,
                ) by {
                    if i > 0 {
                        assert(s.skip(i) == rest.skip(i - 1));
                    }
                }
            },
        }
    }
}

/// A place where a text occurs, with none before it, is where it first occurs.
proof fn lemma_find_text_is(s: Seq<char>, wanted: Seq<char>, at: int)
    requires
        0 <= at <= s.len(),
        text::starts_with(s.skip(at), wanted),
        forall|i: int| 0 <= i < at ==> !#[trigger] text::starts_with(s.skip(i), wanted),
    ensures
        find_text(s, wanted) == Some(at),
{
    lemma_find_text(s, wanted);
    match find_text(s, wanted) {
        Some(found) => {
            if found < at {
                assert(text::starts_with(s.skip(found), wanted));
            }
        },
        None => {
            assert(text::starts_with(s.skip(at), wanted));
        },
    }
}

/// Finds where `wanted` first occurs in `s`.
fn text_position(s: &[char], wanted: &str) -> (at: Option<usize>)
    ensures
        match (at, find_text(s@, wanted@)) {
            (Some(at), Some(wanted_at)) => at == wanted_at,
            (None, None) => true,
            _ => false,
        },
{
    let len: usize = s.len();
    let mut i: usize = 0;
    proof {
        lemma_find_text(s@, wanted@);
    }
    while i < len
        invariant
            i <= len,
            len == s@.len(),
            forall|j: int| 0 <= j < i ==> !#[trigger] text::starts_with(s@.skip(j), wanted@),
        decreases len - i,
    {
        let rest: &[char] = vstd::slice::slice_subrange(s, i, len);
        assert(rest@ =~= s@.skip(i as int));
        if text::strip_prefix(rest, wanted).is_some() {
            proof {
                lemma_find_text_is(s@, wanted@, i as int);
            }
            return Some(i);
        }
        i = i + 1;
    }
    let rest: &[char] = vstd::slice::slice_subrange(s, len, len);
    assert(rest@ =~= s@.skip(len as int));
    if text::strip_prefix(rest, wanted).is_some() {
        proof {
            lemma_find_text_is(s@, wanted@, len as int);
        }
        return Some(len);
    }
    proof {
        lemma_find_text(s@, wanted@);
    }
    None
}

/// Hides all that follows `key` in one part of an address.
fn hidden(part: &[char], key: &str) -> (shown: Vec<char>)
    ensures
        shown@ == masked_after(part@, key@),
{
    let key_chars: Vec<char> = text::chars_of(key);
    let len: usize = part.len();
    proof {
        lemma_find_text(part@, key@);
    }
    match text_position(part, key) {
        Some(at) => {
            let mut shown: Vec<char> = vstd::slice::slice_to_vec(
                vstd::slice::slice_subrange(part, 0, at + key_chars.len()),
            );
            let mut mask: Vec<char> = text::chars_of("REDACTED");
            shown.append(&mut mask);
            assert(shown@ =~= masked_after(part@, key@));
            shown
        },
        None => vstd::slice::slice_to_vec(part),
    }
}

/// An address without its secrets, for logs.
pub fn redacted_uri(uri: &str) -> (shown: String)
    ensures
        shown@ == redacted(uri@),
{
    let chars: Vec<char> = text::chars_of(uri);
    let parts: Vec<&[char]> = text::parts(chars.as_slice(), '&');
    let ghost all = text::split(uri@, '&');
    let ghost shown_parts = all.map_values(|part: Seq<char>| redacted_part(part));
    let mut shown: Vec<char> = Vec::new();
    let mut i: usize = parts.len();
    proof {
        reveal_strlit("&");
    }
    while i > 0
        invariant
            i <= parts.len(),
            parts@.len() == all.len(),
            shown_parts == all.map_values(|part: Seq<char>| redacted_part(part)),
            forall|j: int| 0 <= j < parts@.len() ==> (#[trigger] parts@[j])@ == all[j],
            shown@ == ampersand_joined(shown_parts.skip(i as int)),
            "&"@ == seq!['&'],
        decreases i,
    {
        let first: Vec<char> = hidden(parts[i - 1], "api_key=");
        let mut longer: Vec<char> = hidden(first.as_slice(), "AccessToken=");
        let ghost part = longer@;
        assert(part == shown_parts[i - 1]);
        if i < parts.len() {
            longer.push('&');
        }
        longer.append(&mut shown);
        shown = longer;
        proof {
            let later = shown_parts.skip(i as int);
            let now = shown_parts.skip(i - 1);
            assert(now[0] == part);
            assert(now.skip(1) =~= later);
            if i < parts.len() {
                assert(shown@ =~= part + "&"@ + ampersand_joined(later));
            } else {
                assert(shown@ =~= part);
            }
        }
        i = i - 1;
    }
    assert(shown_parts.skip(0) =~= shown_parts);
    text::text_of(shown.as_slice())
}

/// Where a text first occurs depends on no character after it.
proof fn lemma_same_beginning(s: Seq<char>, other: Seq<char>, wanted: Seq<char>, n: int)
    requires
        0 <= n <= s.len(),
        n <= other.len(),
        s.take(n) == other.take(n),
        find_text(s, wanted) matches Some(at) && at + wanted.len() <= n,
    ensures
        find_text(other, wanted) == find_text(s, wanted),
{
    lemma_find_text(s, wanted);
    let at = find_text(s, wanted)->0;
    assert forall|i: int| 0 <= i <= at implies #[trigger] text::starts_with(other.skip(i), wanted)
        == text::starts_with(s.skip(i), wanted) by {
        let there = other.skip(i).take(wanted.len() as int);
        let here = s.skip(i).take(wanted.len() as int);
        assert forall|j: int| 0 <= j < wanted.len() implies #[trigger] there[j] == here[j] by {
            assert(there[j] == other[i + j] && here[j] == s[i + j]);
            assert(other.take(n)[i + j] == other[i + j] && s.take(n)[i + j] == s[i + j]);
        }
        assert(there =~= here);
    }
    lemma_find_text_is(other, wanted, at);
}

/// A part with a key in it, once masked after the key, shows nothing of what came after it.
proof fn lemma_masked(before: Seq<char>, key: Seq<char>, one: Seq<char>, other: Seq<char>)
    ensures
        masked_after(before + key + one, key) == masked_after(before + key + other, key),
{
    let n = (before.len() + key.len()) as int;
    let s = before + key + one;
    let t = before + key + other;
    assert(s.skip(before.len() as int).take(key.len() as int) =~= key);
    assert(text::starts_with(s.skip(before.len() as int), key));
    lemma_find_text(s, key);
    let at = find_text(s, key)->0;
    if at > before.len() {
        assert(text::starts_with(s.skip(before.len() as int), key));
    }
    assert(s.take(n) =~= t.take(n));
    lemma_same_beginning(s, t, key, n);
    assert(s.take(at + key.len()) =~= t.take(at + key.len()));
}

/// What masking after one key does to a part with another key in it: it either hides that key's
/// value with what came before, or leaves the part up to that value as it was.
proof fn lemma_masked_before(
    before: Seq<char>,
    key: Seq<char>,
    one: Seq<char>,
    other: Seq<char>,
    first: Seq<char>,
)
    ensures
        ({
            let s = masked_after(before + key + one, first);
            let t = masked_after(before + key + other, first);
            s == t || exists|x: Seq<char>, y: Seq<char>|
                s == before + key + x && t == #[trigger] (before + key + y) && s
                    == #[trigger] (before + key + x)
        }),
{
    let n = (before.len() + key.len()) as int;
    let whole = before + key + one;
    let twin = before + key + other;
    let s = masked_after(whole, first);
    let t = masked_after(twin, first);
    lemma_find_text(whole, first);
    lemma_find_text(twin, first);
    assert(whole.take(n) =~= twin.take(n));
    let early = find_text(whole, first) matches Some(at) && at + first.len() <= n;
    let early_twin = find_text(twin, first) matches Some(at) && at + first.len() <= n;
    if early {
        lemma_same_beginning(whole, twin, first, n);
        let at = find_text(whole, first)->0;
        assert(whole.take(at + first.len()) =~= twin.take(at + first.len()));
    } else if early_twin {
        lemma_same_beginning(twin, whole, first, n);
    } else {
        assert(s =~= before + key + s.skip(n));
        assert(t =~= before + key + t.skip(n));
    }
}

/// A part of an address shows nothing of a secret in it.
proof fn lemma_redacted_part(before: Seq<char>, key: Seq<char>, one: Seq<char>, other: Seq<char>)
    requires
        key == "api_key="@ || key == "AccessToken="@,
    ensures
        redacted_part(before + key + one) == redacted_part(before + key + other),
{
    if key == "api_key="@ {
        lemma_masked(before, key, one, other);
    } else {
        lemma_masked_before(before, key, one, other, "api_key="@);
        let s = masked_after(before + key + one, "api_key="@);
        let t = masked_after(before + key + other, "api_key="@);
        if s != t {
            let (x, y) = choose|x: Seq<char>, y: Seq<char>|
                s == before + key + x && t == #[trigger] (before + key + y) && s
                    == #[trigger] (before + key + x);
            lemma_masked(before, key, x, y);
        }
    }
}

/// Redaction goes part by part.
proof fn lemma_redacted_parts(s: Seq<char>)
    ensures
        ({
            let at = text::find_char(s, '&');
            redacted(s) == if at < s.len() {
                redacted_part(s.take(at)) + "&"@ + redacted(s.skip(at + 1))
            } else {
                redacted_part(s)
            }
        }),
{
    let at = text::find_char(s, '&');
    let shown = |part: Seq<char>| redacted_part(part);
    text::lemma_find_char(s, '&');
    if at < s.len() {
        let rest = text::split(s.skip(at + 1), '&');
        let masked = text::split(s, '&').map_values(shown);
        assert(masked.len() == rest.len() + 1);
        assert(masked.skip(1) =~= rest.map_values(shown));
        assert(masked[0] == redacted_part(s.take(at)));
        lemma_split_is_not_empty(s.skip(at + 1));
    } else {
        assert(text::split(s, '&').map_values(shown) =~= seq![redacted_part(s)]);
    }
}

/// Every text has a part.
proof fn lemma_split_is_not_empty(s: Seq<char>)
    ensures
        text::split(s, '&').len() > 0,
{
}

/// What is shown of an address does not depend on the secrets in it: two addresses that differ
/// only in the value of `api_key=` or `AccessToken=`, which ends at the next `&` or with the
/// address, look the same.
pub proof fn law_secrets_are_not_shown(
    before: Seq<char>,
    key: Seq<char>,
    one: Seq<char>,
    other: Seq<char>,
    after: Seq<char>,
)
    requires
        key == "api_key="@ || key == "AccessToken="@,
        !one.contains('&'),
        !other.contains('&'),
        after.len() == 0 || after[0] == '&',
    ensures
        redacted(before + key + one + after) == redacted(before + key + other + after),
    decreases before.len(),
{
    reveal_strlit("api_key=");
    reveal_strlit("AccessToken=");
    let s = before + key + one + after;
    let t = before + key + other + after;
    let at = text::find_char(before, '&');
    text::lemma_find_char(before, '&');
    lemma_redacted_parts(s);
    lemma_redacted_parts(t);
    if at < before.len() {
        text::lemma_find_char_is(s, '&', at);
        text::lemma_find_char_is(t, '&', at);
        let rest = before.skip(at + 1);
        assert(s.take(at) =~= t.take(at));
        assert(s.skip(at + 1) =~= rest + key + one + after);
        assert(t.skip(at + 1) =~= rest + key + other + after);
        law_secrets_are_not_shown(rest, key, one, other, after);
    } else {
        let s_end = (before.len() + key.len() + one.len()) as int;
        let t_end = (before.len() + key.len() + other.len()) as int;
        assert(forall|i: int| 0 <= i < key.len() ==> key[i] != '&');
        assert forall|i: int| 0 <= i < s_end implies s[i] != '&' by {
            if i >= before.len() + key.len() {
                assert(one.contains(one[i - before.len() - key.len()]));
            }
        }
        assert forall|i: int| 0 <= i < t_end implies t[i] != '&' by {
            if i >= before.len() + key.len() {
                assert(other.contains(other[i - before.len() - key.len()]));
            }
        }
        text::lemma_find_char_is(s, '&', s_end);
        text::lemma_find_char_is(t, '&', t_end);
        lemma_redacted_part(before, key, one, other);
        assert(s.take(s_end) =~= before + key + one);
        assert(t.take(t_end) =~= before + key + other);
        if after.len() == 0 {
            assert(s =~= before + key + one);
            assert(t =~= before + key + other);
        } else {
            assert(s.skip(s_end + 1) =~= after.skip(1));
            assert(t.skip(t_end + 1) =~= after.skip(1));
        }
    }
}

/// An address in which neither key occurs is shown as it is.
pub proof fn law_addresses_without_secrets_are_shown(uri: Seq<char>)
    requires
        find_text(uri, "api_key="@) is None,
        find_text(uri, "AccessToken="@) is None,
    ensures
        redacted(uri) == uri,
    decreases uri.len(),
{
    let at = text::find_char(uri, '&');
    text::lemma_find_char(uri, '&');
    lemma_redacted_parts(uri);
    if at < uri.len() {
        let rest = uri.skip(at + 1);
        lemma_none_inside(uri, "api_key="@, 0, at);
        lemma_none_inside(uri, "AccessToken="@, 0, at);
        lemma_none_inside(uri, "api_key="@, at + 1, uri.len() as int);
        lemma_none_inside(uri, "AccessToken="@, at + 1, uri.len() as int);
        assert(uri.subrange(0, at) =~= uri.take(at));
        assert(uri.subrange(at + 1, uri.len() as int) =~= rest);
        law_addresses_without_secrets_are_shown(rest);
        reveal_strlit("&");
        assert(uri =~= uri.take(at) + "&"@ + rest);
    }
}

/// A text that does not occur in `s` does not occur in a part of `s`.
proof fn lemma_none_inside(s: Seq<char>, wanted: Seq<char>, from: int, to: int)
    requires
        0 <= from <= to <= s.len(),
        find_text(s, wanted) is None,
    ensures
        find_text(s.subrange(from, to), wanted) is None,
{
    let part = s.subrange(from, to);
    lemma_find_text(s, wanted);
    lemma_find_text(part, wanted);
    if find_text(part, wanted) is Some {
        let at = find_text(part, wanted)->0;
        assert(s.skip(from + at).take(wanted.len() as int) =~= part.skip(at).take(
            wanted.len() as int,
        ));
        assert(text::starts_with(s.skip(from + at), wanted));
    }
}

/// Masking a part after a key that has been masked after it changes nothing.
proof fn lemma_masked_twice(part: Seq<char>, key: Seq<char>)
    ensures
        masked_after(masked_after(part, key), key) == masked_after(part, key),
{
    lemma_find_text(part, key);
    if let Some(at) = find_text(part, key) {
        let masked = masked_after(part, key);
        let n = at + key.len();
        assert(masked.take(n) =~= part.take(n));
        lemma_same_beginning(part, masked, key, n);
        assert(masked =~= masked.take(n) + "REDACTED"@);
    }
}

/// The last character of a key that stands in a text, and the one before it.
proof fn lemma_key_ends(s: Seq<char>, key: Seq<char>)
    requires
        find_text(s, key) is Some,
        key.len() >= 2,
    ensures
        ({
            let end = find_text(s, key)->0 + key.len();
            &&& key.len() <= end <= s.len()
            &&& s[end - 1] == key.last()
            &&& s[end - 2] == key[key.len() - 2]
        }),
{
    lemma_find_text(s, key);
    let at = find_text(s, key)->0;
    let there = s.skip(at).take(key.len() as int);
    assert(there == key);
    assert(there[key.len() - 1] == s[at + key.len() - 1]);
    assert(there[key.len() - 2] == s[at + key.len() - 2]);
}

/// A part without its secrets is shown as it is.
proof fn lemma_redacted_part_twice(part: Seq<char>)
    ensures
        redacted_part(redacted_part(part)) == redacted_part(part),
{
    let first = "api_key="@;
    let second = "AccessToken="@;
    let mask = "REDACTED"@;
    reveal_strlit("api_key=");
    reveal_strlit("AccessToken=");
    reveal_strlit("REDACTED");
    let once = masked_after(part, first);
    let shown = masked_after(once, second);
    lemma_masked_twice(part, first);
    lemma_masked_twice(once, second);
    lemma_find_text(once, second);
    assert(masked_after(shown, first) == shown) by {
        if find_text(once, second) is Some && find_text(shown, first) is Some {
            let n = find_text(once, second)->0 + second.len();
            lemma_key_ends(once, second);
            lemma_key_ends(shown, first);
            let end = find_text(shown, first)->0 + first.len();
            if end > n {
                // The key would end inside the mask.
                assert(shown[end - 1] == mask[end - 1 - n]);
            } else {
                assert(shown.take(n) =~= once.take(n));
                lemma_same_beginning(shown, once, first, n);
                lemma_masked_shape(part, first);
                assert(once.len() == end + mask.len());
                if n > end {
                    assert(once[n - 1] == mask[n - 1 - end]);
                } else {
                    assert(once[n - 2] == shown[n - 2]);
                }
            }
        }
    }
}

/// A part that a key stands in after masking ends with the mask right after it.
proof fn lemma_masked_shape(part: Seq<char>, key: Seq<char>)
    ensures
        ({
            let masked = masked_after(part, key);
            find_text(masked, key) matches Some(at) ==> masked == masked.take(at + key.len())
                + "REDACTED"@
        }),
{
    lemma_masked_twice(part, key);
}

/// Masking brings no `&` into a part.
proof fn lemma_redacted_part_has_no_ampersand(part: Seq<char>)
    requires
        !part.contains('&'),
    ensures
        !redacted_part(part).contains('&'),
{
    let once = masked_after(part, "api_key="@);
    lemma_masked_has_no_ampersand(part, "api_key="@);
    lemma_masked_has_no_ampersand(once, "AccessToken="@);
}

proof fn lemma_masked_has_no_ampersand(part: Seq<char>, key: Seq<char>)
    requires
        !part.contains('&'),
    ensures
        !masked_after(part, key).contains('&'),
{
    reveal_strlit("REDACTED");
    lemma_find_text(part, key);
    let masked = masked_after(part, key);
    assert forall|i: int| 0 <= i < masked.len() implies masked[i] != '&' by {
        if find_text(part, key) is Some {
            let n = find_text(part, key)->0 + key.len();
            if i < n {
                assert(part.contains(part[i]));
            }
        } else {
            assert(part.contains(part[i]));
        }
    }
}

/// Redacting an address that is redacted already changes nothing.
pub proof fn law_redaction_is_idempotent(uri: Seq<char>)
    ensures
        redacted(redacted(uri)) == redacted(uri),
    decreases uri.len(),
{
    let at = text::find_char(uri, '&');
    text::lemma_find_char(uri, '&');
    lemma_redacted_parts(uri);
    lemma_redacted_parts(redacted(uri));
    reveal_strlit("&");
    let part = if at < uri.len() {
        uri.take(at)
    } else {
        uri
    };
    assert(!part.contains('&'));
    let shown = redacted_part(part);
    lemma_redacted_part_has_no_ampersand(part);
    lemma_redacted_part_twice(part);
    assert forall|i: int| 0 <= i < shown.len() implies redacted(uri)[i] != '&' by {
        assert(shown.contains(shown[i]));
    }
    text::lemma_find_char_is(redacted(uri), '&', shown.len() as int);
    if at < uri.len() {
        let rest = uri.skip(at + 1);
        law_redaction_is_idempotent(rest);
        assert(redacted(uri).take(shown.len() as int) =~= shown);
        assert(redacted(uri).skip(shown.len() as int + 1) =~= redacted(rest));
    }
}

// ---------------------------------------------------------------------------
// JSON
// ---------------------------------------------------------------------------
/// How a character is written inside a JSON string.
pub open spec fn escaped_char(c: char) -> Seq<char> {
    if c == '\\' {
        seq!['\\', '\\']
    } else if c == '"' {
        seq!['\\', '"']
    } else if c == '\n' {
        seq!['\\', 'n']
    } else if c == '\r' {
        seq!['\\', 'r']
    } else {
        seq![c]
    }
}

/// How a text is written inside a JSON string.
pub open spec fn escaped(s: Seq<char>) -> Seq<char>
    decreases s.len(),
{
    if s.len() == 0 {
        Seq::empty()
    } else {
        escaped(s.drop_last()) + escaped_char(s.last())
    }
}

/// Writes a text for the inside of a JSON string.
pub fn json_escape(value: &str) -> (written: String)
    ensures
        written@ == escaped(value@),
{
    let chars: Vec<char> = text::chars_of(value);
    let mut written: String = String::new();
    let mut i: usize = 0;
    assert(chars@.take(0) =~= Seq::<char>::empty());
    while i < chars.len()
        invariant
            i <= chars.len(),
            written@ == escaped(chars@.take(i as int)),
        decreases chars.len() - i,
    {
        let c: char = chars[i];
        let ghost before = written@;
        if c == '\\' {
            written.push('\\');
            written.push('\\');
        } else if c == '"' {
            written.push('\\');
            written.push('"');
        } else if c == '\n' {
            written.push('\\');
            written.push('n');
        } else if c == '\r' {
            written.push('\\');
            written.push('r');
        } else {
            written.push(c);
        }
        proof {
            let longer = chars@.take(i + 1);
            assert(longer.drop_last() =~= chars@.take(i as int));
            assert(longer.last() == c);
            assert(written@ =~= before + escaped_char(c));
        }
        i = i + 1;
    }
    assert(chars@.take(chars@.len() as int) =~= chars@);
    written
}

/// An escaped text stays on one line.
pub proof fn law_escaped_text_has_no_line_breaks(s: Seq<char>)
    ensures
        !escaped(s).contains('\n'),
        !escaped(s).contains('\r'),
    decreases s.len(),
{
    if s.len() > 0 {
        let front = escaped(s.drop_last());
        let back = escaped_char(s.last());
        law_escaped_text_has_no_line_breaks(s.drop_last());
        assert forall|i: int| 0 <= i < escaped(s).len() implies escaped(s)[i] != '\n'
            && escaped(s)[i] != '\r' by {
            if i < front.len() {
                assert(front.contains(front[i]));
            } else {
                assert(escaped(s)[i] == back[i - front.len()]);
            }
        }
    }
}

/// The text that an escaped text was written for.
pub open spec fn unescaped(s: Seq<char>) -> Seq<char>
    decreases s.len(),
{
    if s.len() == 0 {
        Seq::empty()
    } else if s[0] == '\\' && s.len() > 1 {
        let c = if s[1] == 'n' {
            '\n'
        } else if s[1] == 'r' {
            '\r'
        } else {
            s[1]
        };
        seq![c] + unescaped(s.skip(2))
    } else {
        seq![s[0]] + unescaped(s.skip(1))
    }
}

/// Unescaping undoes escaping: no two texts are written the same way.
pub proof fn law_escaped_text_reads_back(s: Seq<char>)
    ensures
        unescaped(escaped(s)) == s,
    decreases s.len(),
{
    if s.len() > 0 {
        lemma_escaped_from_the_front(s);
        law_escaped_text_reads_back(s.skip(1));
        let first = escaped_char(s[0]);
        let rest = escaped(s.skip(1));
        assert((first + rest).skip(first.len() as int) =~= rest);
        assert(s =~= seq![s[0]] + s.skip(1));
    }
}

/// Escaping may begin with the first character.
proof fn lemma_escaped_from_the_front(s: Seq<char>)
    requires
        s.len() > 0,
    ensures
        escaped(s) == escaped_char(s[0]) + escaped(s.skip(1)),
    decreases s.len(),
{
    if s.len() == 1 {
        assert(s.drop_last() =~= Seq::<char>::empty());
        assert(s.skip(1) =~= Seq::<char>::empty());
        assert(escaped(Seq::<char>::empty()) =~= Seq::<char>::empty());
        assert(escaped(s) =~= escaped_char(s[0]) + escaped(s.skip(1)));
    } else {
        lemma_escaped_from_the_front(s.drop_last());
        assert(s.drop_last().skip(1) =~= s.skip(1).drop_last());
        assert(s.skip(1).last() == s.last());
        assert(escaped(s) =~= escaped_char(s[0]) + escaped(s.skip(1)));
    }
}

/// A text is found where it first occurs, and nowhere if it does not.
pub proof fn law_texts_are_found_where_they_first_occur(s: Seq<char>, wanted: Seq<char>, i: int)
    requires
        0 <= i,
        i + wanted.len() <= s.len(),
    ensures
        match find_text(s, wanted) {
            Some(at) => {
                &&& 0 <= at && at + wanted.len() <= s.len()
                &&& s.subrange(at, at + wanted.len()) == wanted
                &&& i < at ==> s.subrange(i, i + wanted.len()) != wanted
            },
            None => s.subrange(i, i + wanted.len()) != wanted,
        },
{
    let n = wanted.len() as int;
    lemma_find_text(s, wanted);
    assert(s.skip(i).take(n) =~= s.subrange(i, i + n));
    assert(text::starts_with(s.skip(i), wanted) <==> s.subrange(i, i + n) == wanted);
    if let Some(at) = find_text(s, wanted) {
        assert(s.skip(at).take(n) =~= s.subrange(at, at + n));
    }
}

/// The parts of an address on both sides of an `&` are redacted each by itself, and the `&` is
/// shown: a secret in one of them hides nothing of the other.
pub proof fn law_parts_are_redacted_each_by_itself(one: Seq<char>, other: Seq<char>)
    ensures
        redacted(one + seq!['&'] + other) == redacted(one) + seq!['&'] + redacted(other),
    decreases one.len(),
{
    reveal_strlit("&");
    let whole = one + seq!['&'] + other;
    let at = text::find_char(one, '&');
    text::lemma_find_char(one, '&');
    lemma_redacted_parts(one);
    lemma_redacted_parts(whole);
    text::lemma_find_char_is(whole, '&', at);
    assert(whole.take(at) =~= one.take(at));
    if at < one.len() {
        let rest = one.skip(at + 1);
        assert(whole.skip(at + 1) =~= rest + seq!['&'] + other);
        law_parts_are_redacted_each_by_itself(rest, other);
        assert(redacted(whole) =~= redacted(one) + seq!['&'] + redacted(other));
    } else {
        assert(one.take(at) =~= one);
        assert(whole.skip(at + 1) =~= other);
        assert(redacted(whole) =~= redacted(one) + seq!['&'] + redacted(other));
    }
}

/// Of a part with a secret, what comes before the secret is shown, the key with it, and in place of
/// the secret stands `REDACTED`.
pub proof fn law_what_comes_before_a_secret_is_shown(
    before: Seq<char>,
    key: Seq<char>,
    secret: Seq<char>,
)
    requires
        key == "api_key="@ || key == "AccessToken="@,
        !before.contains('&'),
        !secret.contains('&'),
        find_text(before + key + secret, key) == Some(before.len() as int),
        key == "api_key="@ ==> find_text(before + key, "AccessToken="@) is None,
        key == "AccessToken="@ ==> find_text(before + key, "api_key="@) is None,
    ensures
        redacted(before + key + secret) == before + key + "REDACTED"@,
{
    reveal_strlit("api_key=");
    reveal_strlit("AccessToken=");
    reveal_strlit("REDACTED");
    let part = before + key + secret;
    let shown = before + key + "REDACTED"@;
    let n = (before.len() + key.len()) as int;
    assert forall|i: int| 0 <= i < part.len() implies part[i] != '&' by {
        if i < before.len() {
            assert(before.contains(before[i]));
        } else if i >= n {
            assert(secret.contains(secret[i - n]));
        }
    }
    text::lemma_find_char_is(part, '&', part.len() as int);
    lemma_redacted_parts(part);
    assert(part.take(n) =~= before + key);
    assert(shown.take(n) =~= before + key);
    if key == "api_key="@ {
        let other = "AccessToken="@;
        assert(masked_after(part, key) =~= shown);
        lemma_find_text(shown, other);
        if find_text(shown, other) is Some {
            lemma_key_ends(shown, other);
            let end = find_text(shown, other)->0 + other.len();
            if end > n {
                assert(shown[end - 1] == "REDACTED"@[end - 1 - n]);
            } else {
                assert((before + key).take(n) =~= before + key);
                lemma_same_beginning(shown, before + key, other, n);
            }
        }
    } else {
        let other = "api_key="@;
        let once = masked_after(part, other);
        lemma_find_text(part, other);
        if find_text(part, other) is Some {
            let end = find_text(part, other)->0 + other.len();
            if end <= n {
                assert((before + key).take(n) =~= before + key);
                lemma_same_beginning(part, before + key, other, n);
            }
            assert(once.take(n) =~= part.take(n));
        }
        lemma_same_beginning(part, once, key, n);
        assert(masked_after(once, key) =~= shown);
    }
}

/// A text is escaped character by character: a backslash and a quotation mark with a backslash before
/// them, a line feed and a carriage return as `\n` and `\r`, and every other character as it is.
pub proof fn law_escaping_goes_character_by_character(s: Seq<char>, rest: Seq<char>, c: char)
    ensures
        escaped(s + rest) == escaped(s) + escaped(rest),
        escaped(Seq::empty()) == Seq::<char>::empty(),
        escaped(seq!['\\']) == seq!['\\', '\\'],
        escaped(seq!['"']) == seq!['\\', '"'],
        escaped(seq!['\n']) == seq!['\\', 'n'],
        escaped(seq!['\r']) == seq!['\\', 'r'],
        c != '\\' && c != '"' && c != '\n' && c != '\r' ==> escaped(seq![c]) == seq![c],
    decreases rest.len(),
{
    lemma_escaped_alone('\\');
    lemma_escaped_alone('"');
    lemma_escaped_alone('\n');
    lemma_escaped_alone('\r');
    lemma_escaped_alone(c);
    if rest.len() == 0 {
        assert(s + rest =~= s);
        assert(escaped(s) + escaped(rest) =~= escaped(s));
    } else {
        law_escaping_goes_character_by_character(s, rest.drop_last(), c);
        assert((s + rest).drop_last() =~= s + rest.drop_last());
        assert(escaped(s + rest) =~= escaped(s) + escaped(rest));
    }
}

proof fn lemma_escaped_alone(c: char)
    ensures
        escaped(seq![c]) == escaped_char(c),
{
    assert(seq![c].drop_last() =~= Seq::<char>::empty());
    assert(escaped(Seq::<char>::empty()) =~= Seq::<char>::empty());
    assert(escaped(seq![c]) =~= escaped_char(c));
}

} // verus!
