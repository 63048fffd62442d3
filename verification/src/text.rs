//! Text as sequences of characters: whitespace, searching, decimal numbers.
use vstd::prelude::*;

verus! {

/// `String::push` appends one character to the end of the string.
pub assume_specification[ String::push ](s: &mut String, ch: char)
    ensures
        final(s)@ == old(s)@.push(ch),
;

/// The characters of `text`, in order.
pub fn chars_of(text: &str) -> (chars: Vec<char>)
    ensures
        chars@ == text@,
{
    let mut chars: Vec<char> = Vec::new();
    for c in it: text.chars()
        invariant
            it.seq() == text@,
            chars@ == text@.take(it.index()),
    {
        chars.push(c);
    }
    assert(text@.take(text@.len() as int) =~= text@);
    chars
}

/// The string made of `chars`, in order.
pub fn text_of(chars: &[char]) -> (text: String)
    ensures
        text@ == chars@,
{
    let mut text: String = String::new();
    let mut i: usize = 0;
    while i < chars.len()
        invariant
            i <= chars.len(),
            text@ == chars@.take(i as int),
        decreases chars.len() - i,
    {
        text.push(chars[i]);
        i = i + 1;
        assert(chars@.take(i as int) =~= chars@.take(i - 1).push(chars@[i - 1]));
    }
    assert(chars@.take(chars@.len() as int) =~= chars@);
    text
}

/// The text `text` followed by the characters of `tail`.
pub fn joined(text: String, tail: &str) -> (whole: String)
    ensures
        whole@ == text@ + tail@,
{
    let mut whole: String = text;
    whole.append(tail);
    whole
}

/// Whether `a` and `b` hold the same characters.
pub fn same_chars(a: &[char], b: &[char]) -> (same: bool)
    ensures
        same == (a@ == b@),
{
    if a.len() != b.len() {
        return false;
    }
    let mut i: usize = 0;
    while i < a.len()
        invariant
            a.len() == b.len(),
            i <= a.len(),
            forall|j: int| 0 <= j < i ==> a@[j] == b@[j],
        decreases a.len() - i,
    {
        if a[i] != b[i] {
            return false;
        }
        i = i + 1;
    }
    assert(a@ =~= b@);
    true
}

/// Whether `s` holds the characters of `text`.
pub fn is_text(s: &[char], text: &str) -> (same: bool)
    ensures
        same == (s@ == text@),
{
    let wanted: Vec<char> = chars_of(text);
    same_chars(s, wanted.as_slice())
}

/// Whether `s` begins with `prefix`.
pub open spec fn starts_with(s: Seq<char>, prefix: Seq<char>) -> bool {
    prefix.len() <= s.len() && s.take(prefix.len() as int) == prefix
}

/// What follows `prefix` in `s`, if `s` begins with it.
pub open spec fn after_prefix(s: Seq<char>, prefix: Seq<char>) -> Option<Seq<char>> {
    if starts_with(s, prefix) {
        Some(s.skip(prefix.len() as int))
    } else {
        None
    }
}

/// Removes `prefix` from the front of `s`.
pub fn strip_prefix<'a>(s: &'a [char], prefix: &str) -> (rest: Option<&'a [char]>)
    ensures
        rest is Some <==> starts_with(s@, prefix@),
        rest is Some ==> rest->0@ == s@.skip(prefix@.len() as int),
{
    let wanted: Vec<char> = chars_of(prefix);
    if s.len() < wanted.len() {
        return None;
    }
    let head: &[char] = vstd::slice::slice_subrange(s, 0, wanted.len());
    assert(head@ =~= s@.take(prefix@.len() as int));
    if !same_chars(head, wanted.as_slice()) {
        return None;
    }
    let rest: &'a [char] = vstd::slice::slice_subrange(s, wanted.len(), s.len());
    assert(rest@ =~= s@.skip(prefix@.len() as int));
    Some(rest)
}

/// Whether `text` begins with `prefix`.
pub fn text_starts_with(text: &str, prefix: &str) -> (yes: bool)
    ensures
        yes == starts_with(text@, prefix@),
{
    let chars: Vec<char> = chars_of(text);
    strip_prefix(chars.as_slice(), prefix).is_some()
}

// ---------------------------------------------------------------------------
// Whitespace
// ---------------------------------------------------------------------------
/// The Unicode `White_Space` characters.
pub open spec fn is_white_space(c: char) -> bool {
    ||| '\u{9}' <= c <= '\u{d}'
    ||| c == ' '
    ||| c == '\u{85}'
    ||| c == '\u{a0}'
    ||| c == '\u{1680}'
    ||| '\u{2000}' <= c <= '\u{200a}'
    ||| c == '\u{2028}'
    ||| c == '\u{2029}'
    ||| c == '\u{202f}'
    ||| c == '\u{205f}'
    ||| c == '\u{3000}'
}

/// Decides whether `c` is a Unicode `White_Space` character.
pub fn white_space(c: char) -> (yes: bool)
    ensures
        yes == is_white_space(c),
{
    ('\u{9}' <= c && c <= '\u{d}') || c == ' ' || c == '\u{85}' || c == '\u{a0}' || c == '\u{1680}'
        || ('\u{2000}' <= c && c <= '\u{200a}') || c == '\u{2028}' || c == '\u{2029}'
        || c == '\u{202f}' || c == '\u{205f}' || c == '\u{3000}'
}

/// `s` without its leading whitespace.
pub open spec fn trim_start(s: Seq<char>) -> Seq<char>
    decreases s.len(),
{
    if s.len() > 0 && is_white_space(s[0]) {
        trim_start(s.skip(1))
    } else {
        s
    }
}

/// `s` without its trailing whitespace.
pub open spec fn trim_end(s: Seq<char>) -> Seq<char>
    decreases s.len(),
{
    if s.len() > 0 && is_white_space(s.last()) {
        trim_end(s.drop_last())
    } else {
        s
    }
}

/// `s` without its leading and trailing whitespace.
pub open spec fn trim(s: Seq<char>) -> Seq<char> {
    trim_end(trim_start(s))
}

/// Trimming leaves a text alone that neither begins nor ends with whitespace.
pub proof fn lemma_trim_of_trimmed(s: Seq<char>)
    requires
        s.len() > 0 ==> !is_white_space(s[0]) && !is_white_space(s.last()),
    ensures
        trim_start(s) == s,
        trim_end(s) == s,
        trim(s) == s,
{
}

/// Drops the leading whitespace of `s`.
pub fn trimmed_start<'a>(s: &'a [char]) -> (rest: &'a [char])
    ensures
        rest@ == trim_start(s@),
{
    let mut from: usize = 0;
    assert(s@.skip(0) =~= s@);
    while from < s.len() && white_space(s[from])
        invariant
            from <= s.len(),
            trim_start(s@) == trim_start(s@.skip(from as int)),
        decreases s.len() - from,
    {
        assert(s@.skip(from as int)[0] == s@[from as int]);
        assert(s@.skip(from as int).skip(1) =~= s@.skip(from + 1));
        from = from + 1;
    }
    proof {
        if from < s.len() {
            assert(s@.skip(from as int)[0] == s@[from as int]);
        }
        assert(s@.subrange(from as int, s@.len() as int) =~= s@.skip(from as int));
    }
    vstd::slice::slice_subrange(s, from, s.len())
}

/// Drops the trailing whitespace of `s`.
pub fn trimmed_end<'a>(s: &'a [char]) -> (rest: &'a [char])
    ensures
        rest@ == trim_end(s@),
{
    let mut to: usize = s.len();
    assert(s@.take(to as int) =~= s@);
    while to > 0 && white_space(s[to - 1])
        invariant
            to <= s.len(),
            trim_end(s@) == trim_end(s@.take(to as int)),
        decreases to,
    {
        assert(s@.take(to as int).last() == s@[to - 1]);
        assert(s@.take(to as int).drop_last() =~= s@.take(to - 1));
        to = to - 1;
    }
    proof {
        if to > 0 {
            assert(s@.take(to as int).last() == s@[to - 1]);
        }
        assert(s@.subrange(0, to as int) =~= s@.take(to as int));
    }
    vstd::slice::slice_subrange(s, 0, to)
}

/// Drops the leading and trailing whitespace of `s`.
pub fn trimmed<'a>(s: &'a [char]) -> (rest: &'a [char])
    ensures
        rest@ == trim(s@),
{
    trimmed_end(trimmed_start(s))
}

// ---------------------------------------------------------------------------
// Searching
// ---------------------------------------------------------------------------
/// The position of the first `c` in `s`, or the length of `s` if there is none.
pub open spec fn find_char(s: Seq<char>, c: char) -> int
    decreases s.len(),
{
    if s.len() == 0 || s[0] == c {
        0
    } else {
        1 + find_char(s.skip(1), c)
    }
}

/// The position of the last `c` in `s`, or -1 if there is none.
pub open spec fn rfind_char(s: Seq<char>, c: char) -> int
    decreases s.len(),
{
    if s.len() == 0 {
        -1
    } else if s.last() == c {
        s.len() - 1
    } else {
        rfind_char(s.drop_last(), c)
    }
}

/// `find_char` gives the first position that holds `c`.
pub proof fn lemma_find_char(s: Seq<char>, c: char)
    ensures
        0 <= find_char(s, c) <= s.len(),
        find_char(s, c) < s.len() ==> s[find_char(s, c)] == c,
        forall|j: int| 0 <= j < find_char(s, c) ==> s[j] != c,
    decreases s.len(),
{
    if s.len() > 0 && s[0] != c {
        lemma_find_char(s.skip(1), c);
        let rest: int = find_char(s.skip(1), c);
        assert forall|j: int| 0 <= j < 1 + rest implies s[j] != c by {
            if j > 0 {
                assert(s.skip(1)[j - 1] == s[j]);
            }
        }
    }
}

/// The first position that holds `c` is what `find_char` gives.
pub proof fn lemma_find_char_is(s: Seq<char>, c: char, at: int)
    requires
        0 <= at <= s.len(),
        at < s.len() ==> s[at] == c,
        forall|j: int| 0 <= j < at ==> s[j] != c,
    ensures
        find_char(s, c) == at,
{
    lemma_find_char(s, c);
}

/// The last position that holds `c` is what `rfind_char` gives.
pub proof fn lemma_rfind_char_is(s: Seq<char>, c: char, at: int)
    requires
        0 <= at < s.len(),
        s[at] == c,
        forall|j: int| at < j < s.len() ==> s[j] != c,
    ensures
        rfind_char(s, c) == at,
    decreases s.len(),
{
    if at < s.len() - 1 {
        lemma_rfind_char_is(s.drop_last(), c, at);
    }
}

/// Finds the first `c` in `s`.
pub fn position(s: &[char], c: char) -> (at: Option<usize>)
    ensures
        at is Some <==> find_char(s@, c) < s@.len(),
        at is Some ==> at->0 == find_char(s@, c),
{
    let mut i: usize = 0;
    while i < s.len()
        invariant
            i <= s.len(),
            forall|j: int| 0 <= j < i ==> s@[j] != c,
        decreases s.len() - i,
    {
        if s[i] == c {
            proof {
                lemma_find_char_is(s@, c, i as int);
            }
            return Some(i);
        }
        i = i + 1;
    }
    proof {
        lemma_find_char_is(s@, c, s@.len() as int);
    }
    None
}

/// Finds the last `c` in `s`.
pub fn last_position(s: &[char], c: char) -> (at: Option<usize>)
    ensures
        at is Some <==> rfind_char(s@, c) >= 0,
        at is Some ==> at->0 == rfind_char(s@, c) && at->0 < s@.len(),
{
    let mut to: usize = s.len();
    assert(s@.take(to as int) =~= s@);
    while to > 0
        invariant
            to <= s.len(),
            rfind_char(s@, c) == rfind_char(s@.take(to as int), c),
        decreases to,
    {
        assert(s@.take(to as int).last() == s@[to - 1]);
        if s[to - 1] == c {
            return Some(to - 1);
        }
        assert(s@.take(to as int).drop_last() =~= s@.take(to - 1));
        to = to - 1;
    }
    None
}

/// The text before and after the first `c` in `s`.
pub open spec fn split_at_first(s: Seq<char>, c: char) -> Option<(Seq<char>, Seq<char>)> {
    let at = find_char(s, c);
    if at < s.len() {
        Some((s.take(at), s.skip(at + 1)))
    } else {
        None
    }
}

/// The text before and after the last `c` in `s`.
pub open spec fn split_at_last(s: Seq<char>, c: char) -> Option<(Seq<char>, Seq<char>)> {
    let at = rfind_char(s, c);
    if at >= 0 {
        Some((s.take(at), s.skip(at + 1)))
    } else {
        None
    }
}

/// Splits `s` around its first `c`.
pub fn split_first<'a>(s: &'a [char], c: char) -> (parts: Option<(&'a [char], &'a [char])>)
    ensures
        match (parts, split_at_first(s@, c)) {
            (Some(found), Some(wanted)) => found.0@ == wanted.0 && found.1@ == wanted.1,
            (None, None) => true,
            _ => false,
        },
{
    let len: usize = s.len();
    proof {
        lemma_find_char(s@, c);
    }
    match position(s, c) {
        None => None,
        Some(at) => {
            let before: &'a [char] = vstd::slice::slice_subrange(s, 0, at);
            let after: &'a [char] = vstd::slice::slice_subrange(s, at + 1, len);
            assert(before@ =~= s@.take(at as int));
            assert(after@ =~= s@.skip(at + 1));
            Some((before, after))
        },
    }
}

/// Splits `s` around its last `c`.
pub fn split_last<'a>(s: &'a [char], c: char) -> (parts: Option<(&'a [char], &'a [char])>)
    ensures
        match (parts, split_at_last(s@, c)) {
            (Some(found), Some(wanted)) => found.0@ == wanted.0 && found.1@ == wanted.1,
            (None, None) => true,
            _ => false,
        },
{
    let len: usize = s.len();
    match last_position(s, c) {
        None => None,
        Some(at) => {
            let before: &'a [char] = vstd::slice::slice_subrange(s, 0, at);
            let after: &'a [char] = vstd::slice::slice_subrange(s, at + 1, len);
            assert(before@ =~= s@.take(at as int));
            assert(after@ =~= s@.skip(at + 1));
            Some((before, after))
        },
    }
}

/// The parts of `s` between the `c` in it, in order; `s` itself if there is none.
pub open spec fn split(s: Seq<char>, c: char) -> Seq<Seq<char>>
    decreases s.len(),
{
    let at = find_char(s, c);
    if 0 <= at < s.len() {
        seq![s.take(at)] + split(s.skip(at + 1), c)
    } else {
        seq![s]
    }
}

/// Splits `s` at every `c`.
pub fn parts<'a>(s: &'a [char], c: char) -> (found: Vec<&'a [char]>)
    ensures
        found@.len() == split(s@, c).len(),
        forall|i: int| 0 <= i < found@.len() ==> (#[trigger] found@[i])@ == split(s@, c)[i],
{
    let mut found: Vec<&'a [char]> = Vec::new();
    let mut rest: &'a [char] = s;
    loop
        invariant
            split(s@, c).len() == found@.len() + split(rest@, c).len(),
            forall|i: int| 0 <= i < found@.len() ==> (#[trigger] found@[i])@ == split(s@, c)[i],
            forall|i: int|
                0 <= i < split(rest@, c).len() ==> #[trigger] split(rest@, c)[i] == split(s@, c)[i
                    + found@.len()],
        decreases rest@.len(),
    {
        proof {
            lemma_find_char(rest@, c);
        }
        let ghost before = found@;
        let ghost whole = rest@;
        match split_first(rest, c) {
            None => {
                found.push(rest);
                assert(split(whole, c)[0] == split(s@, c)[before.len() as int]);
                return found;
            },
            Some((head, tail)) => {
                found.push(head);
                rest = tail;
                proof {
                    assert(split(whole, c)[0] == head@);
                    assert(split(whole, c)[0] == split(s@, c)[before.len() as int]);
                    assert forall|i: int| 0 <= i < split(rest@, c).len() implies #[trigger] split(
                        rest@,
                        c,
                    )[i] == split(s@, c)[i + found@.len()] by {
                        assert(split(whole, c)[i + 1] == split(rest@, c)[i]);
                        assert(split(whole, c)[i + 1] == split(s@, c)[i + 1 + before.len()]);
                    }
                }
            },
        }
    }
}

// ---------------------------------------------------------------------------
// Decimal numbers
// ---------------------------------------------------------------------------
/// Whether `c` is one of the ten ASCII digits.
pub open spec fn is_digit(c: char) -> bool {
    '0' <= c <= '9'
}

/// The number that a digit stands for.
pub open spec fn digit_value(c: char) -> nat {
    (c as int - '0' as int) as nat
}

/// Whether `s` holds digits only.
pub open spec fn all_digits(s: Seq<char>) -> bool {
    forall|i: int| 0 <= i < s.len() ==> is_digit(#[trigger] s[i])
}

/// The number that a row of digits stands for in base ten.
pub open spec fn digits_value(s: Seq<char>) -> nat
    decreases s.len(),
{
    if s.len() == 0 {
        0
    } else {
        digits_value(s.drop_last()) * 10 + digit_value(s.last())
    }
}

/// The number that `s` stands for, if it is a non-empty row of digits.
pub open spec fn natural(s: Seq<char>) -> Option<nat> {
    if s.len() > 0 && all_digits(s) {
        Some(digits_value(s))
    } else {
        None
    }
}

/// The value of `s` as an unsigned 64-bit number: digits, with an optional `+`.
pub open spec fn u64_value(s: Seq<char>) -> Option<u64> {
    let digits = if s.len() > 0 && s[0] == '+' {
        s.skip(1)
    } else {
        s
    };
    match natural(digits) {
        Some(n) if n <= u64::MAX => Some(n as u64),
        _ => None,
    }
}

/// A longer row of digits stands for at least as large a number.
proof fn lemma_digits_value_grows(s: Seq<char>, n: int)
    requires
        0 <= n <= s.len(),
    ensures
        digits_value(s.take(n)) <= digits_value(s),
    decreases s.len(),
{
    if n == s.len() {
        assert(s.take(n) =~= s);
    } else {
        lemma_digits_value_grows(s.drop_last(), n);
        assert(s.drop_last().take(n) =~= s.take(n));
    }
}

/// The value of a row of digits, if it does not exceed `max`.
pub fn bounded_natural(s: &[char], max: u64) -> (value: Option<u64>)
    ensures
        value is Some <==> natural(s@) is Some && natural(s@)->0 <= max,
        value is Some ==> value->0 == natural(s@)->0,
{
    if s.len() == 0 {
        return None;
    }
    let mut value: u64 = 0;
    let mut i: usize = 0;
    while i < s.len()
        invariant
            i <= s.len(),
            all_digits(s@.take(i as int)),
            value == digits_value(s@.take(i as int)),
            value <= max,
        decreases s.len() - i,
    {
        let c: char = s[i];
        let ghost longer = s@.take(i + 1);
        assert(longer.drop_last() =~= s@.take(i as int));
        assert(longer.last() == c);
        if !('0' <= c && c <= '9') {
            assert(!is_digit(s@[i as int]));
            return None;
        }
        let digit: u64 = c as u64 - '0' as u64;
        assert(digit == digit_value(c));
        if value > (u64::MAX - digit) / 10 || value * 10 + digit > max {
            proof {
                assert(digits_value(longer) == digits_value(s@.take(i as int)) * 10 + digit_value(
                    c,
                ));
                lemma_digits_value_grows(s@, i + 1);
            }
            return None;
        }
        value = value * 10 + digit;
        i = i + 1;
        assert forall|j: int| 0 <= j < i implies is_digit(#[trigger] s@.take(i as int)[j]) by {
            if j < i - 1 {
                assert(s@.take(i - 1)[j] == s@.take(i as int)[j]);
            }
        }
    }
    assert(s@.take(s@.len() as int) =~= s@);
    Some(value)
}

/// Reads `s` as an unsigned 64-bit number.
pub fn parse_u64(s: &[char]) -> (value: Option<u64>)
    ensures
        value == u64_value(s@),
{
    if s.len() > 0 && s[0] == '+' {
        let digits: &[char] = vstd::slice::slice_subrange(s, 1, s.len());
        assert(digits@ =~= s@.skip(1));
        bounded_natural(digits, u64::MAX)
    } else {
        bounded_natural(s, u64::MAX)
    }
}

/// The digit character for a number below ten.
pub open spec fn digit_char(d: nat) -> char {
    (48 + d) as char
}

/// The shortest decimal form of `n`.
pub open spec fn decimal(n: nat) -> Seq<char>
    decreases n,
{
    if n < 10 {
        seq![digit_char(n)]
    } else {
        decimal(n / 10).push(digit_char(n % 10))
    }
}

/// Appends the decimal form of `n` to `text`.
pub fn push_decimal(text: &mut String, n: u64)
    ensures
        final(text)@ == old(text)@ + decimal(n as nat),
    decreases n,
{
    if n >= 10 {
        push_decimal(text, n / 10);
    }
    let digit: u8 = (n % 10) as u8;
    text.push((48 + digit) as char);
    assert(text@ =~= old(text)@ + decimal(n as nat));
}

/// The text `text` followed by the decimal form of `n`.
pub fn joined_decimal(text: String, n: u64) -> (whole: String)
    ensures
        whole@ == text@ + decimal(n as nat),
{
    let mut whole: String = text;
    push_decimal(&mut whole, n);
    whole
}

/// The decimal form of a number is a non-empty row of digits that stands for it.
pub proof fn law_decimal_reads_back(n: nat)
    ensures
        decimal(n).len() > 0,
        all_digits(decimal(n)),
        digits_value(decimal(n)) == n,
        natural(decimal(n)) == Some(n),
    decreases n,
{
    if n >= 10 {
        law_decimal_reads_back(n / 10);
        let shorter = decimal(n / 10);
        let whole = decimal(n);
        assert(whole.drop_last() =~= shorter);
        assert forall|i: int| 0 <= i < whole.len() implies is_digit(#[trigger] whole[i]) by {
            if i < shorter.len() {
                assert(whole[i] == shorter[i]);
            }
        }
    } else {
        assert(decimal(n).drop_last() =~= Seq::<char>::empty());
        assert(digits_value(Seq::<char>::empty()) == 0);
    }
}

/// Reading the decimal form of an unsigned 64-bit number gives the number.
pub proof fn law_u64_round_trip(n: u64)
    ensures
        u64_value(decimal(n as nat)) == Some(n),
{
    law_decimal_reads_back(n as nat);
    assert(is_digit(decimal(n as nat)[0]));
}

// ---------------------------------------------------------------------------
// What these functions come to
// ---------------------------------------------------------------------------
/// A text begins with a prefix if and only if it is the prefix and something after it, and that is
/// what is left when the prefix is removed.
pub proof fn law_prefixes_come_first(prefix: Seq<char>, rest: Seq<char>, s: Seq<char>)
    ensures
        starts_with(prefix + rest, prefix),
        after_prefix(prefix + rest, prefix) == Some(rest),
        after_prefix(s, prefix) matches Some(left) ==> s == prefix + left,
        after_prefix(s, prefix) is None ==> s != prefix + rest,
        starts_with(s, prefix) <==> after_prefix(s, prefix) is Some,
{
    assert((prefix + rest).take(prefix.len() as int) =~= prefix);
    assert((prefix + rest).skip(prefix.len() as int) =~= rest);
    if starts_with(s, prefix) {
        assert(s =~= s.take(prefix.len() as int) + s.skip(prefix.len() as int));
    }
}

/// Whether `s` holds whitespace only.
pub open spec fn blank(s: Seq<char>) -> bool {
    forall|i: int| 0 <= i < s.len() ==> is_white_space(#[trigger] s[i])
}

/// Tabs, line breaks and spaces are whitespace; letters, digits and punctuation are not. Outside
/// ASCII, whitespace is what Unicode lists as such.
pub proof fn law_white_space_is_what_unicode_lists(c: char)
    ensures
        (c as int) < 128 ==> (is_white_space(c) <==> 9 <= c as int <= 13 || c as int == 32),
        128 <= c as int ==> (is_white_space(c) <==> {
            ||| c as int == 0x85
            ||| c as int == 0xa0
            ||| c as int == 0x1680
            ||| 0x2000 <= c as int <= 0x200a
            ||| 0x2028 <= c as int <= 0x2029
            ||| c as int == 0x202f
            ||| c as int == 0x205f
            ||| c as int == 0x3000
        }),
{
}

proof fn lemma_trim_start_of_padded(pad: Seq<char>, s: Seq<char>)
    requires
        blank(pad),
    ensures
        trim_start(pad + s) == trim_start(s),
    decreases pad.len(),
{
    if pad.len() == 0 {
        assert(pad + s =~= s);
    } else {
        assert(is_white_space(pad[0]));
        assert forall|i: int| 0 <= i < pad.skip(1).len() implies is_white_space(
            #[trigger] pad.skip(1)[i],
        ) by {
            assert(pad.skip(1)[i] == pad[i + 1]);
        }
        assert((pad + s).skip(1) =~= pad.skip(1) + s);
        lemma_trim_start_of_padded(pad.skip(1), s);
    }
}

proof fn lemma_trim_end_of_padded(s: Seq<char>, pad: Seq<char>)
    requires
        blank(pad),
    ensures
        trim_end(s + pad) == trim_end(s),
    decreases pad.len(),
{
    if pad.len() == 0 {
        assert(s + pad =~= s);
    } else {
        assert(is_white_space(pad.last()));
        assert forall|i: int| 0 <= i < pad.drop_last().len() implies is_white_space(
            #[trigger] pad.drop_last()[i],
        ) by {
            assert(pad.drop_last()[i] == pad[i]);
        }
        assert((s + pad).drop_last() =~= s + pad.drop_last());
        lemma_trim_end_of_padded(s, pad.drop_last());
    }
}

/// Trimming removes exactly the whitespace around a text: whatever is put around a text that
/// neither begins nor ends with whitespace, trimming gives the text back.
pub proof fn law_trimming_removes_what_is_around(before: Seq<char>, s: Seq<char>, after: Seq<char>)
    requires
        blank(before),
        blank(after),
        s.len() > 0 ==> !is_white_space(s[0]) && !is_white_space(s.last()),
    ensures
        trim(before + s + after) == s,
        trim_start(before + s) == s,
        trim_end(s + after) == s,
{
    lemma_trim_of_trimmed(s);
    assert(before + s + after =~= before + (s + after));
    lemma_trim_start_of_padded(before, s + after);
    lemma_trim_start_of_padded(before, s);
    lemma_trim_end_of_padded(s, after);
    if s.len() > 0 {
        assert((s + after)[0] == s[0]);
    } else {
        assert(s + after =~= after + s);
        lemma_trim_start_of_padded(after, s);
    }
}

/// A text is split around the first of the characters asked for, and around the last of them; one
/// that does not hold the character is not split.
pub proof fn law_texts_are_split_where_the_character_is(
    head: Seq<char>,
    c: char,
    tail: Seq<char>,
)
    ensures
        !head.contains(c) ==> split_at_first(head + seq![c] + tail, c) == Some((head, tail)),
        !tail.contains(c) ==> split_at_last(head + seq![c] + tail, c) == Some((head, tail)),
        !head.contains(c) ==> split_at_first(head, c) is None && split_at_last(head, c) is None,
{
    let whole = head + seq![c] + tail;
    let at = head.len() as int;
    assert(whole.take(at) =~= head);
    assert(whole.skip(at + 1) =~= tail);
    assert(whole[at] == c);
    if !head.contains(c) {
        assert forall|j: int| 0 <= j < at implies whole[j] != c && head[j] != c by {
            assert(head.contains(head[j]));
        }
        lemma_find_char_is(whole, c, at);
        lemma_find_char_is(head, c, at);
        lemma_rfind_char_is_none(head, c);
    }
    if !tail.contains(c) {
        assert forall|j: int| at < j < whole.len() implies whole[j] != c by {
            assert(tail.contains(tail[j - at - 1]));
        }
        lemma_rfind_char_is(whole, c, at);
    }
}

proof fn lemma_rfind_char_is_none(s: Seq<char>, c: char)
    requires
        !s.contains(c),
    ensures
        rfind_char(s, c) == -1,
    decreases s.len(),
{
    if s.len() > 0 {
        assert(s.contains(s.last()));
        assert forall|i: int| 0 <= i < s.drop_last().len() implies s.drop_last()[i] != c by {
            assert(s.contains(s[i]));
        }
        lemma_rfind_char_is_none(s.drop_last(), c);
    }
}

/// The parts of a text are what stands between the characters it is split at: the first of them is
/// what comes before the first, and the others are the parts of what comes after it.
pub proof fn law_parts_stand_between_the_characters(head: Seq<char>, c: char, tail: Seq<char>)
    requires
        !head.contains(c),
    ensures
        split(head, c) == seq![head],
        split(head + seq![c] + tail, c) == seq![head] + split(tail, c),
{
    let whole = head + seq![c] + tail;
    law_texts_are_split_where_the_character_is(head, c, tail);
    lemma_find_char(whole, c);
    lemma_find_char(head, c);
    if find_char(head, c) < head.len() {
        assert(head.contains(head[find_char(head, c)]));
    }
}

/// Numbers are written and read in base ten: one digit more multiplies by ten and adds the digit.
pub proof fn law_digits_count_in_tens(s: Seq<char>, n: nat, d: nat)
    requires
        d < 10,
    ensures
        digits_value(Seq::empty()) == 0,
        digits_value(s.push((48 + d) as char)) == 10 * digits_value(s) + d,
        decimal(d) == seq![(48 + d) as char],
        n > 0 ==> decimal(10 * n + d) == decimal(n).push((48 + d) as char),
{
    let c = (48 + d) as char;
    assert(s.push(c).drop_last() =~= s);
    assert(s.push(c).last() == c);
    if n > 0 {
        assert((10 * n + d) / 10 == n);
        assert((10 * n + d) % 10 == d);
    }
}

/// A row of digits, with or without a `+` before it, is read as the 64-bit number that it stands
/// for; one that stands for a larger number is not read.
pub proof fn law_rows_of_digits_are_read(digits: Seq<char>)
    requires
        digits.len() > 0,
        forall|i: int| 0 <= i < digits.len() ==> 48 <= (#[trigger] digits[i]) as int <= 57,
    ensures
        digits_value(digits) <= u64::MAX ==> {
            &&& u64_value(digits) == Some(digits_value(digits) as u64)
            &&& u64_value(seq!['+'] + digits) == Some(digits_value(digits) as u64)
        },
        digits_value(digits) > u64::MAX ==> {
            &&& u64_value(digits) is None
            &&& u64_value(seq!['+'] + digits) is None
        },
{
    assert(all_digits(digits));
    assert((seq!['+'] + digits).skip(1) =~= digits);
}

/// Only a row of digits, with or without a `+` before it, is read as a number.
pub proof fn law_only_rows_of_digits_are_read(s: Seq<char>, i: int)
    requires
        u64_value(s) is Some,
        0 <= i < s.len(),
    ensures
        48 <= s[i] as int <= 57 || (i == 0 && s[0] == '+' && s.len() > 1),
{
    if s[0] == '+' {
        assert(all_digits(s.skip(1)));
        if i > 0 {
            assert(s.skip(1)[i - 1] == s[i]);
        }
    } else {
        assert(all_digits(s));
    }
}

/// What is added after one more character is one more part.
pub proof fn law_what_is_added_is_one_more_part(s: Seq<char>, c: char, part: Seq<char>)
    requires
        !part.contains(c),
    ensures
        split(s + seq![c] + part, c) == split(s, c).push(part),
    decreases s.len(),
{
    lemma_find_char(s, c);
    let at = find_char(s, c);
    let none = Seq::<char>::empty();
    if at < s.len() {
        let head = s.take(at);
        let rest = s.skip(at + 1);
        assert(!head.contains(c));
        assert(s =~= head + seq![c] + rest);
        assert(s + seq![c] + part =~= head + seq![c] + (rest + seq![c] + part));
        law_parts_stand_between_the_characters(head, c, rest);
        law_parts_stand_between_the_characters(head, c, rest + seq![c] + part);
        law_what_is_added_is_one_more_part(rest, c, part);
        assert(seq![head] + split(rest, c).push(part) =~= (seq![head] + split(rest, c)).push(part));
    } else {
        assert(!s.contains(c));
        law_parts_stand_between_the_characters(s, c, part);
        law_parts_stand_between_the_characters(part, c, none);
        assert(seq![s] + seq![part] =~= seq![s].push(part));
    }
}

/// What is left of a text without its leading whitespace is the end of it.
pub proof fn lemma_trim_start_keeps(s: Seq<char>)
    ensures
        trim_start(s).len() <= s.len(),
        trim_start(s) == s.skip(s.len() - trim_start(s).len()),
    decreases s.len(),
{
    assert(s.skip(0) =~= s);
    if s.len() > 0 && is_white_space(s[0]) {
        lemma_trim_start_keeps(s.skip(1));
        let left = trim_start(s.skip(1)).len();
        assert(s.skip(1).skip(s.len() - 1 - left) =~= s.skip(s.len() - left));
    }
}

} // verus!
