//! Text as sequences of characters: building, comparing and searching.

use vstd::prelude::*;
use vstd::utf8::{decode_utf8, valid_utf8};

verus! {

/// `String::push` appends the given character to the end of the string.
pub assume_specification[ String::push ](s: &mut String, c: char)
    ensures
        final(s)@ == old(s)@.push(c),
;

/// The text that `String::from_utf8_lossy` makes of raw bytes.
pub uninterp spec fn utf8_lossy(bytes: Seq<u8>) -> Seq<char>;

/// Calls `String::from_utf8_lossy`. Bytes that are valid UTF-8 come out as the text that they
/// encode; in any other case the text holds at least one replacement character. Where the
/// replacement characters stand is left to the name [`utf8_lossy`].
#[verifier::external_body]
pub(crate) fn decode_lossy(bytes: &[u8]) -> (text: String)
    ensures
        text@ == utf8_lossy(bytes@),
        valid_utf8(bytes@) ==> text@ == decode_utf8(bytes@),
        !valid_utf8(bytes@) ==> text@.contains('\u{FFFD}'),
{
    String::from_utf8_lossy(bytes).into_owned()
}

/// The contents of a list of strings.
pub open spec fn texts(list: Seq<String>) -> Seq<Seq<char>> {
    list.map_values(|s: String| s@)
}

/// The contents of a list of vectors.
pub open spec fn nested<T>(list: Seq<Vec<T>>) -> Seq<Seq<T>> {
    list.map_values(|v: Vec<T>| v@)
}

/// The characters of a text, in order.
pub fn chars_of(text: &str) -> (chars: Vec<char>)
    ensures
        chars@ == text@,
{
    let mut chars: Vec<char> = Vec::new();
    for c in it: text.chars()
        invariant
            chars@ == it.seq().take(it.index() as int),
            it.seq() == text@,
    {
        chars.push(c);
    }
    chars
}

/// The text made of the given characters.
pub fn string_of(chars: &[char]) -> (text: String)
    ensures
        text@ == chars@,
{
    let mut text = String::new();
    for i in 0..chars.len()
        invariant
            text@ == chars@.take(i as int),
    {
        text.push(chars[i]);
        assert(chars@.take(i + 1) =~= chars@.take(i as int).push(chars@[i as int]));
    }
    assert(chars@.take(chars@.len() as int) =~= chars@);
    text
}

/// The characters from `start` up to but not including `end`.
pub fn slice_of<T: Copy>(items: &[T], start: usize, end: usize) -> (part: Vec<T>)
    requires
        start <= end <= items@.len(),
    ensures
        part@ == items@.subrange(start as int, end as int),
{
    let mut part: Vec<T> = Vec::new();
    for i in start..end
        invariant
            start <= end <= items@.len(),
            part@ == items@.subrange(start as int, i as int),
    {
        part.push(items[i]);
        assert(items@.subrange(start as int, i + 1) =~= items@.subrange(
            start as int,
            i as int,
        ).push(items@[i as int]));
    }
    part
}

/// Whether two texts hold the same characters.
pub fn same_chars(a: &[char], b: &[char]) -> (same: bool)
    ensures
        same == (a@ == b@),
{
    if a.len() != b.len() {
        return false;
    }
    for i in 0..a.len()
        invariant
            a@.len() == b@.len(),
            forall|k: int| 0 <= k < i ==> a@[k] == b@[k],
    {
        if a[i] != b[i] {
            return false;
        }
    }
    assert(a@ =~= b@);
    true
}

/// Whether a text holds exactly the characters of `word`.
pub fn is_word(chars: &[char], word: &str) -> (same: bool)
    ensures
        same == (chars@ == word@),
{
    same_chars(chars, chars_of(word).as_slice())
}

/// Whether `prefix` stands at position `start` of `chars`.
fn stands_at(chars: &[char], start: usize, part: &[char]) -> (found: bool)
    requires
        start <= chars@.len(),
    ensures
        found == (start + part@.len() <= chars@.len() && chars@.subrange(
            start as int,
            start + part@.len(),
        ) == part@),
{
    if part.len() > chars.len() - start {
        return false;
    }
    let found = same_chars(slice_of(chars, start, start + part.len()).as_slice(), part);
    found
}

/// Whether `chars` begins with `prefix`.
pub fn begins_with(chars: &[char], prefix: &str) -> (found: bool)
    ensures
        found == prefix@.is_prefix_of(chars@),
{
    stands_at(chars, 0, chars_of(prefix).as_slice())
}

/// Whether `chars` ends with `suffix`.
pub fn ends_in(chars: &[char], suffix: &str) -> (found: bool)
    ensures
        found == suffix@.is_suffix_of(chars@),
{
    let part = chars_of(suffix);
    if part.len() > chars.len() {
        return false;
    }
    stands_at(chars, chars.len() - part.len(), part.as_slice())
}

/// `part` occurs somewhere in `whole`.
pub open spec fn occurs_in(part: Seq<char>, whole: Seq<char>) -> bool {
    exists|i: int|
        0 <= i <= whole.len() - part.len() && #[trigger] whole.subrange(i, i + part.len()) == part
}

/// Whether `part` occurs somewhere in `chars`.
pub fn holds(chars: &[char], part: &str) -> (found: bool)
    ensures
        found == occurs_in(part@, chars@),
{
    let needle = chars_of(part);
    if needle.len() > chars.len() {
        return false;
    }
    let last: usize = chars.len() - needle.len();
    let mut start: usize = 0;
    while start <= last
        invariant
            needle@ == part@,
            last == chars@.len() - needle@.len(),
            start <= last + 1,
            forall|i: int|
                0 <= i < start ==> #[trigger] chars@.subrange(i, i + needle@.len()) != needle@,
        decreases last + 1 - start,
    {
        if stands_at(chars, start, needle.as_slice()) {
            return true;
        }
        if start == last {
            return false;
        }
        start += 1;
    }
    false
}

/// Whether a text holds the character `c`.
pub fn holds_char(chars: &[char], c: char) -> (found: bool)
    ensures
        found == chars@.contains(c),
{
    for i in 0..chars.len()
        invariant
            forall|k: int| 0 <= k < i ==> chars@[k] != c,
    {
        if chars[i] == c {
            assert(chars@[i as int] == c);
            return true;
        }
    }
    false
}

/// The ASCII lower-case form of a character; every other character stands for itself.
pub open spec fn lower_char(c: char) -> char {
    if 'A' <= c && c <= 'Z' {
        (c as u8 + 32) as char
    } else {
        c
    }
}

/// A text with its ASCII capitals in lower case.
pub open spec fn lower(s: Seq<char>) -> Seq<char> {
    s.map_values(|c: char| lower_char(c))
}

/// A text with its ASCII capitals in lower case.
pub fn to_lower(chars: &[char]) -> (lowered: Vec<char>)
    ensures
        lowered@ == lower(chars@),
{
    let mut lowered: Vec<char> = Vec::new();
    for i in 0..chars.len()
        invariant
            lowered@ == lower(chars@.take(i as int)),
    {
        let c = chars[i];
        if 'A' <= c && c <= 'Z' {
            lowered.push((c as u8 + 32) as char);
        } else {
            lowered.push(c);
        }
        assert(lower(chars@.take(i + 1)) =~= lower(chars@.take(i as int)).push(
            lower_char(chars@[i as int]),
        ));
    }
    assert(chars@.take(chars@.len() as int) =~= chars@);
    lowered
}

} // verus!
