//! Cutting text into words and lines.

use vstd::prelude::*;

use crate::text::{nested, slice_of};

verus! {

/// The characters with the Unicode property White_Space.
pub open spec fn is_space(c: char) -> bool {
    ||| 0x09 <= c as u32 && c as u32 <= 0x0D
    ||| c as u32 == 0x20
    ||| c as u32 == 0x85
    ||| c as u32 == 0xA0
    ||| c as u32 == 0x1680
    ||| 0x2000 <= c as u32 && c as u32 <= 0x200A
    ||| c as u32 == 0x2028
    ||| c as u32 == 0x2029
    ||| c as u32 == 0x202F
    ||| c as u32 == 0x205F
    ||| c as u32 == 0x3000
}

/// Whether a character is white space.
pub fn is_white_space(c: char) -> (space: bool)
    ensures
        space == is_space(c),
{
    let code: u32 = c as u32;
    (0x09 <= code && code <= 0x0D) || code == 0x20 || code == 0x85 || code == 0xA0 || code == 0x1680
        || (0x2000 <= code && code <= 0x200A) || code == 0x2028 || code == 0x2029 || code == 0x202F
        || code == 0x205F || code == 0x3000
}

/// How many characters stand before the first white space.
pub open spec fn word_length(s: Seq<char>) -> nat
    decreases s.len(),
{
    if s.len() == 0 || is_space(s[0]) {
        0
    } else {
        1 + word_length(s.drop_first())
    }
}

/// A word is no longer than its text.
pub proof fn lemma_word_fits(s: Seq<char>)
    ensures
        word_length(s) <= s.len(),
    decreases s.len(),
{
    if s.len() > 0 && !is_space(s[0]) {
        lemma_word_fits(s.drop_first());
    }
}

/// The words of a text: its longest runs without white space, in order.
pub open spec fn words(s: Seq<char>) -> Seq<Seq<char>>
    decreases s.len(),
{
    if s.len() == 0 {
        seq![]
    } else if is_space(s[0]) {
        words(s.drop_first())
    } else {
        proof {
            lemma_word_fits(s);
        }
        seq![s.take(word_length(s) as int)] + words(s.skip(word_length(s) as int))
    }
}

/// A word ends inside the text or at its end.
proof fn lemma_word_length(s: Seq<char>, n: int)
    requires
        0 <= n <= s.len(),
        forall|k: int| 0 <= k < n ==> !is_space(#[trigger] s[k]),
        n == s.len() || is_space(s[n]),
    ensures
        word_length(s) == n,
    decreases n,
{
    if n > 0 {
        assert(!is_space(s[0]));
        let t = s.drop_first();
        assert forall|k: int| 0 <= k < n - 1 implies !is_space(#[trigger] t[k]) by {
            assert(t[k] == s[k + 1]);
        }
        lemma_word_length(t, n - 1);
    }
}

/// Cuts a text into its words.
pub fn split_words(text: &[char]) -> (parts: Vec<Vec<char>>)
    ensures
        nested(parts@) == words(text@),
{
    let mut parts: Vec<Vec<char>> = Vec::new();
    let mut i: usize = 0;
    assert(text@.skip(0) =~= text@);
    assert(nested(parts@) =~= Seq::<Seq<char>>::empty());
    while i < text.len()
        invariant
            i <= text@.len(),
            words(text@) =~= nested(parts@) + words(text@.skip(i as int)),
        decreases text@.len() - i,
    {
        let ghost rest = text@.skip(i as int);
        if is_white_space(text[i]) {
            assert(rest.drop_first() =~= text@.skip(i + 1));
            i += 1;
        } else {
            let mut j: usize = i;
            while j < text.len() && !is_white_space(text[j])
                invariant
                    i <= j <= text@.len(),
                    i < text@.len(),
                    forall|k: int| i <= k < j ==> !is_space(#[trigger] text@[k]),
                decreases text@.len() - j,
            {
                j += 1;
            }
            proof {
                lemma_word_length(rest, j - i);
                assert(rest.take(j - i) =~= text@.subrange(i as int, j as int));
                assert(rest.skip(j - i) =~= text@.skip(j as int));
            }
            let ghost before = nested(parts@);
            parts.push(slice_of(text, i, j));
            assert(nested(parts@) =~= before.push(text@.subrange(i as int, j as int)));
            i = j;
        }
    }
    assert(text@.skip(i as int) =~= Seq::<char>::empty());
    parts
}

/// How many characters stand before the first `c`.
pub open spec fn length_until(s: Seq<char>, c: char) -> nat
    decreases s.len(),
{
    if s.len() == 0 || s[0] == c {
        0
    } else {
        1 + length_until(s.drop_first(), c)
    }
}

/// Where the first `c` stands, counted by `length_until`.
pub proof fn lemma_length_until(s: Seq<char>, c: char, n: int)
    requires
        0 <= n <= s.len(),
        forall|k: int| 0 <= k < n ==> #[trigger] s[k] != c,
        n == s.len() || s[n] == c,
    ensures
        length_until(s, c) == n,
    decreases n,
{
    if n > 0 {
        assert(s[0] != c);
        let t = s.drop_first();
        assert forall|k: int| 0 <= k < n - 1 implies #[trigger] t[k] != c by {
            assert(t[k] == s[k + 1]);
        }
        lemma_length_until(t, c, n - 1);
    }
}

/// The position of the first `c` at or after `start`, or the end.
pub fn find_from(text: &[char], start: usize, c: char) -> (at: usize)
    requires
        start <= text@.len(),
    ensures
        start <= at <= text@.len(),
        at - start == length_until(text@.skip(start as int), c),
        forall|k: int| start <= k < at ==> text@[k] != c,
        at < text@.len() ==> text@[at as int] == c,
{
    let mut at: usize = start;
    while at < text.len() && text[at] != c
        invariant
            start <= at <= text@.len(),
            forall|k: int| start <= k < at ==> text@[k] != c,
        decreases text@.len() - at,
    {
        at += 1;
    }
    proof {
        lemma_length_until(text@.skip(start as int), c, at - start);
    }
    at
}

/// A line without the carriage return at its end.
pub open spec fn without_return(s: Seq<char>) -> Seq<char> {
    if s.len() > 0 && s.last() == '\r' {
        s.drop_last()
    } else {
        s
    }
}

/// The lines of a text. A line ends at a line feed, which is not part of it, nor is a carriage
/// return right before it; what follows the last line feed is a line unless it is empty.
pub open spec fn lines(s: Seq<char>) -> Seq<Seq<char>>
    decreases s.len(),
{
    let n = length_until(s, '\n');
    if s.len() == 0 {
        seq![]
    } else if n >= s.len() {
        seq![s]
    } else {
        seq![without_return(s.take(n as int))] + lines(s.skip(n as int + 1))
    }
}

/// Cuts a text into its lines.
pub fn split_lines(text: &[char]) -> (parts: Vec<Vec<char>>)
    ensures
        nested(parts@) == lines(text@),
{
    let mut parts: Vec<Vec<char>> = Vec::new();
    let mut i: usize = 0;
    assert(text@.skip(0) =~= text@);
    assert(nested(parts@) =~= Seq::<Seq<char>>::empty());
    while i < text.len()
        invariant
            i <= text@.len(),
            lines(text@) =~= nested(parts@) + lines(text@.skip(i as int)),
        decreases text@.len() - i,
    {
        let ghost rest = text@.skip(i as int);
        let ghost before = nested(parts@);
        let j = find_from(text, i, '\n');
        if j == text.len() {
            parts.push(slice_of(text, i, j));
            assert(text@.subrange(i as int, j as int) =~= rest);
            assert(nested(parts@) =~= before.push(rest));
            i = j;
        } else {
            let end: usize = if j > i && text[j - 1] == '\r' {
                j - 1
            } else {
                j
            };
            parts.push(slice_of(text, i, end));
            assert(rest.take(j - i) =~= text@.subrange(i as int, j as int));
            assert(without_return(rest.take(j - i)) =~= text@.subrange(i as int, end as int));
            assert(nested(parts@) =~= before.push(text@.subrange(i as int, end as int)));
            assert(rest.skip(j - i + 1) =~= text@.skip(j + 1));
            i = j + 1;
        }
    }
    assert(text@.skip(i as int) =~= Seq::<char>::empty());
    parts
}

/// A text without the white space at its start.
pub open spec fn trim_start(s: Seq<char>) -> Seq<char>
    decreases s.len(),
{
    if s.len() > 0 && is_space(s[0]) {
        trim_start(s.drop_first())
    } else {
        s
    }
}

/// A text without the white space at its end.
pub open spec fn trim_end(s: Seq<char>) -> Seq<char>
    decreases s.len(),
{
    if s.len() > 0 && is_space(s.last()) {
        trim_end(s.drop_last())
    } else {
        s
    }
}

/// A text without the white space at both of its ends.
pub fn trimmed(text: &[char]) -> (part: Vec<char>)
    ensures
        part@ == trim_end(trim_start(text@)),
{
    let mut start: usize = 0;
    assert(text@.skip(0) =~= text@);
    while start < text.len() && is_white_space(text[start])
        invariant
            start <= text@.len(),
            trim_start(text@) == trim_start(text@.skip(start as int)),
        decreases text@.len() - start,
    {
        assert(text@.skip(start as int).drop_first() =~= text@.skip(start + 1));
        start += 1;
    }
    let ghost front = text@.skip(start as int);
    assert(trim_start(text@) == front);
    let mut end: usize = text.len();
    assert(text@.subrange(start as int, end as int) =~= front);
    while end > start && is_white_space(text[end - 1])
        invariant
            start <= end <= text@.len(),
            trim_end(front) == trim_end(text@.subrange(start as int, end as int)),
        decreases end,
    {
        let ghost part = text@.subrange(start as int, end as int);
        assert(part.drop_last() =~= text@.subrange(start as int, end - 1));
        end -= 1;
    }
    slice_of(text, start, end)
}

/// The position of the last `c`.
pub open spec fn last_position(s: Seq<char>, c: char) -> Option<int>
    decreases s.len(),
{
    if s.len() == 0 {
        None
    } else if s.last() == c {
        Some(s.len() - 1)
    } else {
        last_position(s.drop_last(), c)
    }
}

/// The position of the last `c`.
pub fn find_last(text: &[char], c: char) -> (at: Option<usize>)
    ensures
        at matches Some(i) ==> last_position(text@, c) == Some(i as int) && i < text@.len(),
        at is None ==> last_position(text@, c) is None,
{
    let mut end: usize = text.len();
    assert(text@.take(end as int) =~= text@);
    while end > 0
        invariant
            end <= text@.len(),
            last_position(text@, c) == last_position(text@.take(end as int), c),
        decreases end,
    {
        if text[end - 1] == c {
            return Some(end - 1);
        }
        assert(text@.take(end as int).drop_last() =~= text@.take(end - 1));
        end -= 1;
    }
    None
}

/// The position of the last place where `first` is followed by `second`.
pub open spec fn last_pair(s: Seq<char>, first: char, second: char) -> Option<int>
    decreases s.len(),
{
    if s.len() < 2 {
        None
    } else if s[s.len() - 2] == first && s.last() == second {
        Some(s.len() - 2)
    } else {
        last_pair(s.drop_last(), first, second)
    }
}

/// The position of the last place where `first` is followed by `second`.
pub fn find_last_pair(text: &[char], first: char, second: char) -> (at: Option<usize>)
    ensures
        at matches Some(i) ==> last_pair(text@, first, second) == Some(i as int) && i + 2
            <= text@.len(),
        at is None ==> last_pair(text@, first, second) is None,
{
    let mut end: usize = text.len();
    assert(text@.take(end as int) =~= text@);
    while end >= 2
        invariant
            end <= text@.len(),
            last_pair(text@, first, second) == last_pair(text@.take(end as int), first, second),
        decreases end,
    {
        if text[end - 2] == first && text[end - 1] == second {
            return Some(end - 2);
        }
        assert(text@.take(end as int).drop_last() =~= text@.take(end - 1));
        end -= 1;
    }
    None
}

} // verus!
