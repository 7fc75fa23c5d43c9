//! What words, lines, numbers, paths and the pieces of a report are.

use vstd::prelude::*;

use crate::formatting::{
    duration_text, examples_text, is_sensitive, joined, path_text, sample_lines, sanitized,
    seconds_with_tenth, shown_paths, signal_text,
};
use crate::numbers::{
    decimal, digits_value, is_digit, numeral, signed_decimal, unsigned_value, without_plus,
};
use crate::paths::{
    components, inner_components, lemma_component_rank, lemma_piece_length, lies_below, path_rank,
    piece_components, piece_length, ComponentModel,
};
use crate::quoting::{argument_text, command_text, escaped, is_plain_argument};
use crate::scanning::{
    is_space, last_pair, last_position, lemma_length_until, length_until, lines, trim_end,
    trim_start, word_length, words,
};
use crate::text::{lower, occurs_in};

verus! {

proof fn lemma_word_length(s: Seq<char>, n: int)
    requires
        0 <= n <= s.len(),
        forall|k: int| 0 <= k < n ==> !is_space(#[trigger] s[k]),
        n == s.len() || is_space(s[n]),
    ensures
        word_length(s) == n,
    decreases n,
{
    if n > 0 {
        assert(!is_space(s[0]));
        let rest = s.drop_first();
        assert forall|k: int| 0 <= k < n - 1 implies !is_space(#[trigger] rest[k]) by {
            assert(rest[k] == s[k + 1]);
        }
        lemma_word_length(rest, n - 1);
    }
}

/// A text without blanks is one word, and an empty text has none.
pub proof fn text_without_blanks_is_one_word(s: Seq<char>)
    requires
        forall|k: int| 0 <= k < s.len() ==> !is_space(#[trigger] s[k]),
    ensures
        words(s) == if s.len() == 0 {
            seq![]
        } else {
            seq![s]
        },
{
    if s.len() > 0 {
        lemma_word_length(s, s.len() as int);
        assert(!is_space(s[0]));
        assert(s.take(s.len() as int) =~= s);
        assert(s.skip(s.len() as int) =~= Seq::<char>::empty());
        assert(words(s.skip(s.len() as int)) =~= Seq::<Seq<char>>::empty());
        assert(words(s) =~= seq![s]);
    }
}

/// A blank parts words: what stands before it and what stands behind it are cut on their own.
pub proof fn blanks_part_words(a: Seq<char>, blank: char, b: Seq<char>)
    requires
        is_space(blank),
    ensures
        words(a.push(blank) + b) == words(a) + words(b),
    decreases a.len(),
{
    let s = a.push(blank) + b;
    if a.len() == 0 {
        assert(s[0] == blank);
        assert(s.drop_first() =~= b);
        assert(words(a) + words(b) =~= words(b));
    } else if is_space(a[0]) {
        blanks_part_words(a.drop_first(), blank, b);
        assert(s.drop_first() =~= a.drop_first().push(blank) + b);
        assert(s[0] == a[0]);
    } else {
        let n = word_length(a) as int;
        crate::scanning::lemma_word_fits(a);
        lemma_word_end(a);
        assert forall|k: int| 0 <= k < n implies !is_space(#[trigger] s[k]) by {
            assert(s[k] == a[k]);
        }
        assert(n < a.len() ==> s[n] == a[n]);
        assert(n == a.len() ==> s[n] == blank);
        lemma_word_length(s, n);
        assert(n > 0);
        assert(s[0] == a[0]);
        blanks_part_words(a.skip(n), blank, b);
        assert(s.take(n) =~= a.take(n));
        assert(s.skip(n) =~= a.skip(n).push(blank) + b);
        assert(words(s) =~= seq![a.take(n)] + (words(a.skip(n)) + words(b)));
        assert(words(a) + words(b) =~= seq![a.take(n)] + (words(a.skip(n)) + words(b)));
    }
}

proof fn lemma_word_end(s: Seq<char>)
    ensures
        word_length(s) <= s.len(),
        forall|k: int| 0 <= k < word_length(s) ==> !is_space(#[trigger] s[k]),
        word_length(s) < s.len() ==> is_space(s[word_length(s) as int]),
    decreases s.len(),
{
    if s.len() > 0 && !is_space(s[0]) {
        let rest = s.drop_first();
        lemma_word_end(rest);
        assert forall|k: int| 0 <= k < word_length(s) implies !is_space(#[trigger] s[k]) by {
            if k > 0 {
                assert(s[k] == rest[k - 1]);
            }
        }
    }
}

/// A line ends at a line feed, with a carriage return before it or without; what comes after is cut on
/// its own. A text without a line feed is one line as it stands, and an empty text has none.
pub proof fn line_feeds_end_lines(a: Seq<char>, b: Seq<char>)
    requires
        forall|k: int| 0 <= k < a.len() ==> #[trigger] a[k] != '\n',
    ensures
        lines(a) == if a.len() == 0 {
            seq![]
        } else {
            seq![a]
        },
        lines(a.push('\n') + b) == seq![
            if a.len() > 0 && a[a.len() - 1] == '\r' {
                a.take(a.len() - 1)
            } else {
                a
            },
        ] + lines(b),
{
    lemma_length_until(a, '\n', a.len() as int);
    let s = a.push('\n') + b;
    let n = a.len() as int;
    assert forall|k: int| 0 <= k < n implies #[trigger] s[k] != '\n' by {
        assert(s[k] == a[k]);
    }
    assert(s[n] == '\n');
    lemma_length_until(s, '\n', n);
    assert(s.take(n) =~= a);
    assert(s.skip(n + 1) =~= b);
}

/// The first place of a character in a text, or the length of the text where it does not occur.
pub proof fn first_places_are_first(s: Seq<char>, c: char, n: int)
    requires
        0 <= n <= s.len(),
    ensures
        length_until(s, c) == n <==> (forall|k: int| 0 <= k < n ==> #[trigger] s[k] != c) && (n
            < s.len() ==> s[n] == c),
    decreases s.len(),
{
    if (forall|k: int| 0 <= k < n ==> #[trigger] s[k] != c) && (n < s.len() ==> s[n] == c) {
        lemma_length_until(s, c, n);
    }
    if s.len() > 0 && s[0] != c && n > 0 {
        first_places_are_first(s.drop_first(), c, n - 1);
        if length_until(s, c) == n {
            let rest = s.drop_first();
            assert forall|k: int| 0 <= k < n implies #[trigger] s[k] != c by {
                if k > 0 {
                    assert(s[k] == rest[k - 1]);
                }
            }
            assert(n < s.len() ==> s[n] == rest[n - 1]);
        }
    }
}

/// The last place of a character in a text.
pub proof fn last_places_are_last(s: Seq<char>, c: char, n: int)
    requires
        0 <= n < s.len(),
    ensures
        last_position(s, c) == Some(n) <==> s[n] == c && forall|k: int|
            n < k < s.len() ==> #[trigger] s[k] != c,
        last_position(s, c) is None ==> s[n] != c,
        last_position(s, c) matches Some(m) ==> 0 <= m < s.len() && s[m] == c,
    decreases s.len(),
{
    let front = s.drop_last();
    assert(s[s.len() - 1] == s.last());
    if s.last() != c {
        if n < front.len() {
            last_places_are_last(front, c, n);
            assert(front[n] == s[n]);
            if last_position(s, c) == Some(n) {
                assert forall|k: int| n < k < s.len() implies #[trigger] s[k] != c by {
                    if k < s.len() - 1 {
                        assert(front[k] == s[k]);
                    }
                }
            }
            if s[n] == c && (forall|k: int| n < k < s.len() ==> #[trigger] s[k] != c) {
                assert forall|k: int| n < k < front.len() implies #[trigger] front[k] != c by {
                    assert(front[k] == s[k]);
                }
            }
        } else if front.len() > 0 {
            last_places_are_last(front, c, front.len() - 1);
        }
        if let Some(m) = last_position(front, c) {
            if front.len() > 0 {
                assert(front[m] == s[m]);
            }
        }
    }
}

/// The last place where two characters stand side by side.
pub proof fn last_pairs_are_last(s: Seq<char>, a: char, b: char, n: int)
    requires
        0 <= n,
        n + 2 <= s.len(),
        s[n] == a,
        s[n + 1] == b,
        forall|k: int| n < k < s.len() - 1 ==> !(#[trigger] s[k] == a && s[k + 1] == b),
    ensures
        last_pair(s, a, b) == Some(n),
    decreases s.len(),
{
    if n + 2 < s.len() {
        let front = s.drop_last();
        assert(!(s[s.len() - 2] == a && s[s.len() - 2 + 1] == b));
        assert forall|k: int| n < k < front.len() - 1 implies !(#[trigger] front[k] == a
            && front[k + 1] == b) by {
            assert(front[k] == s[k] && front[k + 1] == s[k + 1]);
        }
        last_pairs_are_last(front, a, b, n);
    }
}

/// Blanks are the characters that Unicode calls white space.
pub proof fn blanks_are_white_space(c: char)
    ensures
        is_space(c) <==> c == '\t' || c == '\n' || c == '\u{b}' || c == '\u{c}' || c == '\r' || c == ' '
            || c == '\u{85}' || c == '\u{a0}' || c == '\u{1680}' || ('\u{2000}' <= c && c
            <= '\u{200a}') || c == '\u{2028}' || c == '\u{2029}' || c == '\u{202f}' || c
            == '\u{205f}' || c == '\u{3000}',
{
}

/// Trimming takes off blanks at both ends and nothing else.
pub proof fn trimming_takes_off_blanks(s: Seq<char>, blank: char)
    ensures
        is_space(blank) ==> trim_start(seq![blank] + s) == trim_start(s),
        is_space(blank) ==> trim_end(s.push(blank)) == trim_end(s),
        s.len() > 0 && !is_space(s[0]) ==> trim_start(s) == s,
        s.len() > 0 && !is_space(s[s.len() - 1]) ==> trim_end(s) == s,
        s.len() == 0 ==> trim_start(s) == s && trim_end(s) == s,
{
    assert((seq![blank] + s).drop_first() =~= s);
    assert(s.push(blank).drop_last() =~= s);
}

/// A single digit is its own character, and a longer number is its front with one digit more.
pub proof fn decimals_are_written_digit_by_digit(n: nat, d: nat)
    requires
        d < 10,
    ensures
        decimal(d).len() == 1 && decimal(d)[0] as int == 48 + d,
        n > 0 ==> decimal(10 * n + d) == decimal(n) + decimal(d),
{
    if n > 0 {
        assert((10 * n + d) / 10 == n && (10 * n + d) % 10 == d);
        assert(decimal(10 * n + d) =~= decimal(n) + decimal(d));
    }
}

/// A single hexadecimal digit is a figure or a small letter, and a longer number is its front with one
/// digit more.
pub proof fn hexadecimals_are_written_digit_by_digit(n: nat, d: nat)
    requires
        d < 16,
    ensures
        numeral(d, 16).len() == 1,
        d < 10 ==> numeral(d, 16)[0] as int == 48 + d,
        d >= 10 ==> numeral(d, 16)[0] as int == 97 + (d - 10),
        n > 0 ==> numeral(16 * n + d, 16) == numeral(n, 16) + numeral(d, 16),
{
    if n > 0 {
        assert((16 * n + d) / 16 == n && (16 * n + d) % 16 == d);
        assert(numeral(16 * n + d, 16) =~= numeral(n, 16) + numeral(d, 16));
    }
}

/// A negative number is written with a minus sign before it.
pub proof fn signs_are_written(n: nat)
    ensures
        signed_decimal(n as int) == decimal(n),
        n > 0 ==> signed_decimal(-(n as int)) == seq!['-'] + decimal(n),
{
}

/// The character is the digit with this value: figures first, then letters of either case.
pub open spec fn is_figure(c: char, d: nat) -> bool {
    if d < 10 {
        c as int == 48 + d
    } else {
        d < 16 && (c as int == 87 + d || c as int == 55 + d)
    }
}

/// Numbers are read digit by digit: one digit is its value, one more digit shifts what was read by the
/// base and adds its own value, and what is too great is no number.
pub proof fn numbers_are_read_digit_by_digit(s: Seq<char>, c: char, d: nat, base: nat, max: nat)
    requires
        2 <= base <= 16,
        d < base,
        is_figure(c, d),
    ensures
        unsigned_value(seq![c], base, max) == if d <= max {
            Some(d)
        } else {
            None
        },
        unsigned_value(s, base, max) matches Some(v) ==> unsigned_value(s.push(c), base, max) == if v
            * base + d <= max {
            Some(v * base + d)
        } else {
            None
        },
        s.len() > 0 && s != seq!['+'] && unsigned_value(s, base, max) is None ==> unsigned_value(
            s.push(c),
            base,
            max,
        ) is None,
{
    let one = seq![c];
    assert(is_digit(c, base));
    if s.len() > 0 && s != seq!['+'] && unsigned_value(s, base, max) is None {
        let digits = without_plus(s);
        let longer = without_plus(s.push(c));
        assert(longer =~= digits.push(c));
        assert(longer.drop_last() =~= digits);
        if s[0] == '+' && s.len() == 1 {
            assert(s =~= seq!['+']);
        }
        assert(digits.len() > 0);
        if forall|i: int| 0 <= i < digits.len() ==> is_digit(#[trigger] digits[i], base) {
            let v = digits_value(digits, base);
            assert(v * base >= v) by (nonlinear_arith)
                requires
                    base >= 2,
                    v >= 0,
            ;
        } else {
            let i = choose|i: int| 0 <= i < digits.len() && !is_digit(#[trigger] digits[i], base);
            assert(!is_digit(longer[i], base));
        }
    }
    assert(one.drop_last() =~= Seq::<char>::empty());
    assert(digits_value(one.drop_last(), base) == 0);
    assert(digits_value(one.drop_last(), base) * base == 0) by (nonlinear_arith)
        requires
            digits_value(one.drop_last(), base) == 0,
    ;
    assert(without_plus(one) == one);
    assert(forall|i: int| 0 <= i < one.len() ==> is_digit(#[trigger] one[i], base));
    if unsigned_value(s, base, max) is Some {
        let digits = without_plus(s);
        let longer = without_plus(s.push(c));
        assert(s.len() > 0);
        assert(longer =~= digits.push(c));
        assert(longer.drop_last() =~= digits);
        assert forall|i: int| 0 <= i < longer.len() implies is_digit(#[trigger] longer[i], base) by {
            if i < digits.len() {
                assert(longer[i] == digits[i]);
            }
        }
    }
}

/// A plus sign may stand before a number, and nothing else but digits in it; without a digit there is
/// no number.
pub proof fn only_digits_make_numbers(s: Seq<char>, base: nat, max: nat, k: int)
    requires
        2 <= base <= 16,
    ensures
        unsigned_value(seq![], base, max) is None,
        unsigned_value(seq!['+'], base, max) is None,
        s.len() > 0 && s[0] != '+' ==> unsigned_value(seq!['+'] + s, base, max) == unsigned_value(
            s,
            base,
            max,
        ),
        0 <= k < s.len() && (k > 0 || s[0] != '+') && (forall|d: nat|
            d < base ==> !is_figure(s[k], d)) ==> unsigned_value(s, base, max) is None,
{
    assert((seq!['+'] + s).drop_first() =~= s);
    assert(seq!['+'].drop_first() =~= Seq::<char>::empty());
    if 0 <= k < s.len() && (k > 0 || s[0] != '+') && (forall|d: nat|
        d < base ==> !is_figure(s[k], d)) {
        let digits = without_plus(s);
        let at = if s[0] == '+' {
            k - 1
        } else {
            k
        };
        assert(digits[at] == s[k]);
        if is_digit(s[k], base) {
            let d = crate::numbers::digit_value(s[k])->0;
            assert(is_figure(s[k], d));
        }
        assert(!is_digit(digits[at], base));
    }
}

/// A text is shown character by character: a line feed, a carriage return and a tab as a blank, and
/// every other character as it is.
pub proof fn shown_characters_stay(s: Seq<char>, i: int)
    requires
        0 <= i < s.len(),
    ensures
        sanitized(s).len() == s.len(),
        s[i] == '\n' || s[i] == '\r' || s[i] == '\t' ==> sanitized(s)[i] == ' ',
        s[i] != '\n' && s[i] != '\r' && s[i] != '\t' ==> sanitized(s)[i] == s[i],
{
}

/// Parts are joined in order, with the separator between any two of them.
pub proof fn parts_are_joined_in_order(parts: Seq<Seq<char>>, part: Seq<char>, separator: Seq<char>)
    ensures
        joined(seq![], separator) == Seq::<char>::empty(),
        joined(seq![part], separator) == part,
        parts.len() > 0 ==> joined(parts.push(part), separator) == joined(parts, separator)
            + separator + part,
{
    assert(parts.push(part).drop_last() =~= parts);
}

/// A list of examples names them all, and says how many were left out where any were.
pub proof fn examples_say_what_is_left_out(examples: Seq<Seq<char>>, total: nat)
    ensures
        total <= examples.len() ==> examples_text(examples, total) == joined(examples, ", "@),
        total > examples.len() && joined(examples, ", "@).len() > 0 ==> examples_text(
            examples,
            total,
        ) == joined(examples, ", "@) + ", "@ + ("... "@ + decimal((total - examples.len()) as nat)
            + " more"@),
        total > examples.len() && joined(examples, ", "@).len() == 0 ==> examples_text(
            examples,
            total,
        ) == "... "@ + decimal((total - examples.len()) as nat) + " more"@,
{
    if total > examples.len() && joined(examples, ", "@).len() == 0 {
        let rest = "... "@ + decimal((total - examples.len()) as nat) + " more"@;
        assert(joined(examples, ", "@) + rest =~= rest);
    }
}

/// Of a list of paths the first eight are shown, in order.
pub proof fn the_first_eight_paths_are_shown(paths: Seq<Seq<u8>>, i: int)
    ensures
        shown_paths(paths).len() == if paths.len() < 8 {
            paths.len()
        } else {
            8
        },
        0 <= i < shown_paths(paths).len() ==> shown_paths(paths)[i] == path_text(paths[i]),
{
}

/// Samples stand under their label, each on a line of its own; where there are more than eight in all,
/// a last line says how many more.
pub proof fn samples_stand_on_their_own_lines(
    label: Seq<char>,
    shown: Seq<Seq<char>>,
    total: nat,
    i: int,
)
    ensures
        ({
            let lines = sample_lines(label, shown, total);
            &&& lines[0] == label + ":"@
            &&& 0 <= i < shown.len() ==> lines[i + 1] == "      - "@ + shown[i]
            &&& lines.len() == shown.len() + 1 + if total > 8 {
                1nat
            } else {
                0nat
            }
            &&& total > 8 ==> lines[shown.len() as int + 1] == "      - ... "@ + decimal(
                (total - 8) as nat,
            ) + " more"@
        }),
{
}

/// A span below one second is shown in whole milliseconds, one from one minute on in minutes and
/// seconds, and any other in seconds with a tenth.
pub proof fn spans_are_shown_in_their_unit(seconds: u64, nanoseconds: u32, millis: nat, minutes: nat, rest: nat)
    requires
        nanoseconds < 1_000_000_000,
    ensures
        seconds == 0 && millis * 1_000_000 <= nanoseconds < (millis + 1) * 1_000_000
            ==> duration_text(seconds, nanoseconds) == decimal(millis) + " ms"@,
        minutes > 0 && rest < 60 && seconds == 60 * minutes + rest ==> duration_text(
            seconds,
            nanoseconds,
        ) == decimal(minutes) + " min "@ + decimal(rest) + " s"@,
        0 < seconds < 60 ==> duration_text(seconds, nanoseconds) == seconds_with_tenth(
            seconds,
            nanoseconds,
        ) + " s"@,
{
    if seconds == 0 && millis * 1_000_000 <= nanoseconds < (millis + 1) * 1_000_000 {
        assert(nanoseconds / 1_000_000 == millis);
    }
    if minutes > 0 && rest < 60 && seconds == 60 * minutes + rest {
        assert(seconds / 60 == minutes && seconds % 60 == rest);
    }
}

/// Four signals are shown by name.
pub proof fn four_signals_have_names(signal: i32)
    ensures
        signal_text(1) == "SIGHUP"@,
        signal_text(2) == "SIGINT"@,
        signal_text(3) == "SIGQUIT"@,
        signal_text(15) == "SIGTERM"@,
        signal != 1 && signal != 2 && signal != 3 && signal != 15 ==> signal_text(signal)
            == "signal"@,
{
}

/// Letters are compared without regard to their case, and only the letters of ASCII.
pub proof fn lowering_changes_only_capitals(s: Seq<char>, i: int)
    requires
        0 <= i < s.len(),
    ensures
        lower(s).len() == s.len(),
        'A' <= s[i] && s[i] <= 'Z' ==> lower(s)[i] as int == s[i] as int + 32,
        !('A' <= s[i] && s[i] <= 'Z') ==> lower(s)[i] == s[i],
{
}

/// A path is sensitive where it is below `/etc` or `/root`, goes through a directory for credentials
/// or configuration, holds a telling word anywhere, or ends as a key file does, in letters of either
/// case.
pub proof fn telling_paths_are_sensitive(text: Seq<char>, names: Seq<Seq<char>>, i: int, at: int)
    ensures
        text.len() >= 5 && lower(text).take(5) == "/etc/"@ ==> is_sensitive(text, names),
        text.len() >= 6 && lower(text).take(6) == "/root/"@ ==> is_sensitive(text, names),
        0 <= i < names.len() && (lower(names[i]) == ".aws"@ || lower(names[i]) == ".config"@
            || lower(names[i]) == ".gnupg"@ || lower(names[i]) == ".kube"@ || lower(names[i])
            == ".ssh"@) ==> is_sensitive(text, names),
        tells_at(text, at) ==> is_sensitive(text, names),
        at + 4 == text.len() && (holds_at(text, at, ".pem"@) || holds_at(text, at, ".key"@))
            ==> is_sensitive(text, names),
{
    reveal_strlit("/etc/");
    reveal_strlit("/root/");
    reveal_strlit(".pem");
    reveal_strlit(".key");
    let low = lower(text);
    if text.len() >= 5 && low.take(5) == "/etc/"@ {
        assert("/etc/"@ =~= low.subrange(0, 5));
    }
    if text.len() >= 6 && low.take(6) == "/root/"@ {
        assert("/root/"@ =~= low.subrange(0, 6));
    }
    if at + 4 == text.len() && (holds_at(text, at, ".pem"@) || holds_at(text, at, ".key"@)) {
        assert(low.subrange(at, at + 4) =~= low.subrange(low.len() - 4, low.len() as int));
    }
}

/// The text holds a word at this place, in letters of either case.
pub open spec fn holds_at(text: Seq<char>, at: int, word: Seq<char>) -> bool {
    0 <= at && at + word.len() <= text.len() && lower(text).subrange(at, at + word.len()) == word
}

/// The text holds one of the telling words at this place.
pub open spec fn tells_at(text: Seq<char>, at: int) -> bool {
    ||| holds_at(text, at, "password"@)
    ||| holds_at(text, at, "passwd"@)
    ||| holds_at(text, at, "secret"@)
    ||| holds_at(text, at, "token"@)
    ||| holds_at(text, at, "credential"@)
    ||| holds_at(text, at, "private_key"@)
}

/// Nothing else is sensitive.
pub proof fn other_paths_are_not_sensitive(text: Seq<char>, names: Seq<Seq<char>>)
    requires
        is_sensitive(text, names),
    ensures
        ({
            ||| text.len() >= 5 && lower(text).take(5) == "/etc/"@
            ||| text.len() >= 6 && lower(text).take(6) == "/root/"@
            ||| exists|i: int|
                0 <= i < names.len() && (lower(#[trigger] names[i]) == ".aws"@ || lower(names[i])
                    == ".config"@ || lower(names[i]) == ".gnupg"@ || lower(names[i]) == ".kube"@
                    || lower(names[i]) == ".ssh"@)
            ||| exists|at: int| #[trigger] tells_at(text, at)
            ||| text.len() >= 4 && (lower(text).skip(text.len() - 4) == ".pem"@ || lower(text).skip(
                text.len() - 4,
            ) == ".key"@)
        }),
{
    reveal_strlit("/etc/");
    reveal_strlit("/root/");
    reveal_strlit(".pem");
    reveal_strlit(".key");
    let low = lower(text);
    if "/etc/"@.is_prefix_of(low) {
        assert(low.take(5) =~= low.subrange(0, 5));
    } else if "/root/"@.is_prefix_of(low) {
        assert(low.take(6) =~= low.subrange(0, 6));
    } else if exists|i: int|
        0 <= i < names.len() && crate::formatting::is_sensitive_name(lower(#[trigger] names[i])) {
        let i = choose|i: int|
            0 <= i < names.len() && crate::formatting::is_sensitive_name(lower(#[trigger] names[i]));
        assert(lower(names[i]) == ".aws"@ || lower(names[i]) == ".config"@ || lower(names[i])
            == ".gnupg"@ || lower(names[i]) == ".kube"@ || lower(names[i]) == ".ssh"@);
    } else if ".pem"@.is_suffix_of(low) || ".key"@.is_suffix_of(low) {
        assert(low.skip(text.len() - 4) =~= low.subrange(low.len() - 4, low.len() as int));
    } else {
        let word = if occurs_in("password"@, low) {
            "password"@
        } else if occurs_in("passwd"@, low) {
            "passwd"@
        } else if occurs_in("secret"@, low) {
            "secret"@
        } else if occurs_in("token"@, low) {
            "token"@
        } else if occurs_in("credential"@, low) {
            "credential"@
        } else {
            "private_key"@
        };
        assert(occurs_in(word, low));
        let at = choose|at: int|
            0 <= at <= low.len() - word.len() && #[trigger] low.subrange(at, at + word.len())
                == word;
        assert(holds_at(text, at, word));
        assert(tells_at(text, at));
    }
}

/// The character needs no quotes: a letter or figure of ASCII, or one of `. _ / : = + -`.
pub open spec fn is_safe(c: char) -> bool {
    ('a' <= c && c <= 'z') || ('A' <= c && c <= 'Z') || ('0' <= c && c <= '9') || c == '.' || c
        == '_' || c == '/' || c == ':' || c == '=' || c == '+' || c == '-'
}

/// An argument is shown as it is exactly where it has characters and all of them are safe; any other
/// is shown between single quotes.
pub proof fn only_safe_arguments_go_without_quotes(s: Seq<char>)
    ensures
        ({
            let text = argument_text(s);
            if s.len() > 0 && (forall|i: int| 0 <= i < s.len() ==> is_safe(#[trigger] s[i])) {
                text == s
            } else {
                text.len() >= 2 && text[0] == '\'' && text[text.len() - 1] == '\''
            }
        }),
        (forall|i: int| 0 <= i < s.len() ==> #[trigger] s[i] != '\'') && !(s.len() > 0 && (forall|
            i: int,
        |
            0 <= i < s.len() ==> is_safe(#[trigger] s[i]))) ==> argument_text(s) == seq!['\''] + s
            + seq!['\''],
{
    if is_plain_argument(s) {
        assert forall|i: int| 0 <= i < s.len() implies is_safe(#[trigger] s[i]) by {
            assert(crate::quoting::is_plain(s[i]));
        }
    } else if s.len() > 0 {
        let i = choose|i: int| 0 <= i < s.len() && !crate::quoting::is_plain(#[trigger] s[i]);
        assert(!is_safe(s[i]));
    }
    if forall|i: int| 0 <= i < s.len() ==> #[trigger] s[i] != '\'' {
        lemma_escaped_unchanged(s);
        if !is_plain_argument(s) {
            assert(argument_text(s) =~= seq!['\''] + s + seq!['\'']);
        }
    }
}

/// Between quotes every character is written as it is, but for a quote: that one closes the quotes,
/// stands behind a backslash, and opens them again.
pub proof fn quotes_are_escaped(s: Seq<char>, c: char)
    requires
        s.len() > 0,
        exists|i: int| 0 <= i < s.len() && !is_safe(#[trigger] s[i]),
    ensures
        ({
            let before = argument_text(s);
            let inner = before.take(before.len() - 1);
            let after = argument_text(s.push(c));
            after == inner + (if c == '\'' {
                seq!['\'', '\\', '\'', '\'']
            } else {
                seq![c]
            }) + seq!['\'']
        }),
{
    let i = choose|i: int| 0 <= i < s.len() && !is_safe(#[trigger] s[i]);
    let longer = s.push(c);
    assert(longer[i] == s[i]);
    assert(!crate::quoting::is_plain(s[i]) && !crate::quoting::is_plain(longer[i]));
    assert(!is_plain_argument(s) && !is_plain_argument(longer));
    assert(longer.drop_last() =~= s);
    let before = argument_text(s);
    let inner = before.take(before.len() - 1);
    assert(inner =~= seq!['\''] + escaped(s));
    assert(argument_text(longer) =~= inner + (if c == '\'' {
        seq!['\'', '\\', '\'', '\'']
    } else {
        seq![c]
    }) + seq!['\'']);
}

proof fn lemma_escaped_unchanged(s: Seq<char>)
    requires
        forall|i: int| 0 <= i < s.len() ==> #[trigger] s[i] != '\'',
    ensures
        escaped(s) == s,
    decreases s.len(),
{
    if s.len() > 0 {
        let front = s.drop_last();
        assert forall|i: int| 0 <= i < front.len() implies #[trigger] front[i] != '\'' by {
            assert(front[i] == s[i]);
        }
        lemma_escaped_unchanged(front);
        assert(s[s.len() - 1] == s.last());
        assert(escaped(s) =~= s);
    } else {
        assert(escaped(s) =~= s);
    }
}

/// The arguments of a command stand side by side in order, with one blank between any two.
pub proof fn arguments_stand_in_order(arguments: Seq<Seq<char>>, last: Seq<char>)
    ensures
        command_text(seq![]) == Seq::<char>::empty(),
        command_text(seq![last]) == argument_text(last),
        arguments.len() > 0 ==> command_text(arguments.push(last)) == command_text(arguments) + " "@
            + argument_text(last),
{
    let f = |s: Seq<char>| argument_text(s);
    assert(Seq::<Seq<char>>::empty().map_values(f) =~= Seq::<Seq<char>>::empty());
    assert(seq![last].map_values(f) =~= seq![argument_text(last)]);
    assert(arguments.push(last).map_values(f) =~= arguments.map_values(f).push(argument_text(last)));
    parts_are_joined_in_order(arguments.map_values(f), argument_text(last), " "@);
}

proof fn lemma_pieces_split(a: Seq<u8>, b: Seq<u8>)
    ensures
        inner_components(a.push(47u8) + b) == inner_components(a) + inner_components(b),
    decreases a.len(),
{
    let p = a.push(47u8) + b;
    let n = piece_length(a) as int;
    lemma_piece_end(a);
    assert forall|k: int| 0 <= k < n implies #[trigger] p[k] != 47 by {
        assert(p[k] == a[k]);
    }
    assert(n < a.len() ==> p[n] == a[n]);
    assert(n == a.len() ==> p[n] == 47);
    lemma_piece_length(p, n);
    if n >= a.len() {
        assert(p.take(n) =~= a);
        assert(p.skip(n + 1) =~= b);
    } else {
        lemma_pieces_split(a.skip(n + 1), b);
        assert(p.take(n) =~= a.take(n));
        assert(p.skip(n + 1) =~= a.skip(n + 1).push(47u8) + b);
        assert(inner_components(p) =~= piece_components(a.take(n)) + (inner_components(
            a.skip(n + 1),
        ) + inner_components(b)));
        assert(inner_components(a) + inner_components(b) =~= piece_components(a.take(n)) + (
        inner_components(a.skip(n + 1)) + inner_components(b)));
    }
}

proof fn lemma_piece_end(p: Seq<u8>)
    ensures
        piece_length(p) <= p.len(),
        forall|k: int| 0 <= k < piece_length(p) ==> #[trigger] p[k] != 47,
        piece_length(p) < p.len() ==> p[piece_length(p) as int] == 47,
    decreases p.len(),
{
    if p.len() > 0 && p[0] != 47 {
        let rest = p.drop_first();
        lemma_piece_end(rest);
        assert forall|k: int| 0 <= k < piece_length(p) implies #[trigger] p[k] != 47 by {
            if k > 0 {
                assert(p[k] == rest[k - 1]);
            }
        }
    }
}

/// A name without a slash is one component: itself, unless it is empty or a single dot, which are
/// none, or two dots, which lead up.
pub proof fn names_are_components(name: Seq<u8>)
    requires
        forall|k: int| 0 <= k < name.len() ==> #[trigger] name[k] != 47,
    ensures
        inner_components(name) == if name.len() == 0 || (name.len() == 1 && name[0] == 46) {
            seq![]
        } else if name.len() == 2 && name[0] == 46 && name[1] == 46 {
            seq![ComponentModel::ParentDir]
        } else {
            seq![ComponentModel::Normal(name)]
        },
        components(seq![47u8] + name) == seq![ComponentModel::RootDir] + inner_components(name),
        name.len() > 0 && name[0] != 46 ==> components(name) == seq![ComponentModel::Normal(name)],
        name.len() == 0 ==> components(name) == Seq::<ComponentModel>::empty(),
        components(seq![46u8]) == seq![ComponentModel::CurDir],
{
    lemma_piece_length(name, name.len() as int);
    if name.len() == 1 && name[0] == 46 {
        assert(name =~= seq![46u8]);
    }
    if name.len() == 2 && name[0] == 46 && name[1] == 46 {
        assert(name =~= seq![46u8, 46u8]);
    }
    let rooted = seq![47u8] + name;
    let none = Seq::<u8>::empty();
    lemma_pieces_split(none, name);
    assert(none.push(47u8) + name =~= rooted);
    lemma_piece_length(none, 0);
    assert(inner_components(none) =~= Seq::<ComponentModel>::empty());
    assert(inner_components(rooted) =~= inner_components(name));
    if name.len() > 0 && name[0] != 46 {
        assert(components(name) =~= seq![ComponentModel::Normal(name)]);
    }
    if name.len() == 0 {
        assert(components(name) =~= Seq::<ComponentModel>::empty());
    }
    lemma_piece_length(seq![46u8], 1);
    assert(components(seq![46u8]) =~= seq![ComponentModel::CurDir]);
}

/// What stands behind a slash is appended, component by component, to what stands before it; so a path
/// made of a directory, a slash and more lies below that directory.
pub proof fn slashes_lead_down(base: Seq<u8>, rest: Seq<u8>)
    requires
        base.len() > 0,
    ensures
        components(base.push(47u8) + rest) == components(base) + inner_components(rest),
        lies_below(base.push(47u8) + rest, base),
{
    let p = base.push(47u8) + rest;
    lemma_pieces_split(base, rest);
    assert(p[0] == base[0]);
    assert(base.len() == 1 ==> p[1] == 47);
    assert(base.len() > 1 ==> p[1] == base[1]);
    assert(components(p) =~= components(base) + inner_components(rest));
    assert(components(base) =~= components(p).subrange(0, components(base).len() as int));
}

/// One path lies below another exactly where it begins with all components of the other; paths are
/// one and the same where they have the same components.
pub proof fn components_decide_on_paths(path: Seq<u8>, base: Seq<u8>)
    ensures
        lies_below(path, base) <==> components(base).len() <= components(path).len() && forall|
            i: int,
        |
            0 <= i < components(base).len() ==> #[trigger] components(base)[i] == components(
                path,
            )[i],
        path_rank(path) == path_rank(base) <==> components(path) == components(base),
{
    let p = components(path);
    let b = components(base);
    if b.len() <= p.len() && (forall|i: int| 0 <= i < b.len() ==> #[trigger] b[i] == p[i]) {
        assert(b =~= p.subrange(0, b.len() as int));
    }
    if lies_below(path, base) {
        assert forall|i: int| 0 <= i < b.len() implies #[trigger] b[i] == p[i] by {
            assert(b[i] == p.subrange(0, b.len() as int)[i]);
        }
    }
    if path_rank(path) == path_rank(base) {
        assert(path_rank(path).len() == p.len() && path_rank(base).len() == b.len());
        assert forall|i: int| 0 <= i < p.len() implies p[i] == b[i] by {
            assert(path_rank(path)[i] == path_rank(base)[i]);
            lemma_component_rank(p[i], b[i]);
        }
        assert(p =~= b);
    }
}

} // verus!
