//! The command line of a report, quoted so that the bounds of every argument stay visible.

use vstd::prelude::*;

use crate::formatting::{join, joined};
use crate::text::{chars_of, decode_lossy, nested, texts, utf8_lossy};

verus! {

/// A character that needs no quotes.
pub open spec fn is_plain(c: char) -> bool {
    ||| 'a' <= c && c <= 'z'
    ||| 'A' <= c && c <= 'Z'
    ||| '0' <= c && c <= '9'
    ||| c == '.'
    ||| c == '_'
    ||| c == '/'
    ||| c == ':'
    ||| c == '='
    ||| c == '+'
    ||| c == '-'
}

/// Whether a character needs no quotes.
fn is_plain_char(c: char) -> (plain: bool)
    ensures
        plain == is_plain(c),
{
    ('a' <= c && c <= 'z') || ('A' <= c && c <= 'Z') || ('0' <= c && c <= '9') || c == '.' || c
        == '_' || c == '/' || c == ':' || c == '=' || c == '+' || c == '-'
}

/// An argument that needs no quotes.
pub open spec fn is_plain_argument(s: Seq<char>) -> bool {
    s.len() > 0 && forall|i: int| 0 <= i < s.len() ==> is_plain(#[trigger] s[i])
}

/// A text for use between single quotes: each single quote closes the quotes, stands escaped, and
/// opens them again.
pub open spec fn escaped(s: Seq<char>) -> Seq<char>
    decreases s.len(),
{
    if s.len() == 0 {
        seq![]
    } else if s.last() == '\'' {
        escaped(s.drop_last()).push('\'').push('\\').push('\'').push('\'')
    } else {
        escaped(s.drop_last()).push(s.last())
    }
}

/// An argument as the report shows it.
pub open spec fn argument_text(s: Seq<char>) -> Seq<char> {
    if is_plain_argument(s) {
        s
    } else {
        (seq!['\''] + escaped(s)).push('\'')
    }
}

/// A command line as the report shows it.
pub open spec fn command_text(arguments: Seq<Seq<char>>) -> Seq<char> {
    joined(arguments.map_values(|s: Seq<char>| argument_text(s)), " "@)
}

/// Quotes the text of an argument where it needs quotes.
pub fn format_argument_text(argument: &str) -> (text: String)
    ensures
        text@ == argument_text(argument@),
{
    let chars = chars_of(argument);
    let mut plain = chars.len() > 0;
    for i in 0..chars.len()
        invariant
            plain ==> chars@.len() > 0 && forall|k: int| 0 <= k < i ==> is_plain(#[trigger] chars@[k]),
            !plain ==> chars@.len() == 0 || exists|k: int| 0 <= k < i && !is_plain(#[trigger] chars@[k]),
    {
        if !is_plain_char(chars[i]) {
            assert(!is_plain(chars@[i as int]));
            plain = false;
        }
    }
    if plain {
        return argument.to_owned();
    }
    let mut text = String::new();
    text.push('\'');
    assert(text@ =~= seq!['\''] + escaped(chars@.take(0)));
    for i in 0..chars.len()
        invariant
            text@ =~= seq!['\''] + escaped(chars@.take(i as int)),
    {
        let c = chars[i];
        assert(chars@.take(i + 1).drop_last() =~= chars@.take(i as int));
        if c == '\'' {
            text.push('\'');
            text.push('\\');
            text.push('\'');
            text.push('\'');
        } else {
            text.push(c);
        }
    }
    assert(chars@.take(chars@.len() as int) =~= chars@);
    text.push('\'');
    text
}

/// Quotes an argument where it needs quotes.
pub fn format_argument(argument: &[u8]) -> (text: String)
    ensures
        text@ == argument_text(utf8_lossy(argument@)),
{
    let text = decode_lossy(argument);
    format_argument_text(text.as_str())
}

/// Writes a command line from the texts of its arguments.
pub fn format_command_texts(arguments: &Vec<String>) -> (text: String)
    ensures
        text@ == command_text(texts(arguments@)),
{
    let mut parts: Vec<String> = Vec::new();
    let ghost all = texts(arguments@).map_values(|s: Seq<char>| argument_text(s));
    for i in 0..arguments.len()
        invariant
            all == texts(arguments@).map_values(|s: Seq<char>| argument_text(s)),
            texts(parts@) =~= all.take(i as int),
    {
        let ghost before = texts(parts@);
        let part = format_argument_text(arguments[i].as_str());
        assert(texts(arguments@)[i as int] == arguments@[i as int]@);
        assert(part@ == all[i as int]);
        parts.push(part);
        assert(texts(parts@) =~= before.push(all[i as int]));
        assert(all.take(i + 1) =~= all.take(i as int).push(all[i as int]));
    }
    assert(all.take(arguments@.len() as int) =~= all);
    join(&parts, " ")
}

/// The texts of raw arguments.
pub open spec fn argument_texts(arguments: Seq<Seq<u8>>) -> Seq<Seq<char>> {
    arguments.map_values(|a: Seq<u8>| utf8_lossy(a))
}

/// Writes a command line from its raw arguments.
pub fn format_command(arguments: &Vec<Vec<u8>>) -> (text: String)
    ensures
        text@ == command_text(argument_texts(nested(arguments@))),
{
    let mut decoded: Vec<String> = Vec::new();
    let ghost all = argument_texts(nested(arguments@));
    for i in 0..arguments.len()
        invariant
            all == argument_texts(nested(arguments@)),
            texts(decoded@) =~= all.take(i as int),
    {
        let ghost before = texts(decoded@);
        let text = decode_lossy(arguments[i].as_slice());
        assert(nested(arguments@)[i as int] == arguments@[i as int]@);
        assert(text@ == all[i as int]);
        decoded.push(text);
        assert(texts(decoded@) =~= before.push(all[i as int]));
        assert(all.take(i + 1) =~= all.take(i as int).push(all[i as int]));
    }
    assert(all.take(arguments@.len() as int) =~= all);
    format_command_texts(&decoded)
}

/// A shell in the middle of reading a command line.
pub struct ShellState {
    /// The words read so far.
    pub words: Seq<Seq<char>>,
    /// The word being read, if one has begun.
    pub word: Option<Seq<char>>,
    /// Single quotes are open.
    pub quoted: bool,
    /// The next character stands for itself.
    pub escaped: bool,
}

/// What the shell makes of one more character: blanks part words, single quotes hold everything
/// up to the next one together, and a backslash outside of quotes takes the next character as it
/// is.
pub open spec fn shell_step(state: ShellState, c: char) -> ShellState {
    let word = state.word.unwrap_or(seq![]);
    if state.quoted {
        if c == '\'' {
            ShellState { quoted: false, ..state }
        } else {
            ShellState { word: Some(word.push(c)), ..state }
        }
    } else if state.escaped {
        ShellState { word: Some(word.push(c)), escaped: false, ..state }
    } else if c == ' ' {
        match state.word {
            Some(w) => ShellState { words: state.words.push(w), word: None, ..state },
            None => state,
        }
    } else if c == '\'' {
        ShellState { word: Some(word), quoted: true, ..state }
    } else if c == '\\' {
        ShellState { word: Some(word), escaped: true, ..state }
    } else {
        ShellState { word: Some(word.push(c)), ..state }
    }
}

/// What the shell makes of a text.
pub open spec fn shell_run(state: ShellState, s: Seq<char>) -> ShellState
    decreases s.len(),
{
    if s.len() == 0 {
        state
    } else {
        shell_step(shell_run(state, s.drop_last()), s.last())
    }
}

/// The words that a shell reads in a command line.
pub open spec fn shell_words(s: Seq<char>) -> Seq<Seq<char>> {
    let end = shell_run(
        ShellState { words: seq![], word: None, quoted: false, escaped: false },
        s,
    );
    match end.word {
        Some(w) => end.words.push(w),
        None => end.words,
    }
}

/// A text is read piece by piece.
proof fn lemma_shell_run_parts(state: ShellState, a: Seq<char>, b: Seq<char>)
    ensures
        shell_run(state, a + b) == shell_run(shell_run(state, a), b),
    decreases b.len(),
{
    if b.len() == 0 {
        assert(a + b =~= a);
    } else {
        assert((a + b).drop_last() =~= a + b.drop_last());
        lemma_shell_run_parts(state, a, b.drop_last());
    }
}

/// Plain characters make up a word.
proof fn lemma_shell_reads_plain(state: ShellState, s: Seq<char>)
    requires
        is_plain_argument(s),
        state.word is None,
        !state.quoted,
        !state.escaped,
    ensures
        shell_run(state, s) == (ShellState { word: Some(s), ..state }),
    decreases s.len(),
{
    let front = s.drop_last();
    assert(is_plain(s.last()));
    assert(s =~= front.push(s.last()));
    if front.len() > 0 {
        assert forall|i: int| 0 <= i < front.len() implies is_plain(#[trigger] front[i]) by {
            assert(front[i] == s[i]);
        }
        lemma_shell_reads_plain(state, front);
    } else {
        assert(front =~= Seq::<char>::empty());
        assert(shell_run(state, front) == state);
    }
}

/// Between single quotes an escaped text adds itself to the word.
proof fn lemma_shell_reads_escaped(state: ShellState, word: Seq<char>, s: Seq<char>)
    requires
        state.word == Some(word),
        state.quoted,
        !state.escaped,
    ensures
        shell_run(state, escaped(s)) == (ShellState { word: Some(word + s), ..state }),
    decreases s.len(),
{
    if s.len() == 0 {
        assert(word + s =~= word);
    } else {
        let front = s.drop_last();
        lemma_shell_reads_escaped(state, word, front);
        let done = escaped(front);
        assert(word + s =~= (word + front).push(s.last()));
        if s.last() == '\'' {
            let one = done.push('\'');
            let two = one.push('\\');
            let three = two.push('\'');
            let four = three.push('\'');
            assert(one.drop_last() =~= done);
            assert(two.drop_last() =~= one);
            assert(three.drop_last() =~= two);
            assert(four.drop_last() =~= three);
            assert(shell_run(state, one) == shell_step(shell_run(state, done), '\''));
            assert(shell_run(state, two) == shell_step(shell_run(state, one), '\\'));
            assert(shell_run(state, three) == shell_step(shell_run(state, two), '\''));
            assert(shell_run(state, four) == shell_step(shell_run(state, three), '\''));
        } else {
            assert(done.push(s.last()).drop_last() =~= done);
        }
    }
}

/// A shell reads a quoted argument as the argument.
proof fn lemma_shell_reads_argument(state: ShellState, s: Seq<char>)
    requires
        state.word is None,
        !state.quoted,
        !state.escaped,
    ensures
        shell_run(state, argument_text(s)) == (ShellState { word: Some(s), ..state }),
{
    if is_plain_argument(s) {
        lemma_shell_reads_plain(state, s);
    } else {
        let open = seq!['\''];
        let body = open + escaped(s);
        assert(open.drop_last() =~= Seq::<char>::empty());
        let opened = shell_run(state, open);
        assert(shell_run(state, open.drop_last()) == state);
        assert(opened == (ShellState { word: Some(Seq::<char>::empty()), quoted: true, ..state }));
        lemma_shell_run_parts(state, open, escaped(s));
        lemma_shell_reads_escaped(opened, Seq::<char>::empty(), s);
        assert(Seq::<char>::empty() + s =~= s);
        assert(body.push('\'').drop_last() =~= body);
    }
}

/// Reading a command line up to its last argument.
proof fn lemma_shell_reads_command(state: ShellState, arguments: Seq<Seq<char>>)
    requires
        arguments.len() > 0,
        state == (ShellState { words: seq![], word: None, quoted: false, escaped: false }),
    ensures
        shell_run(state, command_text(arguments)) == (ShellState {
            words: arguments.drop_last(),
            word: Some(arguments.last()),
            ..state
        }),
    decreases arguments.len(),
{
    let parts = arguments.map_values(|s: Seq<char>| argument_text(s));
    if arguments.len() == 1 {
        lemma_shell_reads_argument(state, arguments[0]);
        assert(arguments.drop_last() =~= Seq::<Seq<char>>::empty());
    } else {
        let front = arguments.drop_last();
        lemma_shell_reads_command(state, front);
        assert(parts.drop_last() =~= front.map_values(|s: Seq<char>| argument_text(s)));
        let read = command_text(front);
        let last = argument_text(arguments.last());
        assert(parts.last() == last);
        let blank = " "@;
        reveal_strlit(" ");
        assert(blank =~= seq![' ']);
        assert(command_text(arguments) == read + blank + last);
        lemma_shell_run_parts(state, read + blank, last);
        lemma_shell_run_parts(state, read, blank);
        let middle = shell_run(state, read);
        assert(blank.drop_last() =~= Seq::<char>::empty());
        assert(shell_run(middle, blank.drop_last()) == middle);
        let next = shell_run(middle, blank);
        assert(next.words =~= front) by {
            assert(front.drop_last().push(front.last()) =~= front);
        }
        assert(next == (ShellState { words: front, word: None, ..state }));
        lemma_shell_reads_argument(next, arguments.last());
    }
}

/// A shell reads the command line of a report as the arguments that it was made from, so that the
/// bounds of every argument are visible in it.
pub proof fn command_line_keeps_argument_bounds(arguments: Seq<Seq<char>>)
    ensures
        shell_words(command_text(arguments)) == arguments,
{
    let start = ShellState { words: seq![], word: None, quoted: false, escaped: false };
    if arguments.len() == 0 {
        let parts = arguments.map_values(|s: Seq<char>| argument_text(s));
        assert(parts.len() == 0);
        assert(command_text(arguments) =~= Seq::<char>::empty());
        assert(shell_words(command_text(arguments)) =~= arguments);
    } else {
        lemma_shell_reads_command(start, arguments);
        assert(arguments.drop_last().push(arguments.last()) =~= arguments);
    }
}

/// Different argument lists never share a command line.
pub proof fn command_lines_tell_arguments_apart(a: Seq<Seq<char>>, b: Seq<Seq<char>>)
    requires
        command_text(a) == command_text(b),
    ensures
        a == b,
{
    command_line_keeps_argument_bounds(a);
    command_line_keeps_argument_bounds(b);
}

} // verus!
