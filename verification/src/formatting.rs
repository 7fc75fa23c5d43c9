//! The pieces of text that a report is made of.

use vstd::prelude::*;

use crate::numbers::{decimal, push_decimal};
use crate::output::ReportText;
use crate::paths::{component_models, components, split_components, Component, ComponentModel};
use crate::text::{
    begins_with, chars_of, decode_lossy, ends_in, holds, is_word, lower, nested, occurs_in, texts,
    to_lower, utf8_lossy,
};

verus! {

/// How many items of a list a report shows one by one.
pub const MAX_DETAIL_ITEMS: usize = 8;

/// A character as a report shows it: on one line.
pub open spec fn sanitized_char(c: char) -> char {
    if c == '\n' || c == '\r' || c == '\t' {
        ' '
    } else {
        c
    }
}

/// A text as a report shows it: line breaks and tabs are spaces.
pub open spec fn sanitized(s: Seq<char>) -> Seq<char> {
    s.map_values(|c: char| sanitized_char(c))
}

/// Replaces line breaks and tabs by spaces.
pub fn sanitize_process_text(text: &str) -> (clean: String)
    ensures
        clean@ == sanitized(text@),
{
    let chars = chars_of(text);
    let mut clean = String::new();
    for i in 0..chars.len()
        invariant
            chars@ == text@,
            clean@ == sanitized(text@.take(i as int)),
    {
        let c = chars[i];
        if c == '\n' || c == '\r' || c == '\t' {
            clean.push(' ');
        } else {
            clean.push(c);
        }
        assert(sanitized(text@.take(i + 1)) =~= sanitized(text@.take(i as int)).push(
            sanitized_char(text@[i as int]),
        ));
    }
    assert(text@.take(text@.len() as int) =~= text@);
    clean
}

/// The text holds no line break and no tab.
pub open spec fn is_one_line(s: Seq<char>) -> bool {
    forall|i: int| 0 <= i < s.len() ==> #[trigger] s[i] != '\n' && s[i] != '\r' && s[i] != '\t'
}

/// A text that a report shows stays on one line, keeps its length, and is not changed by being shown
/// again.
pub proof fn shown_text_stays_on_one_line(s: Seq<char>)
    ensures
        sanitized(s).len() == s.len(),
        is_one_line(sanitized(s)),
        sanitized(sanitized(s)) == sanitized(s),
{
    assert(sanitized(sanitized(s)) =~= sanitized(s));
}

/// The parts one after the other with `separator` between them.
pub open spec fn joined(parts: Seq<Seq<char>>, separator: Seq<char>) -> Seq<char>
    decreases parts.len(),
{
    if parts.len() == 0 {
        seq![]
    } else if parts.len() == 1 {
        parts[0]
    } else {
        joined(parts.drop_last(), separator) + separator + parts.last()
    }
}

/// Joins the parts with `separator` between them.
pub fn join(parts: &Vec<String>, separator: &str) -> (text: String)
    ensures
        text@ == joined(texts(parts@), separator@),
{
    let mut text = String::new();
    let ghost all = texts(parts@);
    for i in 0..parts.len()
        invariant
            all == texts(parts@),
            text@ == joined(all.take(i as int), separator@),
    {
        assert(all[i as int] == parts@[i as int]@);
        assert(all.take(i + 1).drop_last() =~= all.take(i as int));
        if i > 0 {
            text.append(separator);
        }
        text.append(parts[i].as_str());
        assert(i == 0 ==> Seq::<char>::empty() + all[0] =~= all[0]);
    }
    assert(all.take(parts@.len() as int) =~= all);
    text
}

/// The examples in a row, and how many of `total` they leave out.
pub open spec fn examples_text(examples: Seq<Seq<char>>, total: nat) -> Seq<char> {
    let listed = joined(examples, ", "@);
    if examples.len() < total {
        let front = if listed.len() == 0 {
            listed
        } else {
            listed + ", "@
        };
        front + ("... "@ + decimal((total - examples.len()) as nat) + " more"@)
    } else {
        listed
    }
}

/// Lists the examples, and says how many of `total` they leave out.
pub fn format_examples(examples: &Vec<String>, total: usize) -> (text: String)
    ensures
        text@ == examples_text(texts(examples@), total as nat),
{
    let mut result = join(examples, ", ");
    if examples.len() < total {
        if !result.as_str().is_empty() {
            result.append(", ");
        }
        let mut rest = "... ".to_owned();
        push_decimal(&mut rest, (total - examples.len()) as u64);
        rest.append(" more");
        result.append(rest.as_str());
    }
    result
}

/// The text of a path as a report shows it.
pub open spec fn path_text(path: Seq<u8>) -> Seq<char> {
    sanitized(utf8_lossy(path))
}

/// The texts of the paths that a report shows one by one.
pub open spec fn shown_paths(paths: Seq<Seq<u8>>) -> Seq<Seq<char>> {
    let shown = if paths.len() < MAX_DETAIL_ITEMS {
        paths
    } else {
        paths.take(MAX_DETAIL_ITEMS as int)
    };
    shown.map_values(|path: Seq<u8>| path_text(path))
}

/// The texts of the first paths.
pub fn path_texts(paths: &Vec<Vec<u8>>) -> (shown: Vec<String>)
    ensures
        texts(shown@) == shown_paths(nested(paths@)),
{
    let mut shown: Vec<String> = Vec::new();
    let ghost all = shown_paths(nested(paths@));
    let mut i: usize = 0;
    while i < paths.len() && i < MAX_DETAIL_ITEMS
        invariant
            all == shown_paths(nested(paths@)),
            i <= paths@.len(),
            i <= MAX_DETAIL_ITEMS,
            texts(shown@) =~= all.take(i as int),
        decreases paths@.len() - i,
    {
        let ghost before = texts(shown@);
        let text = decode_lossy(paths[i].as_slice());
        let clean = sanitize_process_text(text.as_str());
        assert(nested(paths@)[i as int] == paths@[i as int]@);
        assert(all[i as int] == clean@);
        shown.push(clean);
        assert(texts(shown@) =~= before.push(all[i as int]));
        assert(all.take(i + 1) =~= all.take(i as int).push(all[i as int]));
        i += 1;
    }
    assert(all.take(i as int) =~= all);
    shown
}

/// Lists the first paths, and says how many more there are.
pub fn format_path_examples(paths: &Vec<Vec<u8>>) -> (text: String)
    ensures
        text@ == examples_text(shown_paths(nested(paths@)), paths@.len()),
{
    let examples = path_texts(paths);
    format_examples(&examples, paths.len())
}

/// The lines that show some of `total` texts under a label.
pub open spec fn sample_lines(label: Seq<char>, shown: Seq<Seq<char>>, total: nat) -> Seq<Seq<char>> {
    let heading = seq![label + ":"@];
    let samples = shown.map_values(|text: Seq<char>| "      - "@ + text);
    let rest = if total > MAX_DETAIL_ITEMS {
        seq!["      - ... "@ + decimal((total - MAX_DETAIL_ITEMS) as nat) + " more"@]
    } else {
        seq![]
    };
    heading + samples + rest
}

/// Adds the lines that show some of `total` texts under a label.
pub fn print_samples(label: &str, shown: &Vec<String>, total: usize, report: &mut ReportText)
    ensures
        final(report)@ == old(report)@ + sample_lines(label@, texts(shown@), total as nat),
{
    let ghost before = report@;
    let mut heading = label.to_owned();
    heading.append(":");
    report.push(heading);
    let ghost start = report@;
    let ghost samples = texts(shown@).map_values(|text: Seq<char>| "      - "@ + text);
    for i in 0..shown.len()
        invariant
            samples == texts(shown@).map_values(|text: Seq<char>| "      - "@ + text),
            report@ =~= start + samples.take(i as int),
    {
        let mut line = "      - ".to_owned();
        line.append(shown[i].as_str());
        assert(texts(shown@)[i as int] == shown@[i as int]@);
        assert(line@ == samples[i as int]);
        assert(samples.take(i + 1) =~= samples.take(i as int).push(samples[i as int]));
        report.push(line);
    }
    assert(samples.take(shown@.len() as int) =~= samples);
    if total > MAX_DETAIL_ITEMS {
        let mut line = "      - ... ".to_owned();
        push_decimal(&mut line, (total - MAX_DETAIL_ITEMS) as u64);
        line.append(" more");
        report.push(line);
    }
    assert(report@ =~= before + sample_lines(label@, texts(shown@), total as nat));
}

/// Adds the lines that show the first paths under a label.
pub fn print_path_samples(label: &str, paths: &Vec<Vec<u8>>, report: &mut ReportText)
    ensures
        final(report)@ == old(report)@ + sample_lines(
            label@,
            shown_paths(nested(paths@)),
            paths@.len(),
        ),
{
    let shown = path_texts(paths);
    print_samples(label, &shown, paths.len(), report);
}

/// A directory name that stands for credentials or configuration.
pub open spec fn is_sensitive_name(name: Seq<char>) -> bool {
    ||| name == ".aws"@
    ||| name == ".config"@
    ||| name == ".gnupg"@
    ||| name == ".kube"@
    ||| name == ".ssh"@
}

/// A path is sensitive by its text, or by one of its components.
pub open spec fn is_sensitive(text: Seq<char>, names: Seq<Seq<char>>) -> bool {
    let low = lower(text);
    ||| "/etc/"@.is_prefix_of(low)
    ||| "/root/"@.is_prefix_of(low)
    ||| exists|i: int| 0 <= i < names.len() && is_sensitive_name(lower(#[trigger] names[i]))
    ||| occurs_in("password"@, low)
    ||| occurs_in("passwd"@, low)
    ||| occurs_in("secret"@, low)
    ||| occurs_in("token"@, low)
    ||| occurs_in("credential"@, low)
    ||| occurs_in("private_key"@, low)
    ||| ".pem"@.is_suffix_of(low)
    ||| ".key"@.is_suffix_of(low)
}

/// Whether a path is sensitive, given its text and the texts of its components.
pub fn is_sensitive_text(text: &str, names: &Vec<String>) -> (sensitive: bool)
    ensures
        sensitive == is_sensitive(text@, texts(names@)),
{
    let low_text = to_lower(chars_of(text).as_slice());
    let low = low_text.as_slice();
    if begins_with(low, "/etc/") || begins_with(low, "/root/") {
        return true;
    }
    for i in 0..names.len()
        invariant
            forall|k: int|
                0 <= k < i ==> !is_sensitive_name(lower(#[trigger] texts(names@)[k])),
    {
        let name_text = to_lower(chars_of(names[i].as_str()).as_slice());
        let name = name_text.as_slice();
        assert(texts(names@)[i as int] == names@[i as int]@);
        if is_word(name, ".aws") || is_word(name, ".config") || is_word(name, ".gnupg") || is_word(
            name,
            ".kube",
        ) || is_word(name, ".ssh") {
            return true;
        }
    }
    holds(low, "password") || holds(low, "passwd") || holds(low, "secret") || holds(low, "token")
        || holds(low, "credential") || holds(low, "private_key") || ends_in(low, ".pem") || ends_in(
        low,
        ".key",
    )
}

/// The text of a component.
pub open spec fn component_text(c: ComponentModel) -> Seq<char> {
    match c {
        ComponentModel::RootDir => "/"@,
        ComponentModel::CurDir => "."@,
        ComponentModel::ParentDir => ".."@,
        ComponentModel::Normal(name) => utf8_lossy(name),
    }
}

/// The texts of the components of a path.
pub open spec fn component_texts(path: Seq<u8>) -> Seq<Seq<char>> {
    components(path).map_values(|c: ComponentModel| component_text(c))
}

/// The path points at credentials, keys or configuration.
pub open spec fn is_sensitive_file(path: Seq<u8>) -> bool {
    is_sensitive(utf8_lossy(path), component_texts(path))
}

/// Whether a path points at credentials, keys or configuration.
pub fn is_sensitive_path(path: &[u8]) -> (sensitive: bool)
    ensures
        sensitive == is_sensitive_file(path@),
{
    let text = decode_lossy(path);
    let parts = split_components(path);
    let mut names: Vec<String> = Vec::new();
    let ghost all = component_texts(path@);
    for i in 0..parts.len()
        invariant
            all == component_texts(path@),
            component_models(parts@) == components(path@),
            texts(names@) =~= all.take(i as int),
    {
        let ghost before = texts(names@);
        assert(components(path@)[i as int] == component_models(parts@)[i as int]);
        let name = match &parts[i] {
            Component::RootDir => "/".to_owned(),
            Component::CurDir => ".".to_owned(),
            Component::ParentDir => "..".to_owned(),
            Component::Normal(bytes) => decode_lossy(bytes.as_slice()),
        };
        assert(name@ == all[i as int]);
        names.push(name);
        assert(texts(names@) =~= before.push(all[i as int]));
        assert(all.take(i + 1) =~= all.take(i as int).push(all[i as int]));
    }
    assert(all.take(parts@.len() as int) =~= all);
    is_sensitive_text(text.as_str(), &names)
}

/// The word for one thing or for several.
pub fn pluralize<'a>(count: usize, singular: &'a str, plural: &'a str) -> (word: &'a str)
    ensures
        word@ == if count == 1 {
            singular@
        } else {
            plural@
        },
{
    if count == 1 {
        singular
    } else {
        plural
    }
}

/// The text of a span below one minute, in seconds with one decimal, as floating-point formatting
/// rounds it.
pub uninterp spec fn seconds_with_tenth(seconds: u64, nanoseconds: u32) -> Seq<char>;

/// `tenths` is a nearest number of tenths of a second to a span.
pub open spec fn is_nearest_tenth(seconds: u64, nanoseconds: u32, tenths: nat) -> bool {
    let span = seconds * 1_000_000_000 + nanoseconds;
    -50_000_000 <= tenths * 100_000_000 - span <= 50_000_000
}

/// The text says a nearest number of tenths of a second to a span.
pub open spec fn tells_nearest_tenth(seconds: u64, nanoseconds: u32, text: Seq<char>) -> bool {
    exists|tenths: nat| #[trigger]
        is_nearest_tenth(seconds, nanoseconds, tenths) && text == decimal(tenths / 10) + "."@
            + decimal(tenths % 10)
}

/// Calls `Duration::as_secs_f64` and formats its result with one decimal. The text is a nearest
/// number of tenths of a second; which of two equally near ones is left to the name
/// [`seconds_with_tenth`].
#[verifier::external_body]
fn format_seconds(seconds: u64, nanoseconds: u32) -> (text: String)
    requires
        seconds < 60,
        nanoseconds < 1_000_000_000,
    ensures
        text@ == seconds_with_tenth(seconds, nanoseconds),
        tells_nearest_tenth(seconds, nanoseconds, text@),
{
    format!("{:.1}", std::time::Duration::new(seconds, nanoseconds).as_secs_f64())
}

/// The text of a span of time: milliseconds below one second, seconds with one decimal below one
/// minute, and minutes and seconds from there on.
pub open spec fn duration_text(seconds: u64, nanoseconds: u32) -> Seq<char> {
    if seconds == 0 {
        decimal((nanoseconds / 1_000_000) as nat) + " ms"@
    } else if seconds < 60 {
        seconds_with_tenth(seconds, nanoseconds) + " s"@
    } else {
        decimal((seconds / 60) as nat) + " min "@ + decimal((seconds % 60) as nat) + " s"@
    }
}

/// Writes a span of time.
pub fn format_duration(seconds: u64, nanoseconds: u32) -> (text: String)
    requires
        nanoseconds < 1_000_000_000,
    ensures
        text@ == duration_text(seconds, nanoseconds),
        0 < seconds < 60 ==> tells_nearest_tenth(
            seconds,
            nanoseconds,
            text@.take(text@.len() - 2),
        ),
{
    if seconds == 0 {
        let mut text = String::new();
        push_decimal(&mut text, (nanoseconds / 1_000_000) as u64);
        text.append(" ms");
        assert(text@ =~= duration_text(seconds, nanoseconds));
        return text;
    }
    if seconds < 60 {
        let mut text = format_seconds(seconds, nanoseconds);
        let ghost number = text@;
        text.append(" s");
        proof {
            reveal_strlit(" s");
            assert(text@.take(text@.len() - 2) =~= number);
        }
        return text;
    }
    let mut text = String::new();
    push_decimal(&mut text, seconds / 60);
    text.append(" min ");
    push_decimal(&mut text, seconds % 60);
    text.append(" s");
    assert(text@ =~= duration_text(seconds, nanoseconds));
    text
}

/// The name of a signal that a wrapper forwards; other signals have no name here.
pub fn signal_name(signal: i32) -> (name: &'static str)
    ensures
        name@ == signal_text(signal),
{
    match signal {
        1 => "SIGHUP",
        2 => "SIGINT",
        3 => "SIGQUIT",
        15 => "SIGTERM",
        _ => "signal",
    }
}

/// The name of a signal.
pub open spec fn signal_text(signal: i32) -> Seq<char> {
    if signal == 1 {
        "SIGHUP"@
    } else if signal == 2 {
        "SIGINT"@
    } else if signal == 3 {
        "SIGQUIT"@
    } else if signal == 15 {
        "SIGTERM"@
    } else {
        "signal"@
    }
}

} // verus!
