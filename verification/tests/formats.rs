//! The pieces of text of a report, paths, and command lines.

use runlens::formatting::{
    format_duration, format_examples, format_path_examples, is_sensitive_path, is_sensitive_text,
    join, pluralize, print_path_samples, print_samples, sanitize_process_text, signal_name,
};
use runlens::order::Comparison;
use runlens::output::{print_bulleted, ReportText};
use runlens::paths::{compare_paths, split_components, starts_with, Component};
use runlens::quoting::{
    format_argument, format_argument_text, format_command, format_command_texts,
};

fn owned(parts: &[&str]) -> Vec<String> {
    parts.iter().map(|p| p.to_string()).collect()
}

fn bytes(parts: &[&str]) -> Vec<Vec<u8>> {
    parts.iter().map(|p| p.as_bytes().to_vec()).collect()
}

fn numbered(count: usize) -> Vec<Vec<u8>> {
    (0..count).map(|i| format!("/p/{i}").into_bytes()).collect()
}

#[test]
fn shown_text_stays_on_one_line() {
    assert_eq!(sanitize_process_text("a\nb\rc\td e"), "a b c d e");
    assert_eq!(sanitize_process_text(""), "");
    let once = sanitize_process_text("x\n\ny");
    assert_eq!(sanitize_process_text(&once), once);
}

#[test]
fn parts_are_joined() {
    assert_eq!(join(&owned(&[]), ", "), "");
    assert_eq!(join(&owned(&["a"]), ", "), "a");
    assert_eq!(join(&owned(&["a", "b", "c"]), "; "), "a; b; c");
}

#[test]
fn examples_say_how_many_more_there_are() {
    assert_eq!(format_examples(&owned(&["a", "b"]), 2), "a, b");
    assert_eq!(format_examples(&owned(&["a", "b"]), 5), "a, b, ... 3 more");
    assert_eq!(format_examples(&owned(&[]), 4), "... 4 more");
    assert_eq!(format_path_examples(&bytes(&["/a\tb"])), "/a b");
    assert_eq!(
        format_path_examples(&numbered(10)),
        "/p/0, /p/1, /p/2, /p/3, /p/4, /p/5, /p/6, /p/7, ... 2 more"
    );
}

#[test]
fn paths_that_are_not_text_are_shown_with_replacements() {
    assert_eq!(format_path_examples(&vec![b"/a\xffb".to_vec()]), "/a\u{fffd}b");
    assert_eq!(format_path_examples(&vec!["/\u{e9}".as_bytes().to_vec()]), "/\u{e9}");
}

#[test]
fn samples_stand_under_their_label() {
    let mut report = ReportText::new();
    print_samples("    Read paths", &owned(&["/a", "/b"]), 2, &mut report);
    assert_eq!(report.into_lines(), owned(&["    Read paths:", "      - /a", "      - /b"]));

    let mut report = ReportText::new();
    print_path_samples("L", &numbered(9), &mut report);
    let lines = report.into_lines();
    assert_eq!(lines.len(), 10);
    assert_eq!(lines[8], "      - /p/7");
    assert_eq!(lines[9], "      - ... 1 more");
}

#[test]
fn lists_stand_under_their_heading() {
    let mut report = ReportText::new();
    print_bulleted("Notable findings", &owned(&[]), &mut report);
    print_bulleted("Notable findings", &owned(&["one", "two"]), &mut report);
    assert_eq!(
        report.into_lines(),
        owned(&["Notable findings: none", "Notable findings:", "  - one", "  - two"])
    );
}

#[test]
fn sensitive_paths_are_recognized() {
    for path in [
        "/etc/hosts",
        "/ETC/hosts",
        "/root/x",
        "/home/u/.ssh/id",
        "/home/u/.AWS/x",
        "/home/u/.config",
        ".kube/c",
        ".gnupg",
        "/tmp/my-Password.txt",
        "/tmp/passwd",
        "/tmp/a_secret_b",
        "/tmp/token",
        "/tmp/credentials",
        "/tmp/private_key",
        "/tmp/server.PEM",
        "/tmp/server.key",
    ] {
        assert!(is_sensitive_path(path.as_bytes()), "{path}");
    }
    for path in ["/etc", "/root", "/tmp/.sshx/a", "/tmp/ssh/a", "/usr/etc/", "/tmp/server.keys", "/tmp/pem", ""] {
        assert!(!is_sensitive_path(path.as_bytes()), "{path}");
    }
    assert!(is_sensitive_text("/x/.SSH/y", &owned(&["/", "x", ".SSH", "y"])));
    assert!(!is_sensitive_text("/x/y", &owned(&["/", "x", "y"])));
}

#[test]
fn words_are_put_in_the_plural() {
    assert_eq!(pluralize(1, "descendant", "descendants"), "descendant");
    assert_eq!(pluralize(0, "descendant", "descendants"), "descendants");
    assert_eq!(pluralize(2, "descendant", "descendants"), "descendants");
}

#[test]
fn durations_are_shown_in_their_unit() {
    assert_eq!(format_duration(0, 0), "0 ms");
    assert_eq!(format_duration(0, 999_999_999), "999 ms");
    assert_eq!(format_duration(1, 0), "1.0 s");
    assert_eq!(format_duration(1, 540_000_000), "1.5 s");
    assert_eq!(format_duration(12, 360_000_000), "12.4 s");
    assert_eq!(format_duration(59, 999_000_000), "60.0 s");
    assert_eq!(format_duration(60, 0), "1 min 0 s");
    assert_eq!(format_duration(3725, 5), "62 min 5 s");
}

#[test]
fn signals_have_names() {
    assert_eq!(signal_name(1), "SIGHUP");
    assert_eq!(signal_name(2), "SIGINT");
    assert_eq!(signal_name(3), "SIGQUIT");
    assert_eq!(signal_name(15), "SIGTERM");
    assert_eq!(signal_name(9), "signal");
    assert_eq!(signal_name(-1), "signal");
}

#[test]
fn paths_are_cut_as_the_standard_library_cuts_them() {
    for path in ["", "/", "//", "a", "a/b", "/a/b/", "./a", "a/./b", "a/../b", "/./a//b", "..", ".", "a/.", "/.."] {
        let expected: Vec<String> = std::path::Path::new(path)
            .components()
            .map(|c| c.as_os_str().to_string_lossy().into_owned())
            .collect();
        let found: Vec<String> = split_components(path.as_bytes())
            .iter()
            .map(|c| match c {
                Component::RootDir => "/".to_string(),
                Component::CurDir => ".".to_string(),
                Component::ParentDir => "..".to_string(),
                Component::Normal(name) => String::from_utf8_lossy(name).into_owned(),
            })
            .collect();
        assert_eq!(found, expected, "{path}");
    }
}

#[test]
fn paths_are_ordered_as_the_standard_library_orders_them() {
    let paths = ["", "/", "/a", "/a/b", "/a-b", "/a.b/c", "a", "./a", "a/..", "..", "/a//b/", "b"];
    for left in paths {
        for right in paths {
            let order = std::path::Path::new(left) < std::path::Path::new(right);
            let equal = std::path::Path::new(left) == std::path::Path::new(right);
            let found = compare_paths(left.as_bytes(), right.as_bytes());
            assert_eq!(matches!(found, Comparison::Before), order, "{left} {right}");
            assert_eq!(matches!(found, Comparison::Same), equal, "{left} {right}");
        }
    }
}

#[test]
fn directories_hold_what_is_below_them() {
    for (path, base, below) in [
        ("/work/a", "/work", true),
        ("/work", "/work", true),
        ("/work/", "/work", true),
        ("/worker", "/work", false),
        ("/", "/work", false),
        ("work/a", "/work", false),
        ("/work/./a", "/work/", true),
        ("/a", "", true),
    ] {
        assert_eq!(starts_with(path.as_bytes(), base.as_bytes()), below, "{path} {base}");
        assert_eq!(std::path::Path::new(path).starts_with(base), below, "{path} {base}");
    }
}

#[test]
fn arguments_are_quoted_where_they_must_be() {
    assert_eq!(format_argument_text("a,b"), "'a,b'");
    assert_eq!(format_argument(b""), "''");
    assert_eq!(format_argument(b"two words"), "'two words'");
    assert_eq!(format_argument(b"x;y"), "'x;y'");
    assert_eq!(format_argument(b"it's"), "'it'\\''s'");
    assert_eq!(format_argument(b"/bin/sh"), "/bin/sh");
    assert_eq!(format_argument(b"--name=a.b:c+d_1"), "--name=a.b:c+d_1");
    assert_eq!(format_argument("\u{e9}".as_bytes()), "'\u{e9}'");
    assert_eq!(format_argument(b"\xff"), format_argument_text("\u{fffd}"));
}

#[test]
fn report_keeps_argument_boundaries_visible() {
    let command = bytes(&["/bin/sh", "-c", "exit 0", "fixture", "two words"]);
    assert_eq!(format_command(&command), "/bin/sh -c 'exit 0' fixture 'two words'");
}

#[test]
fn different_arguments_give_different_command_lines() {
    assert_ne!(format_command(&bytes(&["a", "b"])), format_command(&bytes(&["a b"])));
    assert_ne!(format_command(&bytes(&["a", ""])), format_command(&bytes(&["a"])));
    assert_ne!(format_command(&bytes(&["'a'"])), format_command(&bytes(&["a"])));
    assert_eq!(format_command_texts(&owned(&["it's"])), format_command(&bytes(&["it's"])));
}
