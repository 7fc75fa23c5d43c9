//! Characters, numbers, words and lines.

use runlens::numbers::{add_counters, parse_unsigned, push_decimal, push_numeral, push_signed};
use runlens::order::{compare_bytes, compare_chars, Comparison};
use runlens::scanning::{
    find_from, find_last, find_last_pair, is_white_space, split_lines, split_words,
};
use runlens::text::{
    begins_with, chars_of, ends_in, holds, holds_char, is_word, same_chars, slice_of, string_of,
    to_lower,
};

fn chars(text: &str) -> Vec<char> {
    text.chars().collect()
}

fn strings(parts: Vec<Vec<char>>) -> Vec<String> {
    parts.into_iter().map(|p| p.into_iter().collect()).collect()
}

fn number(text: &str, base: u8, max: u64) -> Option<u64> {
    parse_unsigned(&chars(text), base, max)
}

#[test]
fn white_space_is_that_of_the_standard_library() {
    for code in 0..=0x10FFFFu32 {
        if let Some(c) = char::from_u32(code) {
            assert_eq!(is_white_space(c), c.is_whitespace(), "{code:x}");
        }
    }
}

#[test]
fn words_are_those_of_the_standard_library() {
    for line in ["", " ", "a", "  sl  local_address \t rem\n", "0: 0100007F:1F90", "\u{a0}x\u{3000}y"] {
        let expected: Vec<String> = line.split_whitespace().map(String::from).collect();
        assert_eq!(strings(split_words(&chars(line))), expected);
    }
}

#[test]
fn lines_are_those_of_the_standard_library() {
    for text in ["", "\n", "a", "a\n", "a\nb", "a\r\nb\r", "\n\nx\n", "a\r\r\n"] {
        let expected: Vec<String> = text.lines().map(String::from).collect();
        assert_eq!(strings(split_lines(&chars(text))), expected);
    }
}

#[test]
fn positions_are_found() {
    assert_eq!(find_from(&chars("a(b(c"), 0, '('), 1);
    assert_eq!(find_from(&chars("a(b(c"), 2, '('), 3);
    assert_eq!(find_from(&chars("abc"), 0, '('), 3);
    assert_eq!(find_last(&chars("a:b:c"), ':'), Some(3));
    assert_eq!(find_last(&chars("abc"), ':'), None);
    assert_eq!(find_last_pair(&chars("1 (a) b) S"), ')', ' '), Some(7));
    assert_eq!(find_last_pair(&chars("1 (a)"), ')', ' '), None);
}

#[test]
fn numbers_are_read_as_the_standard_library_reads_them() {
    for text in ["", "+", "-1", "0", "+7", "007", "18446744073709551615", "18446744073709551616", "1 ", "12a"] {
        assert_eq!(number(text, 10, u64::MAX), text.parse::<u64>().ok(), "{text}");
        assert_eq!(number(text, 10, u32::MAX as u64), text.parse::<u32>().ok().map(u64::from), "{text}");
    }
    for text in ["", "8", "0100002", "777", "+17", "40000000000", "100000000000"] {
        assert_eq!(number(text, 8, u32::MAX as u64), u32::from_str_radix(text, 8).ok().map(u64::from), "{text}");
    }
    for text in ["FF", "ff", "+F", "100", "G", "", "0a"] {
        assert_eq!(number(text, 16, 255), u8::from_str_radix(text, 16).ok().map(u64::from), "{text}");
    }
}

#[test]
fn numbers_are_written_and_read_back() {
    for n in [0, 9, 10, 1234567890, u64::MAX] {
        let mut text = String::new();
        push_decimal(&mut text, n);
        assert_eq!(text, n.to_string());
        assert_eq!(number(&text, 10, u64::MAX), Some(n));
    }
    let mut text = String::from("0x");
    push_numeral(&mut text, 48879, 16);
    assert_eq!(text, "0xbeef");
    for n in [0, 7, -1, i32::MAX, i32::MIN] {
        let mut text = String::new();
        push_signed(&mut text, n);
        assert_eq!(text, n.to_string());
    }
}

#[test]
fn counters_are_added_while_all_are_known() {
    assert_eq!(add_counters(&vec![]), Some(0));
    assert_eq!(add_counters(&vec![Some(1), Some(41)]), Some(42));
    assert_eq!(add_counters(&vec![Some(1), None, Some(2)]), None);
    assert_eq!(add_counters(&vec![Some(u64::MAX), Some(0)]), Some(u64::MAX));
    assert_eq!(add_counters(&vec![Some(u64::MAX), Some(1)]), None);
    assert_eq!(add_counters(&vec![Some(u64::MAX), Some(1), None]), None);
}

#[test]
fn texts_are_compared_and_searched() {
    assert_eq!(chars_of("h\u{e9}"), vec!['h', '\u{e9}']);
    assert_eq!(string_of(&['o', 'k']), "ok");
    assert_eq!(slice_of(&[1, 2, 3, 4], 1, 3), vec![2, 3]);
    assert!(same_chars(&chars("ab"), &chars("ab")));
    assert!(!same_chars(&chars("ab"), &chars("abc")));
    assert!(is_word(&chars("kB"), "kB"));
    assert!(!is_word(&chars("KB"), "kB"));
    assert!(begins_with(&chars("flags:\t0100"), "flags:"));
    assert!(!begins_with(&chars("flag"), "flags:"));
    assert!(ends_in(&chars("/a (deleted)"), " (deleted)"));
    assert!(!ends_in(&chars("d)"), " (deleted)"));
    assert!(holds(&chars("my_credentials.json"), "credential"));
    assert!(!holds(&chars("cred"), "credential"));
    assert!(holds_char(&chars("::1"), ':'));
    assert!(!holds_char(&chars("1.2"), ':'));
    assert_eq!(string_of(&to_lower(&chars("ID_RSA \u{c9}"))), "ID_RSA \u{c9}".to_ascii_lowercase());
}

#[test]
fn texts_and_bytes_are_ordered() {
    assert!(matches!(compare_bytes(b"abc", b"abd"), Comparison::Before));
    assert!(matches!(compare_bytes(b"abc", b"abc"), Comparison::Same));
    assert!(matches!(compare_bytes(b"b", b"abc"), Comparison::After));
    assert!(matches!(compare_chars(&chars("10"), &chars("9")), Comparison::Before));
    assert!(matches!(compare_chars(&chars("a"), &chars("")), Comparison::After));
}
