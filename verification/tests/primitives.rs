//! Text and time.

use kctx::text::{
    dedup, find, insert_distinct, is_before, is_white_space, join, line_one, number, octal, pad,
    signed, sort, split, to_ascii_lowercase, trim, wide_number,
};
use kctx::time::Duration;

fn list(items: &[&str]) -> Vec<String> {
    items.iter().map(|s| s.to_string()).collect()
}

#[test]
fn white_space_is_trimmed_as_the_standard_library_does() {
    for s in ["", "  ", " a b ", "\u{a0}x\u{2003}", "\tx\r\n", "\u{200b}x"] {
        assert_eq!(trim(s), s.trim(), "{s:?}");
    }
    for code in 0..0x3100u32 {
        if let Some(c) = char::from_u32(code) {
            assert_eq!(is_white_space(c), c.is_whitespace(), "{code:x}");
        }
    }
}

#[test]
fn the_first_line_is_the_one_the_standard_library_finds() {
    for s in ["", "a", "a\nb", "a\r\nb", "a\r", "\n", "\r\nb"] {
        assert_eq!(line_one(s), s.lines().next().unwrap_or_default(), "{s:?}");
    }
}

#[test]
fn texts_are_split_and_joined() {
    assert_eq!(split("a:b", ':'), list(&["a", "b"]));
    assert_eq!(split("::", ':'), list(&["", "", ""]));
    assert_eq!(split("", ':'), list(&[""]));
    assert_eq!(join(&list(&["a", "b", "c"]), ", "), "a, b, c");
    assert_eq!(join(&Vec::new(), ", "), "");
}

#[test]
fn texts_are_ordered_by_code_point() {
    let mut expected = list(&["b", "a", "", "Z", "ä", "ab", "\u{10000}", "\u{ffff}"]);
    let sorted = sort(expected.clone());
    expected.sort();
    assert_eq!(sorted, expected);
    assert!(is_before("a", "ab"));
    assert!(!is_before("ab", "a"));
    assert!(!is_before("a", "a"));
}

#[test]
fn repeated_texts_are_kept_once() {
    let mut set = Vec::new();
    for item in ["v2", "v1", "v2", "v3"] {
        insert_distinct(&mut set, item.to_string());
    }
    assert_eq!(set, list(&["v1", "v2", "v3"]));
    assert_eq!(dedup(&list(&["a", "a", "b", "a"])), list(&["a", "b", "a"]));
}

#[test]
fn substrings_are_found_at_their_first_place() {
    let chars = |s: &str| s.chars().collect::<Vec<char>>();
    assert_eq!(find(&chars("xabab"), &chars("ab")), Some(1));
    assert_eq!(find(&chars("abc"), &chars("")), Some(0));
    assert_eq!(find(&chars("ab"), &chars("abc")), None);
}

#[test]
fn numbers_are_written_out() {
    assert_eq!(number(0), "0");
    assert_eq!(number(1203), "1203");
    assert_eq!(wide_number(u128::MAX), u128::MAX.to_string());
    assert_eq!(signed(i32::MIN), i32::MIN.to_string());
    assert_eq!(signed(-7), "-7");
    assert_eq!(octal(0o755), "755");
}

#[test]
fn labels_are_padded_but_never_cut() {
    assert_eq!(pad("ab", 4), "ab  ");
    assert_eq!(pad("abcd", 2), "abcd");
    assert_eq!(pad("äb", 4), "äb  ");
    assert_eq!(to_ascii_lowercase("CRT-Ä"), "crt-Ä");
}

#[test]
fn spans_are_exact_to_the_nanosecond() {
    let span = Duration::from_millis(1_234);
    assert_eq!(span.as_secs(), 1);
    assert_eq!(span.subsec_nanos(), 234_000_000);
    assert_eq!(span.as_millis(), 1_234);
    assert_eq!(Duration::new(1, 234_000_000), Some(span));
    assert_eq!(Duration::new(0, 1_000_000_000), None);
    assert_eq!(
        Duration::new(0, 999_999).unwrap().as_millis(),
        0,
        "milliseconds are cut, not rounded"
    );
    assert_eq!(
        Duration::from_secs(u64::MAX).as_millis(),
        u64::MAX as u128 * 1000
    );
    assert!(Duration::zero().is_zero());
    assert!(!span.is_zero());
    assert!(span.is_below(Duration::from_secs(2)));
    assert_eq!(span.min(Duration::from_secs(1)), Duration::from_secs(1));
    assert_eq!(span.min(Duration::from_secs(2)), span);
    assert_eq!(span.seconds(), "1.2");
}
