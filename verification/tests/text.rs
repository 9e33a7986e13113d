//! Text primitives and documents.

use claus::json::{signed_text, Json};
use claus::keyed::{Keyed, TextSet};
use claus::order::sort_texts;
use claus::text::layout::{lines, trim, trim_end, trim_start, words};
use claus::text::number::{decimal_text, pad_left, parse_number, parse_size, parse_u32};
use claus::text::search::{
    contains, count_occurrences, one_of, replace_all, replace_first, starts_with, strip_prefix,
    strip_prefixes,
};
use claus::text::{byte_len, char_width, join, same_text};

#[test]
fn white_space_is_that_of_unicode() {
    let text = "\u{2003} a b\u{a0}\n";
    assert_eq!(trim(text), text.trim());
    assert_eq!(trim_start(text), text.trim_start());
    assert_eq!(trim_end(text), text.trim_end());
    assert_eq!(trim("\u{200b}x"), "\u{200b}x".trim());
    let all: String = (0..=0x10ffff).filter_map(char::from_u32).collect();
    let expected: Vec<String> = all.split_whitespace().map(str::to_string).collect();
    assert_eq!(words(&all), expected);
}

#[test]
fn lines_end_as_they_do_everywhere() {
    for text in ["", "\n", "a", "a\n", "a\r\nb\r", "a\n\nb", "\r\n", "a\rb\n"] {
        let expected: Vec<String> = text.lines().map(str::to_string).collect();
        assert_eq!(lines(text), expected);
    }
}

#[test]
fn numbers_are_written_and_read() {
    assert_eq!(decimal_text(0), "0");
    assert_eq!(decimal_text(18446744073709551615), "18446744073709551615");
    for text in ["0", "7", "+7", "-7", "", "+", "18446744073709551615", "18446744073709551616", " 7"] {
        assert_eq!(parse_number(text), text.parse::<u64>().ok());
        assert_eq!(parse_size(text), text.parse::<usize>().ok());
        assert_eq!(parse_u32(text), text.parse::<u32>().ok());
    }
    assert_eq!(pad_left("42", 5), "   42");
    assert_eq!(pad_left("123456", 5), "123456");
    assert_eq!(signed_text(i64::MIN), "-9223372036854775808");
}

#[test]
fn substrings_are_found_and_replaced() {
    for (text, old) in [("aaaa", "aa"), ("abcabc", "bc"), ("xyz", "q"), ("", ""), ("h\u{e9}h", "h")] {
        assert_eq!(count_occurrences(text, old) as usize, text.matches(old).count());
        assert_eq!(replace_all(text, old, "-"), text.replace(old, "-"));
        assert_eq!(replace_first(text, old, "-"), text.replacen(old, "-", 1));
        assert_eq!(contains(text, old), text.contains(old));
        assert_eq!(starts_with(text, old), text.starts_with(old));
    }
    assert_eq!(strip_prefix("data: x", "data:"), Some(" x".to_string()));
    assert_eq!(strip_prefix("x", "data:"), None);
    assert_eq!(strip_prefixes("file://file://a", "file://"), "a");
    assert!(one_of("b", &["a", "b"]));
    assert!(!one_of("c", &["a", "b"]));
}

#[test]
fn lengths_are_in_bytes() {
    assert_eq!(byte_len("a\u{e9}\u{20ac}\u{1f600}"), 10);
    for c in ['a', '\u{e9}', '\u{20ac}', '\u{1f600}'] {
        assert_eq!(char_width(c), c.len_utf8());
    }
    assert_eq!(join(&["a".to_string(), "b".to_string()], ", "), "a, b");
    assert!(same_text("x", "x"));
    assert!(!same_text("x", "y"));
}

#[test]
fn texts_sort_by_their_characters() {
    let list: Vec<String> =
        ["b", "", "a\u{e9}", "ab", "a", "\u{1f600}", "z"].iter().map(|s| s.to_string()).collect();
    let mut expected = list.clone();
    expected.sort();
    assert_eq!(sort_texts(list), expected);
}

#[test]
fn documents_read_and_write() {
    let document = Json::parse("{\"b\":[1,-2,1.5,null,true],\"a\":\"\\u00e9\"}").unwrap();
    assert_eq!(document.get("a").unwrap().as_text(), Some("\u{e9}"));
    assert_eq!(document.to_text(), "{\"a\":\"\u{e9}\",\"b\":[1,-2,1.5,null,true]}");
    assert!(Json::parse("{").is_none());
    assert_eq!(Json::parse_bytes(b"[]").unwrap().to_text(), "[]");
    assert!(Json::parse_bytes(b"\xff").is_none());
    let large = Json::parse("18446744073709551615").unwrap();
    assert_eq!(large.as_count(), Some(u64::MAX));
    assert_eq!(large.as_integer(), None);
    let negative = Json::parse("-5").unwrap();
    assert_eq!((negative.as_count(), negative.as_integer()), (None, Some(-5)));
    assert_eq!(Json::count(u64::MAX).as_integer(), None);
    assert_eq!(Json::integer(-5).to_text(), "-5");
}

#[test]
fn fractions_are_written_as_they_were_read() {
    for text in ["1.5", "-0.0", "1e300", "5e-324", "0.1", "123456789.12345679", "2.2250738585072011e-308"] {
        let value: serde_json::Value = serde_json::from_str(text).unwrap();
        let document = Json::parse(text).unwrap();
        assert_eq!(document.to_text(), value.to_string());
        assert_eq!((document.as_count(), document.as_integer()), (None, None));
    }
    let mut state: u64 = 1;
    for _ in 0..2000 {
        state = state.wrapping_mul(6364136223846793005).wrapping_add(1442695040888963407);
        let number = f64::from_bits(state);
        if number.is_finite() {
            let text = format!("{number:e}");
            let value: serde_json::Value = serde_json::from_str(&text).unwrap();
            assert_eq!(Json::parse(&text).unwrap().to_text(), value.to_string());
        }
    }
}

#[test]
fn keyed_values_and_sets() {
    let mut keyed: Keyed<u32> = Keyed::new();
    keyed.insert("a".to_string(), 1);
    keyed.insert("b".to_string(), 2);
    keyed.insert("a".to_string(), 3);
    assert_eq!(keyed.get("a"), Some(&3));
    keyed.remove("a");
    keyed.remove("zz");
    assert_eq!(keyed.get("a"), None);
    assert_eq!(keyed.get("b"), Some(&2));
    let mut set = TextSet::new();
    assert!(set.is_empty());
    assert!(set.insert("x".to_string()));
    assert!(!set.insert("x".to_string()));
    set.remove("x");
    assert!(set.is_empty());
}
