use ydm::number::parse_u64;
use ydm::number::parse_within;
use ydm::number::to_decimal;
use ydm::number::to_decimal_padded;
use ydm::text::contains;
use ydm::text::ends_with;
use ydm::text::lowercase;
use ydm::text::second_of;
use ydm::text::split_at_char;
use ydm::text::split_once;
use ydm::text::split_words;
use ydm::text::starts_with;
use ydm::text::strip_prefixes;
use ydm::text::strip_suffixes;
use ydm::text::substitute;
use ydm::text::trim;

#[test]
fn lowercase_of_ascii_and_other_letters() {
    assert_eq!(lowercase("Hello World 7"), "hello world 7");
    assert_eq!(lowercase("ÄÖÜ Σίγμα"), "äöü σίγμα");
    assert_eq!(lowercase("ΟΔΥΣΣΕΥΣ"), "ΟΔΥΣΣΕΥΣ".to_lowercase());
    assert_eq!(lowercase("İ"), "İ".to_lowercase());
}

#[test]
fn trim_takes_unicode_white_space() {
    assert_eq!(trim("  a b\r\n"), "a b");
    assert_eq!(trim("\u{a0}\u{3000}x\u{2028}"), "x");
    assert_eq!(trim(" \t "), "");
    assert_eq!(trim(""), "");
}

#[test]
fn white_space_is_that_of_char() {
    for c in 0u32..0x3100 {
        if let Some(c) = char::from_u32(c) {
            assert_eq!(ydm::text::is_white(c), c.is_whitespace());
        }
    }
}

#[test]
fn pieces_and_words() {
    assert_eq!(split_at_char("a,b,,c", ','), vec!["a", "b", "", "c"]);
    assert_eq!(split_at_char("", ','), vec![""]);
    assert_eq!(split_words("  one two\t three "), vec!["one", "two", "three"]);
    assert_eq!(split_words("   ").len(), 0);
    assert_eq!(split_once("k: v: w", ':'), Some(("k".to_string(), " v: w".to_string())));
    assert_eq!(split_once("kv", ':'), None);
    assert_eq!(second_of("xatyatz", "at"), Some("y".to_string()));
    assert_eq!(second_of("xyz", "at"), None);
}

#[test]
fn parts_of_texts() {
    assert!(contains("abcabd", "abd"));
    assert!(contains("abc", ""));
    assert!(!contains("ab", "abc"));
    assert!(starts_with("/status/7", "/status/"));
    assert!(!starts_with("/sta", "/status/"));
    assert!(ends_with("12%", "%"));
    assert!(!ends_with("", "%"));
    assert_eq!(strip_prefixes("aaab", "a"), "b");
    assert_eq!(strip_suffixes("12%%", "%"), "12");
    assert_eq!(substitute("x{id}y{id}", "{id}", "7"), "x7y7");
    assert_eq!(substitute("aaa", "aa", "b"), "ba");
}

#[test]
fn numbers_in_decimal() {
    assert_eq!(to_decimal(0), "0");
    assert_eq!(to_decimal(18_446_744_073_709_551_615), "18446744073709551615");
    assert_eq!(to_decimal_padded(7, 4), "0007");
    assert_eq!(to_decimal_padded(12345, 4), "12345");
}

#[test]
fn numbers_read() {
    assert_eq!(parse_u64("18446744073709551615"), Some(u64::MAX));
    assert_eq!(parse_u64("18446744073709551616"), None);
    assert_eq!(parse_u64("+7"), Some(7));
    assert_eq!(parse_u64("007"), Some(7));
    assert_eq!(parse_u64(""), None);
    assert_eq!(parse_u64("+"), None);
    assert_eq!(parse_u64("-1"), None);
    assert_eq!(parse_u64(" 1"), None);
    assert_eq!(parse_u64("1a"), None);
    assert_eq!(parse_u64("٣"), None);
    assert_eq!(parse_within("255", 255), Some(255));
    assert_eq!(parse_within("256", 255), None);
}

#[test]
fn decimal_reads_back() {
    for n in [0u64, 1, 9, 10, 999, 1_000_000, u64::MAX] {
        assert_eq!(parse_u64(&to_decimal(n)), Some(n));
    }
}
