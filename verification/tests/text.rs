use rigtest::duration::Duration;
use rigtest::text::{
    before, chars_of, contains_white, has, hex_number, indent, insert_name, is_white, joined,
    keep_alphanumeric, lines_of, number, pad, repeat, replace_char, same, signed_number, string_of,
    strip_prefix, trimmed,
};

fn owned(parts: &[&str]) -> Vec<String> {
    parts.iter().map(|p| p.to_string()).collect()
}

#[test]
fn characters_go_back_and_forth() {
    let c = chars_of("h─i");
    assert_eq!(c, vec!['h', '─', 'i']);
    assert_eq!(string_of(&c, 1, 3), "─i");
    assert_eq!(string_of(&c, 1, 1), "");
    assert!(same("a─", "a─") && !same("a", "b"));
}

#[test]
fn parts_are_found() {
    assert!(has("test_add", "add") && has("x", "") && has("", ""));
    assert!(!has("add", "test_add") && !has("aab", "ba"));
    assert_eq!(strip_prefix("SKIP: x", "SKIP: "), Some("x".to_string()));
    assert_eq!(strip_prefix("SKIP", "SKIP: "), None);
}

#[test]
fn lines_end_at_line_feeds() {
    for s in ["", "a", "a\n", "a\r\nb", "\n\n", "a\r", "a\r\r\n", "\r\n", "a\nb\r"] {
        let want: Vec<&str> = s.lines().collect();
        assert_eq!(lines_of(s), want, "{s:?}");
    }
    assert_eq!(indent("a\nb\n"), "  a\n  b");
    assert_eq!(indent(""), "");
}

#[test]
fn numbers_are_written() {
    assert_eq!(number(0), "0");
    assert_eq!(number(1030), "1030");
    assert_eq!(number(u128::MAX), u128::MAX.to_string());
    assert_eq!(signed_number(-7), "-7");
    assert_eq!(signed_number(i32::MIN), "-2147483648");
    assert_eq!(hex_number(0xbeef, 8), "0000beef");
    assert_eq!(hex_number(0x1_0000_000a, 2), "0a");
}

#[test]
fn names_stay_in_order() {
    assert!(before("a", "b") && before("a", "ab") && before("", "a") && before("z", "é"));
    assert!(!before("a", "a") && !before("b", "a") && !before("ab", "a"));
    let mut v: Vec<&str> = Vec::new();
    for name in ["db", "api", "db", "net", "api"] {
        insert_name(&mut v, name);
    }
    assert_eq!(v, vec!["api", "db", "net"]);
}

#[test]
fn texts_are_put_together() {
    assert_eq!(joined(&owned(&[]), ", "), "");
    assert_eq!(joined(&owned(&["a"]), ", "), "a");
    assert_eq!(joined(&owned(&["a", "", "c"]), ", "), "a, , c");
    assert_eq!(repeat('─', 3), "───");
    assert_eq!(pad("Summary", 12), "     Summary");
    assert_eq!(pad("─", 3), "  ─");
    assert_eq!(pad("long enough", 3), "long enough");
}

#[test]
fn characters_are_sorted_out() {
    assert_eq!(keep_alphanumeric("a-B_9é."), "aB9");
    assert_eq!(replace_char("a::b", ':', '.'), "a..b");
    for c in ['\t', '\u{b}', ' ', '\u{85}', '\u{a0}', '\u{2003}', '\u{200b}', '\u{3000}', 'a'] {
        assert_eq!(is_white(c), c.is_whitespace(), "{c:?}");
    }
    assert!(contains_white("a b") && !contains_white("ab") && !contains_white(""));
    assert_eq!(trimmed(" \n a b\u{2003}"), "a b");
    assert_eq!(trimmed("  "), "");
}

#[test]
fn spans_are_written_with_their_places() {
    assert_eq!(Duration::from_millis(1500).seconds(2), "1.50");
    assert_eq!(Duration::new(2, 999_600_000).seconds(3), "3.000");
    assert_eq!(Duration::from_secs(7).seconds(0), "7");
    let d = Duration::new(1, 250);
    assert_eq!((d.as_secs(), d.subsec_nanos()), (1, 250));
}
