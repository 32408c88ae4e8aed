use swarmagent::keyed::StringMap;
use swarmagent::text::{
    find_last, joined, lowers_to, parse_signed, parse_unsigned, show_signed, show_unsigned, starts_with,
    strip_suffix, tail_after, trim, trim_end,
};

#[test]
fn trimming_agrees_with_std() {
    for s in ["", " ", "a", " a ", "\u{a0}a b\u{3000}", "\t\n\u{b}\u{c}\r x", "\u{200b}a", "\u{85}\u{1680}z\u{2029}"] {
        assert_eq!(trim(s), s.trim());
        assert_eq!(trim(trim(s)), trim(s));
    }
    assert_eq!(trim_end("a//", '/'), "a");
    assert_eq!(trim_end("//", '/'), "");
    assert_eq!(trim_end("a/b", '/'), "a/b");
}

#[test]
fn case_and_affixes() {
    assert!(lowers_to("WinDows", "windows"));
    assert!(!lowers_to("windows ", "windows"));
    assert!(!lowers_to("\u{130}", "i"));
    assert!(lowers_to("\u{c9}A", "\u{c9}a"));
    assert!(starts_with("abc", "ab") && starts_with("abc", "") && !starts_with("ab", "abc"));
    assert_eq!(strip_suffix("x/events", "/events"), Some("x"));
    assert_eq!(strip_suffix("x/event", "/events"), None);
    assert_eq!(strip_suffix("s", "/events"), None);
    assert_eq!(joined("a", "\u{17c}"), "a\u{17c}");
}

#[test]
fn last_positions() {
    assert_eq!(find_last("a-b-c", '-'), Some(3));
    assert_eq!(find_last("\u{17c}-", '-'), Some(1));
    assert_eq!(find_last("abc", '-'), None);
    assert_eq!(tail_after("a/b/c", '/'), "c");
    assert_eq!(tail_after("abc", '/'), "abc");
    assert_eq!(tail_after("a/", '/'), "");
}

#[test]
fn whole_numbers_agree_with_std() {
    for s in [
        "0", "+0", "-0", "1", "007", "", "+", "-", "--1", "1a", " 1", "18446744073709551615",
        "18446744073709551616", "9223372036854775807", "9223372036854775808", "-9223372036854775808",
        "-9223372036854775809", "99999999999999999999999999", "\u{661}",
    ] {
        assert_eq!(parse_unsigned(s, u64::MAX), s.parse::<u64>().ok(), "{s}");
        assert_eq!(parse_signed(s), s.parse::<i64>().ok(), "{s}");
    }
    for v in [0, 7, 10, -10, i64::MAX, i64::MIN, -1] {
        assert_eq!(show_signed(v), v.to_string());
    }
    for v in [0, 9, 10, 1234567890, u64::MAX] {
        assert_eq!(show_unsigned(v), v.to_string());
        assert_eq!(parse_unsigned(&show_unsigned(v), u64::MAX), Some(v));
    }
}

#[test]
fn maps_keep_one_value_per_key() {
    let mut m: StringMap<u64> = StringMap::new();
    assert!(m.is_empty());
    m.insert("b".to_string(), 1);
    m.insert("a".to_string(), 2);
    m.insert("b".to_string(), 3);
    assert_eq!(m.len(), 2);
    assert_eq!(m.get("b"), Some(&3));
    assert_eq!(m.get("a"), Some(&2));
    assert_eq!(m.get("c"), None);
    assert_eq!((m.key_at(0).as_str(), *m.value_at(0)), ("b", 3));
    assert!(m.contains_key("a") && !m.contains_key(""));
    m.insert("ab".to_string(), 4);
    assert_eq!(m.remove_prefixed("a"), vec!["a", "ab"]);
    assert_eq!(m.len(), 1);
    assert!(m.remove_prefixed("x").is_empty());
    assert_eq!(m.remove_prefixed(""), vec!["b"]);
    assert!(m.is_empty());
}
