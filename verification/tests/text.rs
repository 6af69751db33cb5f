use rustdesk_rmm::text::{decimal_text, join, split, starts_with, str_eq, trim};

#[test]
fn trim_removes_unicode_white_space() {
    assert_eq!(trim("  a b \t\n"), "a b");
    assert_eq!(trim("\u{a0}x\u{2003}"), "x");
    assert_eq!(trim("   "), "");
    for s in [" a ", "\u{85}b\u{205f}", "c", "", "\u{180e}d"] {
        assert_eq!(trim(s), s.trim(), "{s:?}");
    }
}

#[test]
fn split_matches_str_split() {
    for s in ["", ",", "a,b", ",a,,b,"] {
        let expected: Vec<String> = s.split(',').map(str::to_owned).collect();
        assert_eq!(split(s, ','), expected, "{s:?}");
    }
}

#[test]
fn decimal_matches_display() {
    for n in [0i64, 7, 10, -1, 1234567890, i64::MAX, i64::MIN] {
        assert_eq!(decimal_text(n), n.to_string());
    }
}

#[test]
fn comparisons_and_join() {
    assert!(str_eq("rmm", "rmm"));
    assert!(!str_eq("rmm", "rm"));
    assert!(starts_with("rmm-cpu", "rmm-"));
    assert!(!starts_with("rm", "rmm-"));
    assert_eq!(join(&vec!["a".to_owned(), "b".to_owned(), "c".to_owned()], ", "), "a, b, c");
}
