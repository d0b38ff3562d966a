use deskemy::structure::{clean_title, leading_number, sort_key};

#[test]
fn parses_leading_numbers() {
    assert_eq!(leading_number("01 - Intro"), Some(1));
    assert_eq!(leading_number("1. Welcome"), Some(1));
    assert_eq!(leading_number("Section 3"), Some(3));
    assert_eq!(leading_number("10 Things.mp4"), Some(10));
    assert_eq!(leading_number("Introduction"), None);
}

#[test]
fn cleans_titles() {
    assert_eq!(clean_title("001 Welcome.mp4"), "Welcome");
    assert_eq!(clean_title("1 - Getting Started.mp4"), "Getting Started");
    assert_eq!(clean_title("01_setup_env.mp4"), "setup_env");
    assert_eq!(clean_title("Introduction.mp4"), "Introduction");
    assert_eq!(clean_title("1984.mp4"), "1984");
}

#[test]
fn orders_naturally() {
    let mut v = vec!["10 b", "2 a", "1 a", "Bonus"];
    v.sort_by_key(|s| sort_key(s));
    assert_eq!(v, vec!["1 a", "2 a", "10 b", "Bonus"]);
}

#[test]
fn leading_number_round_trips_decimal_text() {
    for n in [0i64, 7, 42, 1000, 999_999_999] {
        assert_eq!(leading_number(&n.to_string()), Some(n));
    }
}

#[test]
fn leading_number_is_found_in_the_name() {
    for s in ["Part 12 - x", "abc 007 y", "v2.5"] {
        let n = leading_number(s).unwrap();
        assert!(s.contains(&n.to_string()));
    }
}

#[test]
fn leading_number_too_large_is_none() {
    assert_eq!(leading_number("99999999999999999999 big"), None);
}

#[test]
fn clean_title_strips_numeric_prefix() {
    assert_eq!(clean_title("42 Word.mp4"), "Word");
    assert_eq!(clean_title("0 a.mp4"), "a");
}

#[test]
fn clean_title_is_trimmed() {
    for s in ["  01 -  spaced  .mp4", "\u{3000}x\u{3000}", "", "   "] {
        let t = clean_title(s);
        assert_eq!(t.trim(), t.as_str());
    }
}

#[test]
fn sort_key_puts_numbered_first() {
    let mut v = vec!["b", "3 c", "a", "1 d", "2"];
    v.sort_by_key(|s| sort_key(s));
    assert_eq!(v, vec!["1 d", "2", "3 c", "a", "b"]);
    assert_eq!(sort_key("Abc"), (true, 0, "abc".to_string()));
    assert_eq!(sort_key("12 X"), (false, 12, "12 x".to_string()));
}
