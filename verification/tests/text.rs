use cwbot::text::{parse_usize, remove_whitespace, same_text, split_at_colon, trim};

#[test]
fn trimming() {
    assert_eq!(trim("  3 "), "3");
    assert_eq!(trim("\t a b \n"), "a b");
    assert_eq!(trim("   "), "");
    assert_eq!(trim(""), "");
    assert_eq!(trim("x"), "x");
}

#[test]
fn splitting_at_the_first_colon() {
    assert_eq!(split_at_colon("koch:3"), ("koch", "3"));
    assert_eq!(split_at_colon("alpha"), ("alpha", ""));
    assert_eq!(split_at_colon("a:b:c"), ("a", "b:c"));
    assert_eq!(split_at_colon(":x"), ("", "x"));
    assert_eq!(split_at_colon("y:"), ("y", ""));
}

#[test]
fn comparing_texts() {
    assert!(same_text("alpha", "alpha"));
    assert!(!same_text("alpha", "alph"));
    assert!(!same_text("alpha", "Alpha"));
    assert!(same_text("", ""));
}

#[test]
fn parsing_levels() {
    assert_eq!(parse_usize("3"), Some(3));
    assert_eq!(parse_usize("+35"), Some(35));
    assert_eq!(parse_usize(""), None);
    assert_eq!(parse_usize("+"), None);
    assert_eq!(parse_usize("-1"), None);
    assert_eq!(parse_usize(" 3"), None);
    assert_eq!(parse_usize("18446744073709551615"), Some(usize::MAX));
    assert_eq!(parse_usize("18446744073709551616"), None);
}

#[test]
fn removing_white_space() {
    assert_eq!(remove_whitespace(" a\tb\nc \u{3000}d"), "abcd");
    assert_eq!(remove_whitespace(""), "");
}
