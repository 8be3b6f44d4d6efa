use cwbot::{compare_str, del_cost, ins_cost, sub_cost};

#[test]
fn test_levenshtein() {
    let (a, b, d) = compare_str("abcd", "zbde");
    assert_eq!(a, "abcd ");
    assert_eq!(b, "zb de");
    assert_eq!(d, 3);
}

#[test]
fn test_levenshtein_spaces() {
    // deleting or inserting a space costs nothing
    let (_, _, d1) = compare_str("a b", "ab");
    let (_, _, d2) = compare_str("ab", "a b");
    assert_eq!(d1, 0);
    assert_eq!(d2, 0);
}

#[test]
fn test_levenshtein_mix() {
    let (a, b, d) = compare_str("a bc d", "ab  c");
    assert_eq!(d, 1); // one deletion of 'd' is enough
    assert_eq!(a, "a b  c d");
    assert_eq!(b, "a b  c  ");
}

#[test]
fn test_levenshtein_utf8() {
    let (a, b, d) = compare_str("あいうお", "あいくえお");
    assert_eq!(a, "あいう お");
    assert_eq!(b, "あいくえお");
    assert_eq!(d, 2);
}

fn mismatches(x: &str, y: &str) -> usize {
    x.chars().zip(y.chars()).filter(|(p, q)| p != q).count()
}

#[test]
fn costs_of_single_edits() {
    assert_eq!(del_cost(' '), 0);
    assert_eq!(del_cost('a'), 1);
    assert_eq!(ins_cost(' '), 0);
    assert_eq!(ins_cost('Z'), 1);
    assert_eq!(sub_cost('x', 'x'), 0);
    assert_eq!(sub_cost('x', 'y'), 1);
    assert_eq!(sub_cost(' ', 'y'), 1);
}

#[test]
fn empty_strings() {
    assert_eq!(compare_str("", ""), (String::new(), String::new(), 0));
    assert_eq!(compare_str("abc", ""), ("abc".to_string(), "   ".to_string(), 3));
    assert_eq!(compare_str("", "ab"), ("  ".to_string(), "ab".to_string(), 2));
    assert_eq!(compare_str("  ", ""), ("  ".to_string(), "  ".to_string(), 0));
}

#[test]
fn distance_is_symmetric_on_examples() {
    for (x, y) in [("abcd", "zbde"), ("a bc d", "ab  c"), ("kitten", "sitting"), ("", "xyz")] {
        assert_eq!(compare_str(x, y).2, compare_str(y, x).2);
    }
}

#[test]
fn distance_to_self_is_zero() {
    for x in ["", "a", "CQ CQ DE JA1", "あいう"] {
        let (a, b, d) = compare_str(x, x);
        assert_eq!(d, 0);
        assert_eq!(a, x);
        assert_eq!(b, x);
    }
}

#[test]
fn rows_differ_exactly_at_distance_places() {
    for (x, y) in [("abcd", "zbde"), ("a bc d", "ab  c"), ("kitten", "sitting"), ("ab", "ba")] {
        let (a, b, d) = compare_str(x, y);
        assert_eq!(a.chars().count(), b.chars().count());
        assert_eq!(mismatches(&a, &b), d);
    }
}

#[test]
fn alignments_of_examples() {
    assert_eq!(
        compare_str("kitten", "sitting"),
        ("kitten ".to_string(), "sitting".to_string(), 3)
    );
    assert_eq!(compare_str("ab", "ba"), (" ab".to_string(), "ba ".to_string(), 2));
    assert_eq!(compare_str("CQ", "CQ DE"), ("CQ   ".to_string(), "CQ DE".to_string(), 2));
    assert_eq!(
        compare_str("ABCDE FGHIJ", "ABCDEFGHIK"),
        ("ABCDE FGHIJ".to_string(), "ABCDE FGHIK".to_string(), 1)
    );
}

#[test]
fn inserting_spaces_is_free() {
    let pairs = [("abcd", "zbde"), ("kitten", "sitting"), ("CQ DE", "CQDE"), ("", "x")];
    for (x, y) in pairs {
        let d = compare_str(x, y).2;
        let ys: Vec<char> = y.chars().collect();
        for p in 0..=ys.len() {
            let mut z = ys.clone();
            z.insert(p, ' ');
            let z: String = z.into_iter().collect();
            assert_eq!(compare_str(x, &z).2, d, "{x:?} {z:?}");
            assert_eq!(compare_str(&z, x).2, d, "{z:?} {x:?}");
        }
    }
}

#[test]
fn distance_is_at_most_any_simple_alignment() {
    // aligning position by position, padding the shorter with gaps, is one
    // alignment; the distance never exceeds its cost
    for (x, y) in [("abcd", "zbde"), ("kitten", "sitting"), ("ab", "ba")] {
        let xs: Vec<char> = x.chars().collect();
        let ys: Vec<char> = y.chars().collect();
        let n = xs.len().max(ys.len());
        let naive = (0..n)
            .filter(|&k| xs.get(k).copied().unwrap_or(' ') != ys.get(k).copied().unwrap_or(' '))
            .count();
        assert!(compare_str(x, y).2 <= naive);
    }
}

#[test]
fn zero_distance_exactly_when_equal_without_spaces() {
    let cases = [("a b", "ab"), ("CQ DE JA1", "CQDEJA1 "), ("ab", "ba"), ("a", "a "), ("a", "b"), ("", "   ")];
    for (x, y) in cases {
        let same = x.replace(' ', "") == y.replace(' ', "");
        assert_eq!(compare_str(x, y).2 == 0, same, "{x:?} {y:?}");
    }
}

#[test]
fn removing_all_spaces_keeps_the_distance() {
    for (x, y) in [("a bc d", "ab  c"), ("CQ DE", "C Q  D"), ("k itten", "sitt ing"), ("  ", "a")] {
        assert_eq!(compare_str(x, y).2, compare_str(&x.replace(' ', ""), &y.replace(' ', "")).2);
    }
}
