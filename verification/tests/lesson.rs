use cwbot::lesson_long::{decimal_string, format_reply, koch_chars, koch_text, alpha_text, grouped_text};
use cwbot::{
    end, get_lesson_str, lesson_reply, normalize_text, prob_alpha, prob_koch_method, LessonError,
    LessonLongModeState,
};

const KOCH: &str = "KMURESNAPTLWIJZFOYVG5/Q92H38B47C1D60X";

fn check_layout(text: &str, length: usize, allowed: &str) {
    let chars: Vec<char> = text.chars().collect();
    assert_eq!(chars.len(), length + length / 5);
    let mut letters = 0;
    for (k, c) in chars.iter().enumerate() {
        if k % 6 == 5 {
            assert_eq!(*c, ' ');
        } else {
            assert!(allowed.contains(*c), "{c:?} not allowed");
            letters += 1;
        }
    }
    assert_eq!(letters, length);
}

#[test]
fn alpha_lesson_has_groups_of_five_capitals() {
    for length in [0, 1, 4, 5, 6, 10, 23] {
        let text = get_lesson_str("alpha", length).unwrap();
        check_layout(&text, length, "ABCDEFGHIJKLMNOPQRSTUVWXYZ");
        let text = prob_alpha(length).unwrap();
        check_layout(&text, length, "ABCDEFGHIJKLMNOPQRSTUVWXYZ");
    }
}

#[test]
fn koch_lesson_uses_the_first_level_plus_one_characters() {
    for level in [1usize, 3, 10, 35] {
        let allowed: String = KOCH.chars().take(level + 1).collect();
        let text = get_lesson_str(&format!("koch:{level}"), 17).unwrap();
        check_layout(&text, 17, &allowed);
        let text = get_lesson_str(&format!("lcwo: {level} "), 12).unwrap();
        check_layout(&text, 12, &allowed);
        let text = prob_koch_method(8, &format!("+{level}")).unwrap();
        check_layout(&text, 8, &allowed);
    }
}

#[test]
fn koch_level_errors() {
    assert_eq!(get_lesson_str("koch", 5), Err(LessonError::InvalidLevel));
    assert_eq!(get_lesson_str("koch:x", 5), Err(LessonError::InvalidLevel));
    assert_eq!(get_lesson_str("koch:-1", 5), Err(LessonError::InvalidLevel));
    assert_eq!(get_lesson_str("koch:0", 5), Err(LessonError::LevelOutOfRange));
    assert_eq!(get_lesson_str("koch:36", 5), Err(LessonError::LevelOutOfRange));
    assert_eq!(prob_koch_method(5, "18446744073709551615"), Err(LessonError::LevelOutOfRange));
    assert_eq!(prob_koch_method(5, "99999999999999999999999"), Err(LessonError::InvalidLevel));
    assert_eq!(
        LessonError::LevelOutOfRange.message(),
        "level must be in range 1..36"
    );
    assert_eq!(LessonError::InvalidLevel.message(), "invalid level argument");
}

#[test]
fn unknown_probset_is_refused() {
    assert_eq!(get_lesson_str("call_ja", 5), Err(LessonError::UnknownProbset));
    assert_eq!(get_lesson_str("alpha:3", 5).map(|t| t.len()), Ok(6));
    assert_eq!(get_lesson_str("Alpha", 5), Err(LessonError::UnknownProbset));
    assert_eq!(get_lesson_str("", 5), Err(LessonError::UnknownProbset));
    assert_eq!(
        LessonError::UnknownProbset.message(),
        "unknown probset.\navailable selections are: alpha, koch"
    );
}

#[test]
fn builders_from_draws() {
    assert_eq!(alpha_text(&vec![b'C', b'Q', b'C', b'Q', b'D', b'E']), "CQCQD E");
    assert_eq!(alpha_text(&vec![]), "");
    assert_eq!(koch_text(&vec![0, 1, 2, 3, 4, 36]), "KMURE X");
    assert_eq!(grouped_text(&"ABCDEFGHIJ".chars().collect()), "ABCDE FGHIJ ");
    assert_eq!(koch_chars().iter().collect::<String>(), KOCH);
}

#[test]
fn long_lesson_state_and_end() {
    let st = LessonLongModeState::new("alpha", 10).unwrap();
    check_layout(&st.text, 10, "ABCDEFGHIJKLMNOPQRSTUVWXYZ");
    assert_eq!(end(&st), Ok("Long lesson ended".to_string()));
    assert!(matches!(LessonLongModeState::new("nope", 10), Err(LessonError::UnknownProbset)));
}

#[test]
fn decimal_digits() {
    assert_eq!(decimal_string(0), "0");
    assert_eq!(decimal_string(7), "7");
    assert_eq!(decimal_string(10), "10");
    assert_eq!(decimal_string(1234567890), "1234567890");
    assert_eq!(decimal_string(usize::MAX), usize::MAX.to_string());
}

#[test]
fn normalization() {
    assert_eq!(normalize_text("a b\tc\n"), "ABC");
    assert_eq!(normalize_text("あいう"), "アイウ");
    assert_eq!(normalize_text("ｱ"), "ア");
    assert_eq!(normalize_text("ガ"), "カ\u{3099}");
    assert_eq!(normalize_text(" cq  de "), "CQDE");
}

#[test]
fn reply_format() {
    assert_eq!(
        format_reply(3, "abcd ", "zb de"),
        "Difference: 3\n```diff\n-abcd \n+zb de\n * * *\n```"
    );
}

#[test]
fn reply_to_a_copy() {
    assert_eq!(
        lesson_reply("ABCDE FGHIJ ", "abcde fghik").unwrap(),
        "Difference: 1\n```diff\n-ABCDEFGHIK\n+ABCDEFGHIJ\n          *\n```"
    );
    assert_eq!(
        lesson_reply("KMURE", "kmure").unwrap(),
        "Difference: 0\n```diff\n-KMURE\n+KMURE\n      \n```"
    );
}

#[test]
fn reply_marks_as_many_stars_as_the_distance() {
    for (text, input) in [("ABCDE FGHIJ", "abcde fghik"), ("KMURE", "kmrue"), ("CQ", "")] {
        let reply = lesson_reply(text, input).unwrap();
        let first = reply.lines().next().unwrap();
        let dist: usize = first.trim_start_matches("Difference: ").parse().unwrap();
        let marks = reply.lines().nth(4).unwrap();
        assert_eq!(marks.chars().filter(|c| *c == '*').count(), dist);
    }
}

#[test]
fn koch_level_with_white_space_and_no_length() {
    assert_eq!(get_lesson_str("lcwo: 3 ", 0), Ok(String::new()));
    assert_eq!(get_lesson_str("koch:\u{3000}3\t", 0), Ok(String::new()));
}

#[test]
fn kana_and_width_conversion() {
    assert_eq!(normalize_text("ａｂｃ"), normalize_text("ＡＢＣ"));
    assert_eq!(normalize_text("ゝゞ"), "ヽヽ\u{3099}");
    assert_eq!(normalize_text("xyz"), "XYZ");
}
