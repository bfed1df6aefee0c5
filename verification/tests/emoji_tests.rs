use readme_stats::emoji::to_emoji_number;

#[test]
fn digits_become_keycaps() {
    assert_eq!(to_emoji_number("123"), "1\u{fe0f}\u{20e3}2\u{fe0f}\u{20e3}3\u{fe0f}\u{20e3}");
}

#[test]
fn eight_becomes_the_billiard_ball() {
    assert_eq!(to_emoji_number("8"), "\u{1f3b1}");
    assert_eq!(to_emoji_number("48"), "4\u{fe0f}\u{20e3}\u{1f3b1}");
}

#[test]
fn decimal_point_becomes_a_bullet() {
    assert_eq!(
        to_emoji_number("3.14"),
        "3\u{fe0f}\u{20e3}\u{2022}1\u{fe0f}\u{20e3}4\u{fe0f}\u{20e3}"
    );
}

#[test]
fn unknown_characters_become_question_marks() {
    assert_eq!(to_emoji_number("x"), "\u{2753}");
    assert_eq!(to_emoji_number("-1"), "\u{2753}1\u{fe0f}\u{20e3}");
}

#[test]
fn empty_input_stays_empty() {
    assert_eq!(to_emoji_number(""), "");
}

#[test]
fn all_ten_digits_render() {
    assert_eq!(
        to_emoji_number("0123456789"),
        "0\u{fe0f}\u{20e3}1\u{fe0f}\u{20e3}2\u{fe0f}\u{20e3}3\u{fe0f}\u{20e3}4\u{fe0f}\u{20e3}5\u{fe0f}\u{20e3}6\u{fe0f}\u{20e3}7\u{fe0f}\u{20e3}\u{1f3b1}9\u{fe0f}\u{20e3}"
    );
}
