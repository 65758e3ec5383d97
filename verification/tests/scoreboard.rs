use breakout::scoreboard::scoreboard_system;

#[test]
fn zero_renders_as_a_single_digit() {
    assert_eq!(scoreboard_system(0), "0");
}

#[test]
fn single_digits_render_without_padding() {
    assert_eq!(scoreboard_system(7), "7");
    assert_eq!(scoreboard_system(9), "9");
}

#[test]
fn multi_digit_scores_render_most_significant_first() {
    assert_eq!(scoreboard_system(10), "10");
    assert_eq!(scoreboard_system(20), "20");
    assert_eq!(scoreboard_system(105), "105");
    assert_eq!(scoreboard_system(98765), "98765");
}

#[test]
fn the_largest_score_renders_fully() {
    assert_eq!(scoreboard_system(u64::MAX), "18446744073709551615");
}
