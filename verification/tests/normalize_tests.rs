use autotagger::normalize::strip_subtitles;

#[test]
fn normalizes_timing_example() {
    let input = "1\n00:00:01,000 --> 00:00:02,000\nHello <i>world</i>!\n";
    assert_eq!(strip_subtitles(input), "Hello world!");
}

#[test]
fn idempotent_on_example() {
    let input = "1\n00:00:01,000 --> 00:00:02,000\nHello <i>world</i>!\n";
    let once = strip_subtitles(input);
    let twice = strip_subtitles(&once);
    assert_eq!(twice, once);
}

#[test]
fn empty_input_stays_empty() {
    assert_eq!(strip_subtitles(""), "");
}

#[test]
fn markup_only_vanishes() {
    assert_eq!(strip_subtitles("<font color=\"red\"></font>"), "");
}

#[test]
fn drops_index_and_cue_lines() {
    let input = "12\n00:01:00,000 --> 00:01:02,500\nFirst line\n13\n00:01:03,000 --> 00:01:04,000\nSecond line\n";
    assert_eq!(strip_subtitles(input), "First line Second line");
}

#[test]
fn strips_punctuation_noise_and_dashes() {
    assert_eq!(strip_subtitles("- Hello; world's fine"), "Hello worlds fine");
}

#[test]
fn keeps_allowed_punctuation() {
    assert_eq!(strip_subtitles("Wait... what?! Really, yes!"), "Wait... what?! Really, yes!");
}

#[test]
fn collapses_whitespace_runs() {
    assert_eq!(strip_subtitles("a  \n\n  b"), "a b");
}

#[test]
fn carriage_returns_are_noise() {
    assert_eq!(strip_subtitles("Hello\r\nworld"), "Hello world");
}

#[test]
fn unmatched_angle_bracket_is_dropped_as_noise() {
    assert_eq!(strip_subtitles("3 < 4 is true"), "3 4 is true");
}

#[test]
fn digit_only_content_collapses_to_bare_number() {
    // A line with surrounding spaces is not a bare index line, so it
    // survives; the spaces are then trimmed away.
    assert_eq!(strip_subtitles(" 44 "), "44");
}
