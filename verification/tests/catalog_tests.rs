use autotagger::catalog::{
    describe_episode, describe_search_result, describe_season, format_filename, format_u32,
    format_u32_pad2, Results,
};
use autotagger::matching::Episode;

fn episode(season: u32, number: u32, name: &str) -> Episode {
    Episode {
        id: number,
        season_number: season,
        episode_number: number,
        name: String::from(name),
        subtitle_text: String::new(),
    }
}

#[test]
fn decimal_formatting() {
    assert_eq!(format_u32(0), "0");
    assert_eq!(format_u32(7), "7");
    assert_eq!(format_u32(42), "42");
    assert_eq!(format_u32(1000), "1000");
    assert_eq!(format_u32(u32::MAX), "4294967295");
}

#[test]
fn two_digit_padding() {
    assert_eq!(format_u32_pad2(0), "00");
    assert_eq!(format_u32_pad2(5), "05");
    assert_eq!(format_u32_pad2(12), "12");
    assert_eq!(format_u32_pad2(123), "123");
}

#[test]
fn filename_pattern() {
    assert_eq!(format_filename(&episode(1, 2, "Pilot")), "S01E02 - Pilot.mkv");
    assert_eq!(format_filename(&episode(10, 23, "The End")), "S10E23 - The End.mkv");
}

#[test]
fn episode_menu_line() {
    assert_eq!(describe_episode(&episode(1, 4, "Rose")), "Episode 4 - Rose");
}

#[test]
fn season_menu_line() {
    assert_eq!(describe_season("Season 2", 13), "Season 2 (13 episodes)");
}

#[test]
fn search_result_menu_line() {
    assert_eq!(
        describe_search_result(57243, "Doctor Who", Some("2005-03-26")),
        "57243: Doctor Who (2005-03-26)"
    );
    assert_eq!(describe_search_result(57243, "Doctor Who", None), "57243: Doctor Who");
}

#[test]
fn results_wrapper_round_trip() {
    let r = Results::new(vec![3u32, 1, 4]);
    assert_eq!(r.results(), &vec![3u32, 1, 4]);
}
