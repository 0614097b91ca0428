use silvus::card::episode::{
    episode_numbers, find_marker, number_of_marker, numbers_from_markers, EPISODE_PATTERN,
    SEASON_PATTERN,
};

#[test]
fn markers_are_found_anywhere_in_the_stem() {
    assert_eq!(find_marker(SEASON_PATTERN, "Show.S02E05.1080p"), Some("S02".to_string()));
    assert_eq!(find_marker(EPISODE_PATTERN, "Show.S02E05.1080p"), Some("E05".to_string()));
    assert_eq!(find_marker(SEASON_PATTERN, "s1e2"), Some("s1".to_string()));
    assert_eq!(find_marker(EPISODE_PATTERN, "s1e2"), Some("e2".to_string()));
    assert_eq!(find_marker(EPISODE_PATTERN, "e123"), Some("e12".to_string()));
    assert_eq!(find_marker(EPISODE_PATTERN, "episode"), None);
    assert_eq!(find_marker(SEASON_PATTERN, ""), None);
}

#[test]
fn first_marker_wins() {
    assert_eq!(find_marker(EPISODE_PATTERN, "e1 then E22"), Some("e1".to_string()));
    assert_eq!(find_marker(SEASON_PATTERN, "Series s S3 s04"), Some("S3".to_string()));
}

#[test]
fn pattern_that_is_no_pattern_finds_nothing() {
    assert_eq!(find_marker("(", "("), None);
    assert_eq!(find_marker("[", "s01"), None);
}

#[test]
fn marker_carries_a_number() {
    assert_eq!(number_of_marker("S02"), Some(2));
    assert_eq!(number_of_marker("e7"), Some(7));
    assert_eq!(number_of_marker("E99"), Some(99));
    assert_eq!(number_of_marker("x255"), Some(255));
    assert_eq!(number_of_marker("x256"), None);
    assert_eq!(number_of_marker("E"), None);
    assert_eq!(number_of_marker(""), None);
    assert_eq!(number_of_marker("S\u{663}"), None);
}

#[test]
fn season_defaults_to_one() {
    assert_eq!(numbers_from_markers(None, Some("e03".to_string())), Some((1, 3)));
    assert_eq!(numbers_from_markers(Some("S02".to_string()), Some("E05".to_string())), Some((2, 5)));
    assert_eq!(numbers_from_markers(Some("S02".to_string()), None), None);
    assert_eq!(numbers_from_markers(None, None), None);
    assert_eq!(numbers_from_markers(Some("S\u{663}".to_string()), Some("E05".to_string())), Some((1, 5)));
    assert_eq!(numbers_from_markers(Some("S02".to_string()), Some("E\u{663}".to_string())), None);
}

#[test]
fn numbers_come_from_the_name() {
    assert_eq!(episode_numbers("Show.S02E05.1080p"), Some((2, 5)));
    assert_eq!(episode_numbers("s1e2"), Some((1, 2)));
    assert_eq!(episode_numbers("e03"), Some((1, 3)));
    assert_eq!(episode_numbers("Episode 12"), None);
    assert_eq!(episode_numbers("Season 2"), None);
    assert_eq!(episode_numbers("S10E100"), Some((10, 10)));
    assert_eq!(episode_numbers("The Sopranos S01 E02"), Some((1, 2)));
    assert_eq!(episode_numbers("trailer"), None);
    assert_eq!(episode_numbers("Finale6 s3"), Some((3, 6)));
}
