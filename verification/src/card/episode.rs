//! Season and episode numbers, read from the name of a video file.

use vstd::prelude::*;
use vstd::string::*;
use crate::text::{chars_of, digits_value, parse_bounded, parse_number};

verus! {

/// The pattern of a season marker: `s` or `S`, then one digit or two.
pub const SEASON_PATTERN: &'static str = "[Ss]\\d{1,2}";

/// The pattern of an episode marker: `e` or `E`, then one digit or two.
pub const EPISODE_PATTERN: &'static str = "[Ee]\\d{1,2}";

/// `regex::Error`, the reason why a pattern was not compiled. Nothing is
/// known of a value of it.
#[verifier::external_type_specification]
#[verifier::external_body]
pub struct ExRegexError(regex::Error);

/// What a search for the regular expression `pattern` in `text` finds:
/// `None` where `pattern` is no regular expression that can be compiled,
/// `Some(None)` where it matches nowhere in `text`, and else the part of
/// `text` that its first match covers.
pub uninterp spec fn first_match(pattern: Seq<char>, text: Seq<char>) -> Option<Option<Seq<char>>>;

/// What `search` found, as plain text.
pub open spec fn found_text(found: Result<Option<String>, regex::Error>) -> Option<
    Option<Seq<char>>,
> {
    match found {
        Ok(Some(part)) => Some(Some(part@)),
        Ok(None) => Some(None),
        Err(_) => None,
    }
}

/// Compiles `pattern` with `regex::Regex::new` and searches `text` with
/// `regex::Regex::find`; the part that matched is read with
/// `regex::Match::as_str`. The contract gives what comes back a name,
/// `first_match`, and claims only that it depends on the two texts alone.
#[verifier::external_body]
fn search(pattern: &str, text: &str) -> (found: Result<Option<String>, regex::Error>)
    ensures
        found_text(found) == first_match(pattern@, text@),
{
    let compiled = regex::Regex::new(pattern)?;
    Ok(compiled.find(text).map(|part| part.as_str().to_owned()))
}

/// The marker that `search` found.
pub open spec fn marker_of(found: Option<Option<Seq<char>>>) -> Option<Seq<char>> {
    match found {
        Some(Some(part)) => Some(part),
        _ => None,
    }
}

/// The first part of `text` that `pattern` matches, if there is one. A
/// pattern that cannot be compiled matches nothing.
pub fn find_marker(pattern: &str, text: &str) -> (marker: Option<String>)
    ensures
        marker is Some <==> marker_of(first_match(pattern@, text@)) is Some,
        marker matches Some(part) ==> marker_of(first_match(pattern@, text@)) == Some(part@),
{
    match search(pattern, text) {
        Ok(found) => found,
        Err(_) => None,
    }
}

/// The number that a marker carries: what follows its first character, read
/// as a decimal number of at most 255.
pub open spec fn marker_number(marker: Seq<char>) -> Option<u8> {
    if marker.len() == 0 {
        None
    } else {
        match parse_number(marker.drop_first(), 255) {
            Some(n) => Some(n as u8),
            None => None,
        }
    }
}

/// The season and the episode that two markers stand for. Without an
/// episode number there is no result; without a season number the season
/// is 1.
pub open spec fn spec_numbers(season: Option<Seq<char>>, episode: Option<Seq<char>>) -> Option<
    (u8, u8),
> {
    let season_number = match season {
        Some(marker) => marker_number(marker),
        None => None,
    };
    let episode_number = match episode {
        Some(marker) => marker_number(marker),
        None => None,
    };
    match episode_number {
        Some(e) => Some(
            (
                match season_number {
                    Some(s) => s,
                    None => 1u8,
                },
                e,
            ),
        ),
        None => None,
    }
}

/// The season and episode of the file whose name stem is `stem`.
pub open spec fn spec_episode_numbers(stem: Seq<char>) -> Option<(u8, u8)> {
    spec_numbers(
        marker_of(first_match(SEASON_PATTERN@, stem)),
        marker_of(first_match(EPISODE_PATTERN@, stem)),
    )
}

/// The number that `marker` carries.
pub fn number_of_marker(marker: &str) -> (number: Option<u8>)
    ensures
        number == marker_number(marker@),
{
    let chars = chars_of(marker);
    if chars.len() == 0 {
        return None;
    }
    assert(chars@.skip(1) =~= marker@.drop_first());
    match parse_bounded(&chars, 1, 255) {
        Some(n) => Some(n as u8),
        None => None,
    }
}

/// The season and the episode that the markers `season` and `episode`
/// stand for.
pub fn numbers_from_markers(season: Option<String>, episode: Option<String>) -> (numbers: Option<
    (u8, u8),
>)
    ensures
        numbers == spec_numbers(
            match season {
                Some(marker) => Some(marker@),
                None => None,
            },
            match episode {
                Some(marker) => Some(marker@),
                None => None,
            },
        ),
{
    let season_number = match season {
        Some(marker) => number_of_marker(marker.as_str()),
        None => None,
    };
    let episode_number = match episode {
        Some(marker) => number_of_marker(marker.as_str()),
        None => None,
    };
    match episode_number {
        Some(e) => Some(
            (
                match season_number {
                    Some(s) => s,
                    None => 1u8,
                },
                e,
            ),
        ),
        None => None,
    }
}

/// The season and episode that the name stem `stem` of a video file gives.
pub fn episode_numbers(stem: &str) -> (numbers: Option<(u8, u8)>)
    ensures
        numbers == spec_episode_numbers(stem@),
{
    let season = find_marker(SEASON_PATTERN, stem);
    let episode = find_marker(EPISODE_PATTERN, stem);
    numbers_from_markers(season, episode)
}


/// Digits stand for a number below ten for one digit, and below a hundred
/// for two.
pub proof fn lemma_few_digits(s: Seq<char>)
    requires
        s.len() <= 2,
    ensures
        digits_value(s) matches Some(n) ==> n <= 99 && (s.len() <= 1 ==> n <= 9),
{
    reveal_with_fuel(digits_value, 3);
    if s.len() == 2 {
        assert(s.drop_last().len() == 1);
    }
}

/// A marker of three characters at most, as the two patterns match them,
/// carries a number below a hundred.
pub proof fn lemma_short_marker(marker: Seq<char>)
    requires
        marker.len() <= 3,
    ensures
        marker_number(marker) matches Some(n) ==> n <= 99,
{
    if marker.len() > 0 {
        let body = marker.drop_first();
        lemma_few_digits(body);
        if body.len() > 0 && body.first() == '+' {
            lemma_few_digits(body.drop_first());
        }
    }
}

} // verus!
