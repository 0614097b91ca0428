//! Cutting a description and the address of a picture out of the text of a
//! page, by the texts that stand before and behind them.

use vstd::prelude::*;
use vstd::string::*;
use crate::config::Config;
use crate::text::{chars_of, same_chars, string_of};

verus! {

/// Whether `text` holds `pattern` at the place `at`.
pub open spec fn occurs_at(text: Seq<char>, pattern: Seq<char>, at: int) -> bool {
    &&& 0 <= at
    &&& at + pattern.len() <= text.len()
    &&& text.subrange(at, at + pattern.len()) == pattern
}

/// The first place at or behind `from` at which `text` holds `pattern`.
pub open spec fn first_occurrence(text: Seq<char>, pattern: Seq<char>, from: int) -> Option<int>
    decreases text.len() - from + 1,
{
    if from < 0 || from + pattern.len() > text.len() {
        None
    } else if occurs_at(text, pattern, from) {
        Some(from)
    } else {
        first_occurrence(text, pattern, from + 1)
    }
}

/// Why nothing was cut out of a text.
#[derive(Debug, Clone, Copy, PartialEq, Eq, Structural)]
pub enum CutError {
    /// The text does not hold what stands before the part.
    StartNotFound,
    /// The text does not hold, behind the start, what stands behind the
    /// part.
    EndNotFound,
}

/// The part of `text` that begins at the first `start` and ends before the
/// first `end` at or behind its beginning. The part begins with `start`
/// where `keep_start` holds, and behind it where not.
pub open spec fn spec_cut(
    text: Seq<char>,
    start: Seq<char>,
    end: Seq<char>,
    keep_start: bool,
) -> Result<Seq<char>, CutError> {
    match first_occurrence(text, start, 0) {
        None => Err(CutError::StartNotFound),
        Some(found) => {
            let from = if keep_start {
                found
            } else {
                found + start.len()
            };
            match first_occurrence(text, end, from) {
                None => Err(CutError::EndNotFound),
                Some(to) => Ok(text.subrange(from, to)),
            }
        },
    }
}

/// What `first_occurrence` finds lies within the text, at or behind the
/// place where the search began, and holds the pattern; no place between
/// the two holds it.
pub proof fn lemma_first_occurrence(text: Seq<char>, pattern: Seq<char>, from: int)
    ensures
        match first_occurrence(text, pattern, from) {
            Some(at) => from <= at && occurs_at(text, pattern, at) && forall|k: int|
                from <= k < at ==> !occurs_at(text, pattern, k),
            None => forall|k: int| 0 <= from <= k ==> !occurs_at(text, pattern, k),
        },
    decreases text.len() - from + 1,
{
    if from < 0 || from + pattern.len() > text.len() {
    } else if occurs_at(text, pattern, from) {
    } else {
        lemma_first_occurrence(text, pattern, from + 1);
    }
}

/// The first place at or behind `from` at which `text` holds `pattern`.
pub fn find_from(text: &Vec<char>, pattern: &Vec<char>, from: usize) -> (found: Option<usize>)
    ensures
        match found {
            Some(at) => first_occurrence(text@, pattern@, from as int) == Some(at as int) && from
                <= at && at + pattern.len() <= text.len(),
            None => first_occurrence(text@, pattern@, from as int) is None,
        },
{
    if pattern.len() > text.len() || from > text.len() - pattern.len() {
        return None;
    }
    let last: usize = text.len() - pattern.len();
    let mut at: usize = from;
    loop
        invariant
            from <= at <= last,
            last == text.len() - pattern.len(),
            first_occurrence(text@, pattern@, from as int) == first_occurrence(
                text@,
                pattern@,
                at as int,
            ),
        decreases last - at,
    {
        if same_chars(text, at, at + pattern.len(), pattern) {
            return Some(at);
        }
        if at == last {
            assert(first_occurrence(text@, pattern@, at + 1) is None);
            return None;
        }
        at += 1;
    }
}

/// The part of `text` that begins at the first `start` and ends before the
/// first `end` at or behind its beginning.
pub fn cut(text: &str, start: &str, end: &str, keep_start: bool) -> (part: Result<String, CutError>)
    ensures
        match part {
            Ok(p) => spec_cut(text@, start@, end@, keep_start) == Ok::<Seq<char>, CutError>(p@),
            Err(e) => spec_cut(text@, start@, end@, keep_start) == Err::<Seq<char>, CutError>(e),
        },
{
    let chars = chars_of(text);
    let before = chars_of(start);
    let behind = chars_of(end);
    let found = match find_from(&chars, &before, 0) {
        Some(found) => found,
        None => {
            return Err(CutError::StartNotFound);
        },
    };
    proof {
        lemma_first_occurrence(chars@, before@, 0);
        assert(occurs_at(chars@, before@, found as int));
    }
    let from: usize = if keep_start {
        found
    } else {
        found + before.len()
    };
    let to = match find_from(&chars, &behind, from) {
        Some(to) => to,
        None => {
            return Err(CutError::EndNotFound);
        },
    };
    proof {
        lemma_first_occurrence(chars@, behind@, from as int);
        assert(occurs_at(chars@, behind@, to as int));
    }
    Ok(string_of(&chars, from, to))
}

/// The description on the page `page` of a movie.
pub fn description_of(page: &str, config: &Config) -> (r: Result<String, CutError>)
    ensures
        match r {
            Ok(p) => spec_cut(
                page@,
                config@.imdb_description_start_match,
                config@.imdb_description_end_match,
                false,
            ) == Ok::<Seq<char>, CutError>(p@),
            Err(e) => spec_cut(
                page@,
                config@.imdb_description_start_match,
                config@.imdb_description_end_match,
                false,
            ) == Err::<Seq<char>, CutError>(e),
        },
{
    cut(
        page,
        config.imdb_description_start_match.as_str(),
        config.imdb_description_end_match.as_str(),
        false,
    )
}

/// The address of the page that shows the picture of a movie, as the page
/// `page` of the movie gives it: the address of the database, then the
/// link that the page holds.
pub fn image_page_of(page: &str, config: &Config) -> (r: Result<String, CutError>)
    ensures
        match r {
            Ok(address) => match spec_cut(
                page@,
                config@.imdb_image_redirect_start_match,
                config@.imdb_image_redirect_end_match,
                false,
            ) {
                Ok(link) => address@ == config@.imdb_url + link,
                Err(_) => false,
            },
            Err(e) => spec_cut(
                page@,
                config@.imdb_image_redirect_start_match,
                config@.imdb_image_redirect_end_match,
                false,
            ) == Err::<Seq<char>, CutError>(e),
        },
{
    match cut(
        page,
        config.imdb_image_redirect_start_match.as_str(),
        config.imdb_image_redirect_end_match.as_str(),
        false,
    ) {
        Ok(link) => {
            let mut address = String::from_str(config.imdb_url.as_str());
            address.append(link.as_str());
            Ok(address)
        },
        Err(e) => Err(e),
    }
}

/// The address of the picture on the page `page` that shows it. The
/// address begins with the text that it is found by.
pub fn image_of(page: &str, config: &Config) -> (r: Result<String, CutError>)
    ensures
        match r {
            Ok(p) => spec_cut(
                page@,
                config@.imdb_image_start_match,
                config@.imdb_image_end_match,
                true,
            ) == Ok::<Seq<char>, CutError>(p@),
            Err(e) => spec_cut(
                page@,
                config@.imdb_image_start_match,
                config@.imdb_image_end_match,
                true,
            ) == Err::<Seq<char>, CutError>(e),
        },
{
    cut(page, config.imdb_image_start_match.as_str(), config.imdb_image_end_match.as_str(), true)
}

} // verus!
