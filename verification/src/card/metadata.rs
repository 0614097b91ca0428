//! The metadata of a media folder, read from its sidecar files.

use vstd::prelude::*;
use vstd::string::*;
use crate::card::{
    entry_relative, entry_views, is_relative_or_absent, lemma_entry_relative, option_text,
    FolderEntry, FolderEntryView,
};
use crate::text::{
    chars_of, is_word, parse_number, parse_u16, replace_char, replaced, trim, trimmed,
};
use crate::utils::{get_filename, get_filestem, spec_filename, spec_filestem};

verus! {

/// What the sidecar files of a folder say about it.
#[derive(Debug, Clone)]
pub struct Metadata {
    /// The title, empty where no sidecar file gave one.
    pub title: String,
    pub subtitle: Option<String>,
    pub year: Option<u16>,
    pub description: Option<String>,
    /// The path of the thumbnail, relative to the library root.
    pub thumbnail: Option<String>,
}

/// A `Metadata` as plain values.
pub struct MetadataView {
    pub title: Seq<char>,
    pub subtitle: Option<Seq<char>>,
    pub year: Option<u16>,
    pub description: Option<Seq<char>>,
    pub thumbnail: Option<Seq<char>>,
}

impl View for Metadata {
    type V = MetadataView;

    open spec fn view(&self) -> MetadataView {
        MetadataView {
            title: self.title@,
            subtitle: option_text(self.subtitle),
            year: self.year,
            description: option_text(self.description),
            thumbnail: option_text(self.thumbnail),
        }
    }
}

/// The field of the metadata that a sidecar file fills.
#[derive(Debug, Clone, Copy, PartialEq, Eq, Structural)]
pub enum Field {
    Title,
    Subtitle,
    Year,
    Description,
    Thumbnail,
}

/// The field that a sidecar file with the name stem `stem` fills, if any.
/// Small and capital letters differ.
pub open spec fn spec_field(stem: Seq<char>) -> Option<Field> {
    if stem == ".title"@ {
        Some(Field::Title)
    } else if stem == ".subtitle"@ || stem == ".subt"@ {
        Some(Field::Subtitle)
    } else if stem == ".year"@ {
        Some(Field::Year)
    } else if stem == ".description"@ || stem == ".descr"@ {
        Some(Field::Description)
    } else if stem == ".thumbnail"@ {
        Some(Field::Thumbnail)
    } else {
        None
    }
}

/// The year that the trimmed text `text` gives: a decimal number that fits
/// in 16 bits.
pub open spec fn spec_year(text: Option<Seq<char>>) -> Option<u16> {
    match text {
        Some(t) => match parse_number(t, 0xffff) {
            Some(n) => Some(n as u16),
            None => None,
        },
        None => None,
    }
}

/// The text of a sidecar file without the white space around it.
pub open spec fn trimmed_text(text: Option<Seq<char>>) -> Option<Seq<char>> {
    match text {
        Some(t) => Some(trimmed(t)),
        None => None,
    }
}

/// The metadata `meta` after the sidecar file `entry` was read. A title is
/// only replaced by a file that could be read; the other fields take what
/// the file gives, be it nothing.
pub open spec fn with_sidecar(meta: MetadataView, entry: FolderEntryView, base: Seq<char>) -> MetadataView {
    let text = trimmed_text(entry.text);
    match spec_field(spec_filestem(entry.path)) {
        Some(Field::Title) => match text {
            Some(title) => MetadataView { title, ..meta },
            None => meta,
        },
        Some(Field::Subtitle) => MetadataView { subtitle: text, ..meta },
        Some(Field::Year) => MetadataView { year: spec_year(text), ..meta },
        Some(Field::Description) => MetadataView { description: text, ..meta },
        Some(Field::Thumbnail) => MetadataView {
            thumbnail: entry_relative(entry, base),
            ..meta
        },
        None => meta,
    }
}

/// The metadata before any sidecar file was read.
pub open spec fn no_metadata() -> MetadataView {
    MetadataView {
        title: Seq::empty(),
        subtitle: None,
        year: None,
        description: None,
        thumbnail: None,
    }
}

/// The metadata after the sidecar files `entries` were read in order: a
/// later file overrides an earlier one that fills the same field.
pub open spec fn spec_metadata(entries: Seq<FolderEntryView>, base: Seq<char>) -> MetadataView
    decreases entries.len(),
{
    if entries.len() == 0 {
        no_metadata()
    } else {
        with_sidecar(spec_metadata(entries.drop_last(), base), entries.last(), base)
    }
}

/// The title of a card: the title that the metadata gave, and where it is
/// empty the name of the folder with `-` and `_` turned into spaces. The
/// name is taken whole: a dot in it ends nothing.
pub open spec fn spec_title(title: Seq<char>, folder: Seq<char>) -> Seq<char> {
    if title.len() == 0 {
        replaced(replaced(spec_filename(folder), '-', ' '), '_', ' ')
    } else {
        title
    }
}

/// The field that a sidecar file with the name stem `stem` fills, if any.
pub fn field_of(stem: &str) -> (field: Option<Field>)
    ensures
        field == spec_field(stem@),
{
    let chars = chars_of(stem);
    if is_word(&chars, ".title") {
        Some(Field::Title)
    } else if is_word(&chars, ".subtitle") || is_word(&chars, ".subt") {
        Some(Field::Subtitle)
    } else if is_word(&chars, ".year") {
        Some(Field::Year)
    } else if is_word(&chars, ".description") || is_word(&chars, ".descr") {
        Some(Field::Description)
    } else if is_word(&chars, ".thumbnail") {
        Some(Field::Thumbnail)
    } else {
        None
    }
}

/// Whether the text of the file at `path` is read for its metadata: it is
/// for every field but the thumbnail, which is the file itself.
pub fn reads_text(path: &str) -> (reads: bool)
    ensures
        reads == match spec_field(spec_filestem(path@)) {
            Some(Field::Thumbnail) => false,
            Some(_) => true,
            None => false,
        },
{
    let stem = get_filestem(path);
    match field_of(stem.as_str()) {
        Some(Field::Thumbnail) => false,
        Some(_) => true,
        None => false,
    }
}

/// The text of a sidecar file without the white space around it.
pub fn trim_text(text: &Option<String>) -> (r: Option<String>)
    ensures
        option_text(r) == trimmed_text(option_text(*text)),
{
    match text {
        Some(t) => Some(trim(t.as_str())),
        None => None,
    }
}

/// The year that the trimmed text `text` gives.
pub fn year_of(text: &Option<String>) -> (year: Option<u16>)
    ensures
        year == spec_year(option_text(*text)),
{
    match text {
        Some(t) => parse_u16(t.as_str()),
        None => None,
    }
}

impl Metadata {
    /// Reads the sidecar files `dot_fps` of a folder in the library at
    /// `base`, in order.
    pub fn read(base: &str, dot_fps: &Vec<FolderEntry>) -> (meta: Metadata)
        ensures
            meta@ == spec_metadata(entry_views(dot_fps@), base@),
    {
        let mut meta = Metadata {
            title: String::new(),
            subtitle: None,
            year: None,
            description: None,
            thumbnail: None,
        };
        let ghost entries = entry_views(dot_fps@);
        let mut i: usize = 0;
        while i < dot_fps.len()
            invariant
                i <= dot_fps.len(),
                entries == entry_views(dot_fps@),
                meta@ == spec_metadata(entries.take(i as int), base@),
            decreases dot_fps.len() - i,
        {
            let entry = &dot_fps[i];
            proof {
                assert(entries.take(i + 1).drop_last() =~= entries.take(i as int));
                assert(entries.take(i + 1).last() == entry@);
            }
            let stem = get_filestem(entry.path.as_str());
            match field_of(stem.as_str()) {
                Some(Field::Title) => {
                    match trim_text(&entry.text) {
                        Some(title) => {
                            meta.title = title;
                        },
                        None => {},
                    }
                },
                Some(Field::Subtitle) => {
                    meta.subtitle = trim_text(&entry.text);
                },
                Some(Field::Year) => {
                    let text = trim_text(&entry.text);
                    meta.year = year_of(&text);
                },
                Some(Field::Description) => {
                    meta.description = trim_text(&entry.text);
                },
                Some(Field::Thumbnail) => {
                    meta.thumbnail = entry.relative(base);
                },
                None => {},
            }
            i += 1;
        }
        assert(entries.take(i as int) =~= entries);
        meta
    }
}

/// The title of a card in a folder at `path`, where the metadata gave
/// `title`.
pub fn title_or_folder_name(title: String, path: &str) -> (r: String)
    ensures
        r@ == spec_title(title@, path@),
        spec_filename(path@).len() > 0 ==> r@.len() > 0,
{
    let given = chars_of(title.as_str());
    if given.len() == 0 {
        let name = get_filename(path);
        let spaced = replace_char(name.as_str(), '-', ' ');
        replace_char(spaced.as_str(), '_', ' ')
    } else {
        title
    }
}

/// The thumbnail that the sidecar files give is a relative path.
pub proof fn lemma_thumbnail_is_relative(dots: Seq<FolderEntryView>, base: Seq<char>)
    ensures
        is_relative_or_absent(spec_metadata(dots, base).thumbnail),
    decreases dots.len(),
{
    if dots.len() > 0 {
        lemma_thumbnail_is_relative(dots.drop_last(), base);
        let last = dots.last();
        lemma_entry_relative(last, base);
    }
}


/// A sidecar file that fills no field leaves the metadata as they are,
/// wherever among the files it stands.
pub proof fn lemma_unknown_sidecar_changes_nothing(
    entries: Seq<FolderEntryView>,
    base: Seq<char>,
    at: int,
)
    requires
        0 <= at < entries.len(),
        spec_field(spec_filestem(entries[at].path)) is None,
    ensures
        spec_metadata(entries.remove(at), base) == spec_metadata(entries, base),
    decreases entries.len(),
{
    if at == entries.len() - 1 {
        assert(entries.remove(at) =~= entries.drop_last());
    } else {
        let short = entries.drop_last();
        lemma_unknown_sidecar_changes_nothing(short, base, at);
        assert(entries.remove(at).drop_last() =~= short.remove(at));
        assert(entries.remove(at).last() == entries.last());
    }
}

} // verus!
