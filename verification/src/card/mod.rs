//! The cards of the catalogue, the files they are made from, and the rule
//! that decides which card a folder becomes.

pub mod cards;
pub mod episode;
pub mod metadata;
pub mod movie;
pub mod other;
pub mod show;

use vstd::prelude::*;
use vstd::string::*;
use vstd::std_specs::convert::FromSpecImpl;
use crate::card::movie::{movie_html, spec_movie, Movie, MovieView};
use crate::card::other::{other_html, Other, OtherView};
use crate::card::episode::spec_episode_numbers;
use crate::card::metadata::lemma_thumbnail_is_relative;
use crate::card::show::{
    lemma_show_holds_the_episodes, lemma_show_is_wf, passed_videos, show_html, spec_episode,
    spec_show, EpisodeView, Show, ShowView,
};
use crate::text::{chars_of, decimal, is_word, to_decimal};
use crate::utils::{
    get_extension, get_filename, get_rel_path_string, is_relative_path, is_within,
    lemma_relative_is_not_absolute, spec_extension, spec_filename, spec_filestem, spec_relative,
};

verus! {

/// The size of a file in whole megabytes.
#[derive(Debug, Clone, Copy)]
pub struct FileSize(pub u32);

/// The number of whole megabytes in `bytes`, held at the largest value of
/// `u32` where it would not fit.
pub open spec fn whole_megabytes(bytes: u64) -> u32 {
    if bytes / 1_000_000 > u32::MAX {
        u32::MAX
    } else {
        (bytes / 1_000_000) as u32
    }
}

impl From<u64> for FileSize {
    /// The size of a file of `value` bytes.
    fn from(value: u64) -> (size: FileSize) {
        let whole: u64 = value / 1_000_000;
        if whole > 0xffff_ffff {
            FileSize(u32::MAX)
        } else {
            FileSize(whole as u32)
        }
    }
}

impl FromSpecImpl<u64> for FileSize {
    open spec fn obeys_from_spec() -> bool {
        true
    }

    open spec fn from_spec(value: u64) -> FileSize {
        FileSize(whole_megabytes(value))
    }
}

/// One direct child of a media folder, as a scan of the folder found it.
#[derive(Debug, Clone)]
pub struct FolderEntry {
    /// The path of the child. Where the path is no valid text, the nearest
    /// text to it.
    pub path: String,
    /// Whether the path of the child, as seen from the library root, is
    /// valid text. A child whose path is not has no relative path.
    pub is_text: bool,
    /// Whether the child is a regular file.
    pub is_file: bool,
    /// The length of the file in bytes, where it could be read.
    pub size: Option<u64>,
    /// What the file holds, where it could be read as text.
    pub text: Option<String>,
}

/// A `FolderEntry` as plain values.
pub struct FolderEntryView {
    pub path: Seq<char>,
    pub is_text: bool,
    pub is_file: bool,
    pub size: Option<u64>,
    pub text: Option<Seq<char>>,
}

/// The characters of a string that may be absent.
pub open spec fn option_text(text: Option<String>) -> Option<Seq<char>> {
    match text {
        Some(s) => Some(s@),
        None => None,
    }
}

impl View for FolderEntry {
    type V = FolderEntryView;

    open spec fn view(&self) -> FolderEntryView {
        FolderEntryView {
            path: self.path@,
            is_text: self.is_text,
            is_file: self.is_file,
            size: self.size,
            text: option_text(self.text),
        }
    }
}

/// The path of `entry` as seen from `base`, with `/` between its segments.
/// There is none where the path is no valid text, or does not lie within
/// `base`.
pub open spec fn entry_relative(entry: FolderEntryView, base: Seq<char>) -> Option<Seq<char>> {
    if entry.is_text {
        spec_relative(entry.path, base)
    } else {
        None
    }
}

impl FolderEntry {
    /// The path of the entry as seen from `base`.
    pub fn relative(&self, base: &str) -> (relative: Option<String>)
        ensures
            option_text(relative) == entry_relative(self@, base@),
            relative matches Some(r) ==> is_relative_path(r@),
    {
        if self.is_text {
            get_rel_path_string(self.path.as_str(), base)
        } else {
            None
        }
    }
}

/// A path that an entry has as seen from a directory is a relative path.
pub proof fn lemma_entry_relative(entry: FolderEntryView, base: Seq<char>)
    ensures
        is_relative_or_absent(entry_relative(entry, base)),
{
    if entry.is_text && is_within(entry.path, base) {
        lemma_relative_is_not_absolute(entry.path, base);
    }
}

/// The entries of a folder as plain values.
pub open spec fn entry_views(entries: Seq<FolderEntry>) -> Seq<FolderEntryView> {
    Seq::new(entries.len(), |i: int| entries[i]@)
}

/// Why a folder did not become a card.
#[derive(Debug, Clone, Copy, PartialEq, Eq, Structural)]
pub enum CardError {
    /// The folder holds no video file.
    NoVideoFile,
    /// The length of the video file could not be read.
    UnreadableSize,
    /// The video file has no path as seen from the library root: it does
    /// not lie within the root, or its path is no valid text.
    OutsideRoot,
}

impl CardError {
    /// The error in words.
    pub open spec fn spec_message(self) -> Seq<char> {
        match self {
            CardError::NoVideoFile => "no video file in the folder"@,
            CardError::UnreadableSize => "the size of the video file cannot be read"@,
            CardError::OutsideRoot => "the video file is not within the library root"@,
        }
    }

    /// The error in words.
    pub fn message(&self) -> (text: &'static str)
        ensures
            text@ == self.spec_message(),
    {
        match self {
            CardError::NoVideoFile => "no video file in the folder",
            CardError::UnreadableSize => "the size of the video file cannot be read",
            CardError::OutsideRoot => "the video file is not within the library root",
        }
    }
}

/// Why a child of a media folder takes no part in the card of the folder.
#[derive(Debug, Clone, Copy, PartialEq, Eq, Structural)]
pub enum Passed {
    /// The child is no regular file.
    NotAFile,
    /// The length of the video file could not be read.
    UnreadableSize,
    /// The video file has no path as seen from the library root: it does
    /// not lie within the root, or its path is no valid text.
    OutsideRoot,
    /// The name of the video file gives no episode number.
    NoEpisodeNumber,
}

impl Passed {
    /// The reason in words.
    pub fn message(&self) -> (text: &'static str)
        ensures
            text@ == match *self {
                Passed::NotAFile => "Found sub-directory, will be ignored"@,
                Passed::UnreadableSize => "the size of the video file cannot be read"@,
                Passed::OutsideRoot => "the video file is not within the library root"@,
                Passed::NoEpisodeNumber => "Failed to match episode in filename"@,
            },
    {
        match self {
            Passed::NotAFile => "Found sub-directory, will be ignored",
            Passed::UnreadableSize => "the size of the video file cannot be read",
            Passed::OutsideRoot => "the video file is not within the library root",
            Passed::NoEpisodeNumber => "Failed to match episode in filename",
        }
    }
}

/// A child of a media folder that was passed over, with the reason.
#[derive(Debug)]
pub struct Note {
    /// The path of the child.
    pub path: String,
    pub reason: Passed,
}

/// A `Note` as plain values.
pub struct NoteView {
    pub path: Seq<char>,
    pub reason: Passed,
}

impl View for Note {
    type V = NoteView;

    open spec fn view(&self) -> NoteView {
        NoteView { path: self.path@, reason: self.reason }
    }
}

/// Notes as plain values.
pub open spec fn note_views(notes: Seq<Note>) -> Seq<NoteView> {
    Seq::new(notes.len(), |i: int| notes[i]@)
}

/// What a file in a media folder is taken for.
#[derive(Debug, Clone, Copy, PartialEq, Eq, Structural)]
pub enum FileKind {
    /// A video: its extension is one of the video extensions.
    Video,
    /// A file that carries metadata: its name starts with a dot.
    Sidecar,
    /// Any other file.
    Other,
}

/// Whether the lower-cased extension `extension` is that of a video file.
pub open spec fn is_video_extension(extension: Seq<char>) -> bool {
    ||| extension == "webm"@
    ||| extension == "mkv"@
    ||| extension == "vob"@
    ||| extension == "ogg"@
    ||| extension == "ogv"@
    ||| extension == "avi"@
    ||| extension == "mov"@
    ||| extension == "qt"@
    ||| extension == "m4v"@
    ||| extension == "mp4"@
}

/// What the file at `path` is taken for. The extension decides first: a
/// video whose name starts with a dot is a video.
pub open spec fn spec_file_kind(path: Seq<char>) -> FileKind {
    if is_video_extension(spec_extension(path)) {
        FileKind::Video
    } else if spec_filename(path).len() > 0 && spec_filename(path).first() == '.' {
        FileKind::Sidecar
    } else {
        FileKind::Other
    }
}

/// What the file at `path` is taken for.
pub fn file_kind(path: &str) -> (kind: FileKind)
    ensures
        kind == spec_file_kind(path@),
{
    let extension = get_extension(path);
    let ext = chars_of(extension.as_str());
    if is_word(&ext, "webm") || is_word(&ext, "mkv") || is_word(&ext, "vob") || is_word(&ext, "ogg")
        || is_word(&ext, "ogv") || is_word(&ext, "avi") || is_word(&ext, "mov") || is_word(
        &ext,
        "qt",
    ) || is_word(&ext, "m4v") || is_word(&ext, "mp4") {
        return FileKind::Video;
    }
    let name = get_filename(path);
    let name_chars = chars_of(name.as_str());
    if name_chars.len() > 0 && name_chars[0] == '.' {
        FileKind::Sidecar
    } else {
        FileKind::Other
    }
}

/// The text for a value that may be absent: the value between `pre` and
/// `post`, or `alt` in its place.
pub open spec fn shown(
    input: Option<Seq<char>>,
    pre: Seq<char>,
    post: Seq<char>,
    alt: Seq<char>,
) -> Seq<char> {
    match input {
        Some(value) => pre + value + post,
        None => alt,
    }
}

/// The text for a value that may be absent: the value between `pre` and
/// `post`, or `alt` in its place.
pub fn display(input: Option<&str>, pre: &str, post: &str, alt: &str) -> (text: String)
    ensures
        text@ == shown(
            match input {
                Some(value) => Some(value@),
                None => None,
            },
            pre@,
            post@,
            alt@,
        ),
{
    match input {
        Some(value) => {
            let mut text = String::from_str(pre);
            text.append(value);
            text.append(post);
            text
        },
        None => String::from_str(alt),
    }
}

/// Whether a path that may be absent is relative where it is there.
pub open spec fn is_relative_or_absent(path: Option<Seq<char>>) -> bool {
    match path {
        Some(p) => is_relative_path(p),
        None => true,
    }
}

/// How the fragment for a movie or a show begins, up to the place of the
/// thumbnail below the public prefix.
pub const CARD_OPEN: &'static str =
    "<div class=\"card\">\n    <div class=\"card-header\">\n        <div class=\"card-header-thumbnail\"><img src=\"/res/";

/// What stands between the thumbnail and the title.
pub const CARD_TITLE_OPEN: &'static str =
    "\" /></div>\n        <div class=\"card-header-box\">\n            <div class=\"card-header-box-title\"><h2>";

/// The path, below the public prefix, of the picture shown for a card
/// without a thumbnail.
pub const DEFAULT_THUMBNAIL: &'static str = ".assets/default_thumbnail.png";

/// The text shown for a card without a year.
pub const NO_YEAR: &'static str = "????";

/// The text shown for a card without a description.
pub const NO_DESCRIPTION: &'static str = "No description provided.";

/// The year as it is shown: in decimal notation, or `NO_YEAR`.
pub open spec fn shown_year(year: Option<u16>) -> Seq<char> {
    match year {
        Some(y) => decimal(y as nat),
        None => NO_YEAR@,
    }
}

/// A string that may be absent, borrowed.
pub fn borrowed(text: &Option<String>) -> (r: Option<&str>)
    ensures
        match r {
            Some(s) => option_text(*text) == Some(s@),
            None => option_text(*text) is None,
        },
{
    match text {
        Some(s) => Some(s.as_str()),
        None => None,
    }
}

/// The year as it is shown.
pub fn year_text(year: Option<u16>) -> (text: String)
    ensures
        text@ == shown_year(year),
{
    match year {
        Some(y) => to_decimal(y as u64),
        None => String::from_str(NO_YEAR),
    }
}

/// The record of one media folder.
#[derive(Debug)]
pub enum Card {
    Movie(Movie),
    Show(Show),
    Other(Other),
}

/// A `Card` as plain values.
pub enum CardView {
    Movie(MovieView),
    Show(ShowView),
    Other(OtherView),
}

impl View for Card {
    type V = CardView;

    open spec fn view(&self) -> CardView {
        match *self {
            Card::Movie(movie) => CardView::Movie(movie@),
            Card::Show(show) => CardView::Show(show@),
            Card::Other(other) => CardView::Other(other@),
        }
    }
}

impl CardView {
    /// The title of the card.
    pub open spec fn title(self) -> Seq<char> {
        match self {
            CardView::Movie(movie) => movie.title,
            CardView::Show(show) => show.title,
            CardView::Other(other) => other.title,
        }
    }

    /// Whether the card is as every card is: its paths are relative paths,
    /// and the episodes of a show are in ascending order.
    pub open spec fn wf(self) -> bool {
        match self {
            CardView::Movie(movie) => movie.wf(),
            CardView::Show(show) => show.wf(),
            CardView::Other(other) => other.wf(),
        }
    }

    /// The HTML fragment for the card.
    pub open spec fn html(self) -> Seq<char> {
        match self {
            CardView::Movie(movie) => movie_html(movie),
            CardView::Show(show) => show_html(show),
            CardView::Other(other) => other_html(other),
        }
    }
}

/// The regular files among `entries` that are taken for `kind`, in the
/// order of `entries`.
pub open spec fn of_kind(entries: Seq<FolderEntryView>, kind: FileKind) -> Seq<FolderEntryView>
    decreases entries.len(),
{
    if entries.len() == 0 {
        Seq::empty()
    } else if entries.last().is_file && spec_file_kind(entries.last().path) == kind {
        of_kind(entries.drop_last(), kind).push(entries.last())
    } else {
        of_kind(entries.drop_last(), kind)
    }
}

/// The card that the folder `path` of the library at `base` becomes, where
/// `entries` are its direct children. The number of its video files
/// decides: none gives no card, one a movie, two or more a show.
pub open spec fn spec_card(
    base: Seq<char>,
    path: Seq<char>,
    entries: Seq<FolderEntryView>,
) -> Result<CardView, CardError> {
    let videos = of_kind(entries, FileKind::Video);
    let dots = of_kind(entries, FileKind::Sidecar);
    if videos.len() == 0 {
        Err(CardError::NoVideoFile)
    } else if videos.len() == 1 {
        match spec_movie(base, path, videos.last(), dots) {
            Ok(movie) => Ok(CardView::Movie(movie)),
            Err(e) => Err(e),
        }
    } else {
        Ok(CardView::Show(spec_show(base, path, videos, dots)))
    }
}

/// A note for each child among `entries` that is no regular file, in the
/// order of `entries`.
pub open spec fn not_files(entries: Seq<FolderEntryView>) -> Seq<NoteView>
    decreases entries.len(),
{
    if entries.len() == 0 {
        Seq::empty()
    } else if !entries.last().is_file {
        not_files(entries.drop_last()).push(
            NoteView { path: entries.last().path, reason: Passed::NotAFile },
        )
    } else {
        not_files(entries.drop_last())
    }
}

/// The children of a folder in the library at `base` that take no part in
/// its card, where `entries` are its direct children: first those that are
/// no regular files, then, where the folder is a show, the video files that
/// are no episodes.
pub open spec fn spec_notes(base: Seq<char>, entries: Seq<FolderEntryView>) -> Seq<NoteView> {
    let videos = of_kind(entries, FileKind::Video);
    if videos.len() >= 2 {
        not_files(entries) + passed_videos(videos, base)
    } else {
        not_files(entries)
    }
}

/// The result of building a card, as plain values.
pub open spec fn card_result(r: Result<Card, CardError>) -> Result<CardView, CardError> {
    match r {
        Ok(card) => Ok(card@),
        Err(e) => Err(e),
    }
}

impl Card {
    /// Whether the card is as every card is.
    pub open spec fn wf(&self) -> bool {
        self@.wf()
    }

    /// The title of the card.
    pub fn get_title(&self) -> (title: &str)
        ensures
            title@ == self@.title(),
    {
        match self {
            Card::Movie(movie) => movie.title(),
            Card::Show(show) => show.title(),
            Card::Other(other) => other.title(),
        }
    }

    /// The card for the folder `path` of the library at `base`, of which
    /// `entries` are the direct children. Children that are no regular
    /// files are passed over.
    pub fn from_path(base: &str, path: &str, entries: Vec<FolderEntry>) -> (r: Result<
        Card,
        CardError,
    >)
        ensures
            card_result(r) == spec_card(base@, path@, entry_views(entries@)),
            r matches Ok(card) ==> card.wf() && (spec_filename(path@).len() > 0
                ==> card@.title().len() > 0),
            of_kind(entry_views(entries@), FileKind::Video).len() == 0 ==> r == Err::<
                Card,
                CardError,
            >(CardError::NoVideoFile),
            of_kind(entry_views(entries@), FileKind::Video).len() >= 2 ==> r is Ok
                && r->Ok_0 is Show,
            of_kind(entry_views(entries@), FileKind::Video).len() == 1 ==> match r {
                Ok(card) => card is Movie && of_kind(
                    entry_views(entries@),
                    FileKind::Video,
                ).last().size is Some && entry_relative(
                    of_kind(entry_views(entries@), FileKind::Video).last(),
                    base@,
                ) == Some(card@->Movie_0.filepath),
                Err(e) => e == if of_kind(entry_views(entries@), FileKind::Video).last().size
                    is None {
                    CardError::UnreadableSize
                } else {
                    CardError::OutsideRoot
                },
            },
    {
        Card::from_path_noting(base, path, entries).0
    }

    /// The card for the folder `path` of the library at `base`, of which
    /// `entries` are the direct children, and beside it a note for each
    /// child that took no part in it.
    pub fn from_path_noting(base: &str, path: &str, entries: Vec<FolderEntry>) -> (r: (
        Result<Card, CardError>,
        Vec<Note>,
    ))
        ensures
            card_result(r.0) == spec_card(base@, path@, entry_views(entries@)),
            r.0 matches Ok(card) ==> card.wf() && (spec_filename(path@).len() > 0
                ==> card@.title().len() > 0),
            note_views(r.1@) == spec_notes(base@, entry_views(entries@)),
    {
        let ghost all = entry_views(entries@);
        let mut vid_fps: Vec<FolderEntry> = Vec::new();
        let mut dot_fps: Vec<FolderEntry> = Vec::new();
        let mut otr_fps: Vec<FolderEntry> = Vec::new();
        let mut notes: Vec<Note> = Vec::new();
        for entry in it: entries
            invariant
                it.seq() == entries@,
                all == entry_views(entries@),
                entry_views(vid_fps@) == of_kind(all.take(it.index() as int), FileKind::Video),
                entry_views(dot_fps@) == of_kind(all.take(it.index() as int), FileKind::Sidecar),
                note_views(notes@) == not_files(all.take(it.index() as int)),
        {
            proof {
                let i = it.index() as int;
                assert(all.take(i + 1).drop_last() =~= all.take(i));
                assert(all.take(i + 1).last() == entry@);
            }
            let ghost videos = entry_views(vid_fps@);
            let ghost dots = entry_views(dot_fps@);
            let ghost noted = note_views(notes@);
            if entry.is_file {
                match file_kind(entry.path.as_str()) {
                    FileKind::Video => {
                        vid_fps.push(entry);
                        assert(entry_views(vid_fps@) =~= videos.push(entry@));
                    },
                    FileKind::Sidecar => {
                        dot_fps.push(entry);
                        assert(entry_views(dot_fps@) =~= dots.push(entry@));
                    },
                    FileKind::Other => {
                        otr_fps.push(entry);
                    },
                }
            } else {
                let note = Note { path: entry.path, reason: Passed::NotAFile };
                notes.push(note);
                assert(note_views(notes@) =~= noted.push(note@));
            }
        }
        assert(all.take(all.len() as int) =~= all);
        if vid_fps.len() == 0 {
            (Err(CardError::NoVideoFile), notes)
        } else if vid_fps.len() == 1 {
            assert(entry_views(vid_fps@).last() == vid_fps@.last()@);
            match Movie::from_paths(base, path, vid_fps, dot_fps, otr_fps) {
                Ok(movie) => (Ok(Card::Movie(movie)), notes),
                Err(e) => (Err(e), notes),
            }
        } else {
            let ghost noted = note_views(notes@);
            let (show, mut passed) = Show::from_paths_noting(base, path, vid_fps, dot_fps, otr_fps);
            let ghost added = note_views(passed@);
            notes.append(&mut passed);
            assert(note_views(notes@) =~= noted + added);
            (Ok(Card::Show(show)), notes)
        }
    }

    /// The HTML fragment for the card.
    pub fn into_html_string(self) -> (html: String)
        ensures
            html@ == self@.html(),
    {
        match self {
            Card::Movie(movie) => movie.into_html_string(),
            Card::Show(show) => show.into_html_string(),
            Card::Other(other) => other.into_html_string(),
        }
    }
}

/// A folder with exactly one video file, the size of which can be read and
/// which has a path as seen from the library root, becomes a movie, and
/// the path of the movie is that path.
pub proof fn lemma_one_video_gives_a_movie(
    base: Seq<char>,
    path: Seq<char>,
    entries: Seq<FolderEntryView>,
)
    requires
        of_kind(entries, FileKind::Video).len() == 1,
        of_kind(entries, FileKind::Video).last().size is Some,
        entry_relative(of_kind(entries, FileKind::Video).last(), base) is Some,
    ensures
        spec_card(base, path, entries) is Ok,
        spec_card(base, path, entries)->Ok_0 is Movie,
        Some(spec_card(base, path, entries)->Ok_0->Movie_0.filepath) == entry_relative(
            of_kind(entries, FileKind::Video).last(),
            base,
        ),
{
}

/// A folder with two video files or more becomes a show, and the episodes
/// of the show are those that the video files are: a file whose name gives
/// no episode number is none of them, and every file that is an episode is
/// among them.
pub proof fn lemma_many_videos_give_a_show(
    base: Seq<char>,
    path: Seq<char>,
    entries: Seq<FolderEntryView>,
)
    requires
        of_kind(entries, FileKind::Video).len() >= 2,
    ensures
        spec_card(base, path, entries) is Ok,
        spec_card(base, path, entries)->Ok_0 is Show,
        forall|k: int|
            0 <= k < of_kind(entries, FileKind::Video).len()
                && spec_episode_numbers(
                spec_filestem(of_kind(entries, FileKind::Video)[k].path),
            ) is None ==> spec_episode(
                #[trigger] of_kind(entries, FileKind::Video)[k],
                base,
            ) is None,
        forall|e: EpisodeView|
            #[trigger] spec_card(base, path, entries)->Ok_0->Show_0.episodes.contains(e)
                <==> exists|k: int|
                0 <= k < of_kind(entries, FileKind::Video).len() && spec_episode(
                    #[trigger] of_kind(entries, FileKind::Video)[k],
                    base,
                ) == Some(e),
{
    let videos = of_kind(entries, FileKind::Video);
    let dots = of_kind(entries, FileKind::Sidecar);
    lemma_show_holds_the_episodes(base, path, videos, dots);
}

/// The card that a folder gives is as every card is, and it has a title
/// where the folder has a name.
pub proof fn lemma_card_is_wf(base: Seq<char>, path: Seq<char>, entries: Seq<FolderEntryView>)
    requires
        spec_card(base, path, entries) is Ok,
    ensures
        spec_card(base, path, entries)->Ok_0.wf(),
        spec_filename(path).len() > 0 ==> spec_card(base, path, entries)->Ok_0.title().len() > 0,
{
    let videos = of_kind(entries, FileKind::Video);
    let dots = of_kind(entries, FileKind::Sidecar);
    if videos.len() == 1 {
        lemma_thumbnail_is_relative(dots, base);
        lemma_entry_relative(videos.last(), base);
    } else {
        lemma_show_is_wf(base, path, videos, dots);
    }
}

} // verus!
