//! The card of a folder that holds several video files.

use itertools::Itertools;
use vstd::prelude::*;
use vstd::string::*;
use crate::card::episode::{episode_numbers, spec_episode_numbers};
use crate::card::metadata::{
    lemma_thumbnail_is_relative, spec_metadata, spec_title, title_or_folder_name, Metadata,
};
use crate::card::{
    borrowed, display, entry_relative, entry_views, lemma_entry_relative, is_relative_or_absent, note_views, option_text, shown,
    shown_year, whole_megabytes, year_text, FileSize, FolderEntry, FolderEntryView, Note,
    NoteView, Passed, CARD_OPEN, CARD_TITLE_OPEN, DEFAULT_THUMBNAIL, NO_DESCRIPTION,
};
use crate::order::{
    ascending, is_ranking, is_stable_sort, lemma_stable_sort_keeps_items, lemma_stable_sorted,
    lemma_stable_sorted_sorts, stable_sorted,
};
use crate::text::{decimal, pad_left, padded, to_decimal};
use crate::utils::{get_filestem, is_relative_path, spec_filename, spec_filestem};

verus! {

/// One episode of a show.
#[derive(Debug, Clone)]
pub struct Episode {
    pub season: u8,
    pub episode: u8,
    /// The path of the video file, relative to the library root.
    pub filepath: String,
    pub filesize: FileSize,
}

/// An `Episode` as plain values.
pub struct EpisodeView {
    pub season: u8,
    pub episode: u8,
    pub filepath: Seq<char>,
    /// The size of the video file in megabytes.
    pub filesize: u32,
}

impl View for Episode {
    type V = EpisodeView;

    open spec fn view(&self) -> EpisodeView {
        EpisodeView {
            season: self.season,
            episode: self.episode,
            filepath: self.filepath@,
            filesize: self.filesize.0,
        }
    }
}

impl Episode {
    /// The season and the episode, by which episodes are ordered.
    pub fn number(&self) -> (number: (u8, u8))
        ensures
            number == (self.season, self.episode),
    {
        (self.season, self.episode)
    }
}

/// Episodes as plain values.
pub open spec fn episode_views(episodes: Seq<Episode>) -> Seq<EpisodeView> {
    Seq::new(episodes.len(), |i: int| episodes[i]@)
}

/// The order of episodes: by season, and within a season by episode.
pub open spec fn by_number() -> spec_fn(EpisodeView, EpisodeView) -> bool {
    |a: EpisodeView, b: EpisodeView|
        a.season < b.season || (a.season == b.season && a.episode <= b.episode)
}

/// The order of episodes ranks all episodes.
pub proof fn lemma_by_number_is_ranking()
    ensures
        is_ranking(by_number()),
{
}

/// Sorts with `itertools::Itertools::sorted_by_key`, which collects the
/// items and sorts them with the stable `sort_by_key` of slices; the key of
/// an episode is the pair of its season and its episode, and pairs are
/// ordered by their first part, then by their second. So what comes back is
/// in ascending order, and episodes of one number stay in the order in
/// which they came.
#[verifier::external_body]
fn sort_by_number(episodes: Vec<Episode>) -> (sorted: Vec<Episode>)
    ensures
        is_stable_sort(episode_views(sorted@), episode_views(episodes@), by_number()),
{
    episodes.into_iter().sorted_by_key(|episode| episode.number()).collect()
}

/// A show: its episodes with what its folder says about it.
#[derive(Debug)]
pub struct Show {
    title: String,
    subtitle: Option<String>,
    year: Option<u16>,
    description: Option<String>,
    thumbnail: Option<String>,
    episodes: Vec<Episode>,
}

/// A `Show` as plain values.
pub struct ShowView {
    pub title: Seq<char>,
    pub subtitle: Option<Seq<char>>,
    pub year: Option<u16>,
    pub description: Option<Seq<char>>,
    /// The path of the thumbnail, relative to the library root.
    pub thumbnail: Option<Seq<char>>,
    pub episodes: Seq<EpisodeView>,
}

impl View for Show {
    type V = ShowView;

    closed spec fn view(&self) -> ShowView {
        ShowView {
            title: self.title@,
            subtitle: option_text(self.subtitle),
            year: self.year,
            description: option_text(self.description),
            thumbnail: option_text(self.thumbnail),
            episodes: episode_views(self.episodes@),
        }
    }
}

/// The episode that the video file `video` is, in the library at `base`.
/// It is none where the size of the file cannot be read, where the file has
/// no path as seen from `base`, or where its name gives no episode number.
pub open spec fn spec_episode(video: FolderEntryView, base: Seq<char>) -> Option<EpisodeView> {
    match (video.size, entry_relative(video, base), spec_episode_numbers(spec_filestem(video.path))) {
        (Some(bytes), Some(filepath), Some(number)) => Some(
            EpisodeView {
                season: number.0,
                episode: number.1,
                filepath,
                filesize: whole_megabytes(bytes),
            },
        ),
        _ => None,
    }
}

/// Why the video file `video` is no episode, if it is none: its size cannot
/// be read, or it has no path as seen from `base`, or its name gives no
/// episode number; the first of these that holds.
pub open spec fn spec_passed(video: FolderEntryView, base: Seq<char>) -> Option<Passed> {
    if video.size is None {
        Some(Passed::UnreadableSize)
    } else if entry_relative(video, base) is None {
        Some(Passed::OutsideRoot)
    } else if spec_episode_numbers(spec_filestem(video.path)) is None {
        Some(Passed::NoEpisodeNumber)
    } else {
        None
    }
}

/// A note for each of the video files `videos` that is no episode, in the
/// order of the files.
pub open spec fn passed_videos(videos: Seq<FolderEntryView>, base: Seq<char>) -> Seq<NoteView>
    decreases videos.len(),
{
    if videos.len() == 0 {
        Seq::empty()
    } else {
        match spec_passed(videos.last(), base) {
            Some(reason) => passed_videos(videos.drop_last(), base).push(
                NoteView { path: videos.last().path, reason },
            ),
            None => passed_videos(videos.drop_last(), base),
        }
    }
}

/// The episodes that the video files `videos` are, in the order of the
/// files.
pub open spec fn collected(videos: Seq<FolderEntryView>, base: Seq<char>) -> Seq<EpisodeView>
    decreases videos.len(),
{
    if videos.len() == 0 {
        Seq::empty()
    } else {
        match spec_episode(videos.last(), base) {
            Some(episode) => collected(videos.drop_last(), base).push(episode),
            None => collected(videos.drop_last(), base),
        }
    }
}

/// The show in the folder `path` of the library at `base`, with the video
/// files `videos` and the sidecar files `dots`.
pub open spec fn spec_show(
    base: Seq<char>,
    path: Seq<char>,
    videos: Seq<FolderEntryView>,
    dots: Seq<FolderEntryView>,
) -> ShowView {
    let meta = spec_metadata(dots, base);
    ShowView {
        title: spec_title(meta.title, path),
        subtitle: meta.subtitle,
        year: meta.year,
        description: meta.description,
        thumbnail: meta.thumbnail,
        episodes: stable_sorted(collected(videos, base), by_number()),
    }
}

/// What stands between the title of a show and its year.
pub const SHOW_SUBTITLE_OPEN: &'static str =
    "</h2></div>\n            <div class=\"card-header-box-subtitle\">\n                <p>";

/// What stands between the subtitle of a show and its description.
pub const SHOW_DESCRIPTION_OPEN: &'static str =
    "</p>\n            </div>\n        </div>\n    </div>\n    <div class=\"card-expand\">\n        <p>\n            ";

/// What stands between the description of a show and its episodes.
pub const SHOW_LIST_OPEN: &'static str = "\n        </p>\n        <ul>\n            ";

/// How the fragment for a show ends.
pub const SHOW_CLOSE: &'static str = "\n        </ul>\n    </div>\n</div>";

/// What stands before the subtitle of a show.
pub const SUBTITLE_MARK: &'static str = "\u{2022} ";

/// How the list entry for an episode begins, up to its season.
pub const EPISODE_OPEN: &'static str = "<li>season\u{2009}\u{2009}";

/// What stands between the season of an episode and its number.
pub const EPISODE_NUMBER_OPEN: &'static str = " \u{2022} episode\u{2009}\u{2009}";

/// What stands between the number of an episode and its size.
pub const EPISODE_SIZE_OPEN: &'static str = " \u{2022} ";

/// What stands between the size of an episode and the path of its video
/// file below the public prefix.
pub const EPISODE_LINK_OPEN: &'static str = "\u{2009}\u{2009}MB \u{2022} <a href=\"/res/";

/// How the list entry for an episode ends.
pub const EPISODE_CLOSE: &'static str =
    "\" download><img src=\"/res/.assets/download.svg\" /></a></li>";

/// A number of a season or an episode as it is shown: in decimal notation,
/// with a zero in front where it has one digit.
pub open spec fn two_digits(n: u8) -> Seq<char> {
    padded(decimal(n as nat), 2, '0')
}

/// The list entry for an episode: its season and episode, its size, and a
/// link that downloads it.
pub open spec fn episode_html(episode: EpisodeView) -> Seq<char> {
    EPISODE_OPEN@ + two_digits(episode.season) + EPISODE_NUMBER_OPEN@ + two_digits(
        episode.episode,
    ) + EPISODE_SIZE_OPEN@ + decimal(episode.filesize as nat) + EPISODE_LINK_OPEN@
        + episode.filepath + EPISODE_CLOSE@
}

/// The list entries for `episodes`, each followed by a line break.
pub open spec fn episodes_html(episodes: Seq<EpisodeView>) -> Seq<char>
    decreases episodes.len(),
{
    if episodes.len() == 0 {
        Seq::empty()
    } else {
        episodes_html(episodes.drop_last()) + episode_html(episodes.last()) + "\n"@
    }
}

/// The HTML fragment for a show: its thumbnail, its title, a line with its
/// year and its subtitle, its description, and the list of its episodes.
pub open spec fn show_html(show: ShowView) -> Seq<char> {
    CARD_OPEN@ + shown(show.thumbnail, Seq::empty(), Seq::empty(), DEFAULT_THUMBNAIL@)
        + CARD_TITLE_OPEN@ + show.title + SHOW_SUBTITLE_OPEN@ + shown_year(show.year) + " "@
        + shown(show.subtitle, SUBTITLE_MARK@, Seq::empty(), Seq::empty())
        + SHOW_DESCRIPTION_OPEN@ + shown(
        show.description,
        Seq::empty(),
        Seq::empty(),
        NO_DESCRIPTION@,
    ) + SHOW_LIST_OPEN@ + episodes_html(show.episodes) + SHOW_CLOSE@
}

/// A number of a season or an episode as it is shown.
pub fn two_digit_text(n: u8) -> (text: String)
    ensures
        text@ == two_digits(n),
{
    let digits = to_decimal(n as u64);
    pad_left(digits.as_str(), 2, '0')
}

impl Episode {
    /// The list entry for the episode.
    pub fn into_html_string(&self) -> (html: String)
        ensures
            html@ == episode_html(self@),
    {
        let mut html = String::from_str(EPISODE_OPEN);
        html.append(two_digit_text(self.season).as_str());
        html.append(EPISODE_NUMBER_OPEN);
        html.append(two_digit_text(self.episode).as_str());
        html.append(EPISODE_SIZE_OPEN);
        html.append(to_decimal(self.filesize.0 as u64).as_str());
        html.append(EPISODE_LINK_OPEN);
        html.append(self.filepath.as_str());
        html.append(EPISODE_CLOSE);
        assert(html@ =~= episode_html(self@));
        html
    }
}

/// Whether every episode of `episodes` has a relative path.
pub open spec fn have_relative_paths(episodes: Seq<EpisodeView>) -> bool {
    forall|k: int| 0 <= k < episodes.len() ==> is_relative_path(#[trigger] episodes[k].filepath)
}

/// The episodes that video files are have relative paths.
pub proof fn lemma_collected_paths_are_relative(videos: Seq<FolderEntryView>, base: Seq<char>)
    ensures
        have_relative_paths(collected(videos, base)),
    decreases videos.len(),
{
    if videos.len() > 0 {
        lemma_collected_paths_are_relative(videos.drop_last(), base);
        let last = videos.last();
        lemma_entry_relative(last, base);
    }
}

/// The episode that the video file `video` is, in the library at `base`, or
/// the reason why it is none.
pub fn episode_of(base: &str, video: &FolderEntry) -> (r: Result<Episode, Passed>)
    ensures
        match r {
            Ok(episode) => spec_episode(video@, base@) == Some(episode@) && spec_passed(
                video@,
                base@,
            ) is None,
            Err(reason) => spec_episode(video@, base@) is None && spec_passed(video@, base@)
                == Some(reason),
        },
{
    let bytes = match video.size {
        Some(bytes) => bytes,
        None => {
            return Err(Passed::UnreadableSize);
        },
    };
    let filesize = FileSize::from(bytes);
    let filepath = match video.relative(base) {
        Some(filepath) => filepath,
        None => {
            return Err(Passed::OutsideRoot);
        },
    };
    let stem = get_filestem(video.path.as_str());
    match episode_numbers(stem.as_str()) {
        Some((season, episode)) => Ok(Episode { season, episode, filepath, filesize }),
        None => Err(Passed::NoEpisodeNumber),
    }
}

/// A video file is an episode exactly where nothing speaks against it.
pub proof fn lemma_passed_or_episode(video: FolderEntryView, base: Seq<char>)
    ensures
        spec_passed(video, base) is None <==> spec_episode(video, base) is Some,
{
}

impl ShowView {
    /// Whether the episodes are in ascending order of season and episode,
    /// and the paths are relative paths.
    pub open spec fn wf(self) -> bool {
        &&& ascending(self.episodes, by_number())
        &&& have_relative_paths(self.episodes)
        &&& is_relative_or_absent(self.thumbnail)
    }
}

impl Show {
    /// Whether the show is as every show is: its episodes are in ascending
    /// order of season and episode, and its paths are relative paths.
    pub open spec fn wf(&self) -> bool {
        self@.wf()
    }

    /// The show in the folder `path` of the library at `base`: `vid_fps`
    /// are its video files, `dot_fps` its sidecar files.
    pub fn from_paths(
        base: &str,
        path: &str,
        vid_fps: Vec<FolderEntry>,
        dot_fps: Vec<FolderEntry>,
        otr_fps: Vec<FolderEntry>,
    ) -> (show: Show)
        ensures
            show@ == spec_show(base@, path@, entry_views(vid_fps@), entry_views(dot_fps@)),
            show.wf(),
            spec_filename(path@).len() > 0 ==> show@.title.len() > 0,
    {
        Show::from_paths_noting(base, path, vid_fps, dot_fps, otr_fps).0
    }

    /// The show in the folder `path` of the library at `base`, and beside
    /// it a note for each video file that is none of its episodes.
    pub fn from_paths_noting(
        base: &str,
        path: &str,
        vid_fps: Vec<FolderEntry>,
        dot_fps: Vec<FolderEntry>,
        _otr_fps: Vec<FolderEntry>,
    ) -> (r: (Show, Vec<Note>))
        ensures
            r.0@ == spec_show(base@, path@, entry_views(vid_fps@), entry_views(dot_fps@)),
            r.0.wf(),
            spec_filename(path@).len() > 0 ==> r.0@.title.len() > 0,
            note_views(r.1@) == passed_videos(entry_views(vid_fps@), base@),
    {
        let meta = Metadata::read(base, &dot_fps);
        let title = title_or_folder_name(meta.title, path);
        let ghost videos = entry_views(vid_fps@);
        let mut found: Vec<Episode> = Vec::new();
        let mut notes: Vec<Note> = Vec::new();
        let mut i: usize = 0;
        while i < vid_fps.len()
            invariant
                i <= vid_fps.len(),
                videos == entry_views(vid_fps@),
                episode_views(found@) == collected(videos.take(i as int), base@),
                note_views(notes@) == passed_videos(videos.take(i as int), base@),
            decreases vid_fps.len() - i,
        {
            let video = &vid_fps[i];
            proof {
                assert(videos.take(i + 1).drop_last() =~= videos.take(i as int));
                assert(videos.take(i + 1).last() == video@);
            }
            let ghost before = episode_views(found@);
            let ghost noted = note_views(notes@);
            match episode_of(base, video) {
                Ok(next) => {
                    found.push(next);
                    assert(episode_views(found@) =~= before.push(next@));
                },
                Err(reason) => {
                    let note = Note { path: video.path.clone(), reason };
                    notes.push(note);
                    assert(note_views(notes@) =~= noted.push(note@));
                },
            }
            i += 1;
        }
        assert(videos.take(i as int) =~= videos);
        let ghost unsorted = episode_views(found@);
        let episodes = sort_by_number(found);
        proof {
            let sorted = episode_views(episodes@);
            lemma_by_number_is_ranking();
            lemma_stable_sorted(sorted, unsorted, by_number());
            lemma_collected_paths_are_relative(videos, base@);
            assert forall|k: int| 0 <= k < sorted.len() implies is_relative_path(
                #[trigger] sorted[k].filepath,
            ) by {
                lemma_stable_sort_keeps_items(sorted, unsorted, by_number(), sorted[k]);
                let at = choose|j: int| 0 <= j < unsorted.len() && unsorted[j] == sorted[k];
                assert(is_relative_path(unsorted[at].filepath));
            }
            lemma_thumbnail_is_relative(entry_views(dot_fps@), base@);
        }
        (
            Show {
                title,
                subtitle: meta.subtitle,
                year: meta.year,
                description: meta.description,
                thumbnail: meta.thumbnail,
                episodes,
            },
            notes,
        )
    }

    /// The HTML fragment for the show.
    pub fn into_html_string(self) -> (html: String)
        ensures
            html@ == show_html(self@),
    {
        let mut list = String::new();
        let ghost all = episode_views(self.episodes@);
        let mut i: usize = 0;
        while i < self.episodes.len()
            invariant
                i <= self.episodes.len(),
                all == episode_views(self.episodes@),
                list@ == episodes_html(all.take(i as int)),
            decreases self.episodes.len() - i,
        {
            proof {
                assert(all.take(i + 1).drop_last() =~= all.take(i as int));
                assert(all.take(i + 1).last() == self.episodes@[i as int]@);
            }
            list.append(self.episodes[i].into_html_string().as_str());
            list.append("\n");
            i += 1;
        }
        assert(all.take(i as int) =~= all);
        let mut html = String::from_str(CARD_OPEN);
        html.append(display(borrowed(&self.thumbnail), "", "", DEFAULT_THUMBNAIL).as_str());
        html.append(CARD_TITLE_OPEN);
        html.append(self.title.as_str());
        html.append(SHOW_SUBTITLE_OPEN);
        html.append(year_text(self.year).as_str());
        html.append(" ");
        html.append(display(borrowed(&self.subtitle), SUBTITLE_MARK, "", "").as_str());
        html.append(SHOW_DESCRIPTION_OPEN);
        html.append(display(borrowed(&self.description), "", "", NO_DESCRIPTION).as_str());
        html.append(SHOW_LIST_OPEN);
        html.append(list.as_str());
        html.append(SHOW_CLOSE);
        proof {
            reveal_strlit("");
            assert(""@ =~= Seq::<char>::empty());
            assert(html@ =~= show_html(self@));
        }
        html
    }

    /// The title of the show.
    pub fn title(&self) -> (title: &str)
        ensures
            title@ == self@.title,
    {
        self.title.as_str()
    }

    /// The subtitle of the show, where its folder gives one.
    pub fn subtitle(&self) -> (subtitle: Option<&str>)
        ensures
            match subtitle {
                Some(s) => self@.subtitle == Some(s@),
                None => self@.subtitle is None,
            },
    {
        borrowed(&self.subtitle)
    }

    /// The year of the show, where its folder gives one.
    pub fn year(&self) -> (year: Option<u16>)
        ensures
            year == self@.year,
    {
        self.year
    }

    /// The description of the show, where its folder gives one.
    pub fn description(&self) -> (description: Option<&str>)
        ensures
            match description {
                Some(d) => self@.description == Some(d@),
                None => self@.description is None,
            },
    {
        borrowed(&self.description)
    }

    /// The path of the thumbnail, relative to the library root.
    pub fn thumbnail(&self) -> (thumbnail: Option<&str>)
        ensures
            match thumbnail {
                Some(t) => self@.thumbnail == Some(t@),
                None => self@.thumbnail is None,
            },
    {
        borrowed(&self.thumbnail)
    }

    /// The episodes of the show, in ascending order of season and episode.
    pub fn episodes(&self) -> (episodes: &Vec<Episode>)
        ensures
            episode_views(episodes@) == self@.episodes,
    {
        &self.episodes
    }
}

/// An episode is among those that video files are exactly where one of the
/// files is that episode.
pub proof fn lemma_collected_items(videos: Seq<FolderEntryView>, base: Seq<char>, e: EpisodeView)
    ensures
        collected(videos, base).contains(e) <==> exists|k: int|
            0 <= k < videos.len() && spec_episode(#[trigger] videos[k], base) == Some(e),
    decreases videos.len(),
{
    let all = collected(videos, base);
    if videos.len() > 0 {
        let short = videos.drop_last();
        let rest = collected(short, base);
        lemma_collected_items(short, base, e);
        if all.contains(e) {
            let at = choose|i: int| 0 <= i < all.len() && all[i] == e;
            if at < rest.len() {
                assert(rest[at] == e);
                let k = choose|k: int|
                    0 <= k < short.len() && spec_episode(#[trigger] short[k], base) == Some(e);
                assert(videos[k] == short[k]);
            } else {
                assert(spec_episode(videos[videos.len() - 1], base) == Some(e));
            }
        }
        if exists|k: int|
            0 <= k < videos.len() && spec_episode(#[trigger] videos[k], base) == Some(e) {
            let k = choose|k: int|
                0 <= k < videos.len() && spec_episode(#[trigger] videos[k], base) == Some(e);
            if k < videos.len() - 1 {
                assert(short[k] == videos[k]);
                let at = choose|i: int| 0 <= i < rest.len() && rest[i] == e;
                assert(all[at] == e);
            } else {
                assert(all[all.len() - 1] == e);
            }
        }
    }
}

/// The show that a folder gives is as every show is.
pub proof fn lemma_show_is_wf(
    base: Seq<char>,
    path: Seq<char>,
    videos: Seq<FolderEntryView>,
    dots: Seq<FolderEntryView>,
)
    ensures
        spec_show(base, path, videos, dots).wf(),
{
    let unsorted = collected(videos, base);
    let sorted = stable_sorted(unsorted, by_number());
    lemma_by_number_is_ranking();
    lemma_stable_sorted_sorts(unsorted, by_number());
    lemma_collected_paths_are_relative(videos, base);
    assert forall|k: int| 0 <= k < sorted.len() implies is_relative_path(
        #[trigger] sorted[k].filepath,
    ) by {
        lemma_stable_sort_keeps_items(sorted, unsorted, by_number(), sorted[k]);
        let at = choose|j: int| 0 <= j < unsorted.len() && unsorted[j] == sorted[k];
        assert(is_relative_path(unsorted[at].filepath));
    }
    lemma_thumbnail_is_relative(dots, base);
}

/// The episodes of the show that a folder gives are those that its video
/// files are: a file whose name gives no episode number is none of them,
/// and every file that is an episode is among them, as often as it is
/// among the files.
pub proof fn lemma_show_holds_the_episodes(
    base: Seq<char>,
    path: Seq<char>,
    videos: Seq<FolderEntryView>,
    dots: Seq<FolderEntryView>,
)
    ensures
        forall|k: int|
            0 <= k < videos.len() && spec_episode_numbers(spec_filestem(videos[k].path)) is None
                ==> spec_episode(#[trigger] videos[k], base) is None,
        forall|e: EpisodeView|
            #[trigger] spec_show(base, path, videos, dots).episodes.contains(e) <==> exists|k: int|
                0 <= k < videos.len() && spec_episode(#[trigger] videos[k], base) == Some(e),
        spec_show(base, path, videos, dots).episodes.len() == collected(videos, base).len(),
        spec_show(base, path, videos, dots).episodes.to_multiset() == collected(
            videos,
            base,
        ).to_multiset(),
{
    let unsorted = collected(videos, base);
    let sorted = stable_sorted(unsorted, by_number());
    lemma_by_number_is_ranking();
    lemma_stable_sorted_sorts(unsorted, by_number());
    assert forall|e: EpisodeView| #[trigger] sorted.contains(e) <==> exists|k: int|
        0 <= k < videos.len() && spec_episode(#[trigger] videos[k], base) == Some(e) by {
        lemma_stable_sort_keeps_items(sorted, unsorted, by_number(), e);
        lemma_collected_items(videos, base, e);
    }
}

/// Of two episodes of a show that differ in season or episode, the one
/// comes before the other exactly where its number is the lower one.
pub proof fn lemma_episodes_in_order(show: ShowView, i: int, j: int)
    requires
        show.wf(),
        0 <= i < show.episodes.len(),
        0 <= j < show.episodes.len(),
        show.episodes[i].season != show.episodes[j].season || show.episodes[i].episode
            != show.episodes[j].episode,
    ensures
        i < j <==> by_number()(show.episodes[i], show.episodes[j]),
{
    if i < j {
        assert(by_number()(show.episodes[i], show.episodes[j]));
    } else if j < i {
        assert(by_number()(show.episodes[j], show.episodes[i]));
    }
}

/// No episode of a show comes before one of a lower number.
pub proof fn lemma_episodes_ascend(show: ShowView, i: int, j: int)
    requires
        show.wf(),
        0 <= i < j < show.episodes.len(),
    ensures
        show.episodes[i].season < show.episodes[j].season || (show.episodes[i].season
            == show.episodes[j].season && show.episodes[i].episode <= show.episodes[j].episode),
{
    assert(by_number()(show.episodes[i], show.episodes[j]));
}

} // verus!
