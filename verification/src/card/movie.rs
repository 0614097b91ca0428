//! The card of a folder that holds one video file.

use vstd::prelude::*;
use vstd::string::*;
use crate::card::metadata::{
    lemma_thumbnail_is_relative, spec_metadata, spec_title, title_or_folder_name, Metadata,
};
use crate::card::{
    borrowed, display, entry_relative, entry_views, is_relative_or_absent, option_text, shown, shown_year,
    whole_megabytes, year_text, CardError, FileSize, FolderEntry, FolderEntryView, CARD_OPEN,
    CARD_TITLE_OPEN, DEFAULT_THUMBNAIL, NO_DESCRIPTION,
};
use crate::text::{decimal, to_decimal};
use crate::utils::{is_relative_path, spec_filename};

verus! {

/// A movie: one video file with what its folder says about it.
#[derive(Debug)]
pub struct Movie {
    title: String,
    year: Option<u16>,
    description: Option<String>,
    thumbnail: Option<String>,
    filepath: String,
    filesize: FileSize,
}

/// A `Movie` as plain values.
pub struct MovieView {
    pub title: Seq<char>,
    pub year: Option<u16>,
    pub description: Option<Seq<char>>,
    /// The path of the thumbnail, relative to the library root.
    pub thumbnail: Option<Seq<char>>,
    /// The path of the video file, relative to the library root.
    pub filepath: Seq<char>,
    /// The size of the video file in megabytes.
    pub filesize: u32,
}

impl View for Movie {
    type V = MovieView;

    closed spec fn view(&self) -> MovieView {
        MovieView {
            title: self.title@,
            year: self.year,
            description: option_text(self.description),
            thumbnail: option_text(self.thumbnail),
            filepath: self.filepath@,
            filesize: self.filesize.0,
        }
    }
}

/// The movie in the folder `path` of the library at `base`, with the video
/// file `video` and the sidecar files `dots`. There is none where the size
/// of the video cannot be read, or where the video has no path as seen from
/// `base`; of the two the size is looked at first.
pub open spec fn spec_movie(
    base: Seq<char>,
    path: Seq<char>,
    video: FolderEntryView,
    dots: Seq<FolderEntryView>,
) -> Result<MovieView, CardError> {
    let meta = spec_metadata(dots, base);
    match video.size {
        None => Err(CardError::UnreadableSize),
        Some(bytes) => match entry_relative(video, base) {
            None => Err(CardError::OutsideRoot),
            Some(filepath) => Ok(
                MovieView {
                    title: spec_title(meta.title, path),
                    year: meta.year,
                    description: meta.description,
                    thumbnail: meta.thumbnail,
                    filepath,
                    filesize: whole_megabytes(bytes),
                },
            ),
        },
    }
}

/// The result of building a movie, as plain values.
pub open spec fn movie_result(r: Result<Movie, CardError>) -> Result<MovieView, CardError> {
    match r {
        Ok(movie) => Ok(movie@),
        Err(e) => Err(e),
    }
}

/// What stands between the title of a movie and its year.
pub const MOVIE_SUBTITLE_OPEN: &'static str =
    "</h2></div>\n            <div class=\"card-header-box-subtitle\">\n                <p>\n                    ";

/// What stands between the year of a movie and its size.
pub const BULLET: &'static str = " \u{2022} ";

/// What stands between the size of a movie and the path of its video
/// file below the public prefix.
pub const MOVIE_LINK_OPEN: &'static str = " MB \u{2022} <a href=\"/res/";

/// What stands between the path of a movie and its description.
pub const MOVIE_DESCRIPTION_OPEN: &'static str =
    "\" download><img src=\"/res/.assets/download.svg\" /></a>\n                </p>\n            </div>\n        </div>\n    </div>\n    <div class=\"card-expand\">\n        <p>";

/// How the fragment for a movie ends.
pub const MOVIE_CLOSE: &'static str = "</p>\n    </div>\n</div>";

/// The HTML fragment for a movie: its thumbnail, its title, a line with
/// its year, its size and a link that downloads it, and its description.
pub open spec fn movie_html(movie: MovieView) -> Seq<char> {
    CARD_OPEN@ + shown(movie.thumbnail, Seq::empty(), Seq::empty(), DEFAULT_THUMBNAIL@)
        + CARD_TITLE_OPEN@ + movie.title + MOVIE_SUBTITLE_OPEN@ + shown_year(movie.year) + BULLET@
        + decimal(movie.filesize as nat) + MOVIE_LINK_OPEN@ + movie.filepath
        + MOVIE_DESCRIPTION_OPEN@ + shown(
        movie.description,
        Seq::empty(),
        Seq::empty(),
        NO_DESCRIPTION@,
    ) + MOVIE_CLOSE@
}

impl MovieView {
    /// Whether the paths of the movie are relative paths.
    pub open spec fn wf(self) -> bool {
        &&& is_relative_path(self.filepath)
        &&& is_relative_or_absent(self.thumbnail)
    }
}

impl Movie {
    /// Whether the movie is as every movie is: its paths are relative
    /// paths.
    pub open spec fn wf(&self) -> bool {
        self@.wf()
    }

    /// The movie in the folder `path` of the library at `base`: the last of
    /// `vid_fps` is its video file, `dot_fps` are its sidecar files.
    pub fn from_paths(
        base: &str,
        path: &str,
        vid_fps: Vec<FolderEntry>,
        dot_fps: Vec<FolderEntry>,
        _otr_fps: Vec<FolderEntry>,
    ) -> (r: Result<Movie, CardError>)
        requires
            vid_fps@.len() > 0,
        ensures
            movie_result(r) == spec_movie(
                base@,
                path@,
                vid_fps@.last()@,
                entry_views(dot_fps@),
            ),
            r matches Ok(movie) ==> movie.wf() && (spec_filename(path@).len() > 0
                ==> movie@.title.len() > 0),
    {
        let meta = Metadata::read(base, &dot_fps);
        let title = title_or_folder_name(meta.title, path);
        let video = &vid_fps[vid_fps.len() - 1];
        let bytes = match video.size {
            Some(bytes) => bytes,
            None => {
                return Err(CardError::UnreadableSize);
            },
        };
        let filesize = FileSize::from(bytes);
        let filepath = match video.relative(base) {
            Some(filepath) => filepath,
            None => {
                return Err(CardError::OutsideRoot);
            },
        };
        proof {
            lemma_thumbnail_is_relative(entry_views(dot_fps@), base@);
        }
        Ok(
            Movie {
                title,
                year: meta.year,
                description: meta.description,
                thumbnail: meta.thumbnail,
                filepath,
                filesize,
            },
        )
    }

    /// The HTML fragment for the movie.
    pub fn into_html_string(self) -> (html: String)
        ensures
            html@ == movie_html(self@),
    {
        let mut html = String::from_str(CARD_OPEN);
        html.append(display(borrowed(&self.thumbnail), "", "", DEFAULT_THUMBNAIL).as_str());
        html.append(CARD_TITLE_OPEN);
        html.append(self.title.as_str());
        html.append(MOVIE_SUBTITLE_OPEN);
        html.append(year_text(self.year).as_str());
        html.append(BULLET);
        html.append(to_decimal(self.filesize.0 as u64).as_str());
        html.append(MOVIE_LINK_OPEN);
        html.append(self.filepath.as_str());
        html.append(MOVIE_DESCRIPTION_OPEN);
        html.append(display(borrowed(&self.description), "", "", NO_DESCRIPTION).as_str());
        html.append(MOVIE_CLOSE);
        proof {
            reveal_strlit("");
            assert(""@ =~= Seq::<char>::empty());
            assert(html@ =~= movie_html(self@));
        }
        html
    }

    /// The title of the movie.
    pub fn title(&self) -> (title: &str)
        ensures
            title@ == self@.title,
    {
        self.title.as_str()
    }

    /// The year of the movie, where its folder gives one.
    pub fn year(&self) -> (year: Option<u16>)
        ensures
            year == self@.year,
    {
        self.year
    }

    /// The description of the movie, where its folder gives one.
    pub fn description(&self) -> (description: Option<&str>)
        ensures
            match description {
                Some(d) => self@.description == Some(d@),
                None => self@.description is None,
            },
    {
        borrowed(&self.description)
    }

    /// The path of the thumbnail, relative to the library root.
    pub fn thumbnail(&self) -> (thumbnail: Option<&str>)
        ensures
            match thumbnail {
                Some(t) => self@.thumbnail == Some(t@),
                None => self@.thumbnail is None,
            },
    {
        borrowed(&self.thumbnail)
    }

    /// The path of the video file, relative to the library root.
    pub fn filepath(&self) -> (filepath: &str)
        ensures
            filepath@ == self@.filepath,
    {
        self.filepath.as_str()
    }

    /// The size of the video file.
    pub fn filesize(&self) -> (filesize: FileSize)
        ensures
            filesize.0 == self@.filesize,
    {
        self.filesize
    }
}

} // verus!
