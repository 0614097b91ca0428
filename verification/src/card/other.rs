//! The card of a folder that holds no video file.

use vstd::prelude::*;
use vstd::string::*;
use crate::card::{
    borrowed, display, is_relative_or_absent, option_text, shown, FileSize, CARD_OPEN,
    CARD_TITLE_OPEN, DEFAULT_THUMBNAIL, NO_DESCRIPTION,
};
use crate::text::{decimal, to_decimal};
use crate::utils::is_relative_path;

verus! {

/// A folder of files that are no videos.
#[derive(Debug)]
pub struct Other {
    title: String,
    description: Option<String>,
    thumbnail: Option<String>,
    content: Vec<(String, FileSize)>,
}

/// An `Other` as plain values.
pub struct OtherView {
    pub title: Seq<char>,
    pub description: Option<Seq<char>>,
    /// The path of the thumbnail, relative to the library root.
    pub thumbnail: Option<Seq<char>>,
    /// The files with their sizes in megabytes, each path relative to the
    /// library root.
    pub content: Seq<(Seq<char>, u32)>,
}

/// Files with their sizes as plain values.
pub open spec fn content_views(content: Seq<(String, FileSize)>) -> Seq<(Seq<char>, u32)> {
    Seq::new(content.len(), |i: int| (content[i].0@, content[i].1.0))
}

impl View for Other {
    type V = OtherView;

    closed spec fn view(&self) -> OtherView {
        OtherView {
            title: self.title@,
            description: option_text(self.description),
            thumbnail: option_text(self.thumbnail),
            content: content_views(self.content@),
        }
    }
}

/// What stands between the title of such a card and its description.
pub const OTHER_DESCRIPTION_OPEN: &'static str =
    "</h2></div>\n        </div>\n    </div>\n    <div class=\"card-expand\">\n        <p>\n            ";

/// What stands between the description of such a card and its files.
pub const OTHER_LIST_OPEN: &'static str = "\n        </p>\n        <ul>\n            ";

/// How the fragment for such a card ends.
pub const OTHER_CLOSE: &'static str = "\n        </ul>\n    </div>\n</div>";

/// How the list entry for a file begins, up to its path.
pub const FILE_OPEN: &'static str = "<li>";

/// What stands between the path of a file and its size.
pub const FILE_SIZE_OPEN: &'static str = " \u{2022} ";

/// What stands between the size of a file and its path below the public
/// prefix.
pub const FILE_LINK_OPEN: &'static str = " MB \u{2022} <a href=\"/res/";

/// How the list entry for a file ends.
pub const FILE_CLOSE: &'static str =
    "\" download><img src=\"/res/.assets/download.svg\" /></a></li>";

/// The list entry for a file: its path, its size, and a link that
/// downloads it.
pub open spec fn file_html(file: (Seq<char>, u32)) -> Seq<char> {
    FILE_OPEN@ + file.0 + FILE_SIZE_OPEN@ + decimal(file.1 as nat) + FILE_LINK_OPEN@ + file.0
        + FILE_CLOSE@
}

/// The list entries for `files`, each followed by a line break.
pub open spec fn files_html(files: Seq<(Seq<char>, u32)>) -> Seq<char>
    decreases files.len(),
{
    if files.len() == 0 {
        Seq::empty()
    } else {
        files_html(files.drop_last()) + file_html(files.last()) + "\n"@
    }
}

/// The HTML fragment for a card of files: its thumbnail, its title, its
/// description, and the list of its files.
pub open spec fn other_html(other: OtherView) -> Seq<char> {
    CARD_OPEN@ + shown(other.thumbnail, Seq::empty(), Seq::empty(), DEFAULT_THUMBNAIL@)
        + CARD_TITLE_OPEN@ + other.title + OTHER_DESCRIPTION_OPEN@ + shown(
        other.description,
        Seq::empty(),
        Seq::empty(),
        NO_DESCRIPTION@,
    ) + OTHER_LIST_OPEN@ + files_html(other.content) + OTHER_CLOSE@
}

/// The list entry for the file at `path` with the size `size`.
pub fn file_entry(path: &str, size: FileSize) -> (html: String)
    ensures
        html@ == file_html((path@, size.0)),
{
    let mut html = String::from_str(FILE_OPEN);
    html.append(path);
    html.append(FILE_SIZE_OPEN);
    html.append(to_decimal(size.0 as u64).as_str());
    html.append(FILE_LINK_OPEN);
    html.append(path);
    html.append(FILE_CLOSE);
    assert(html@ =~= file_html((path@, size.0)));
    html
}

impl OtherView {
    /// Whether the paths are relative paths.
    pub open spec fn wf(self) -> bool {
        &&& is_relative_or_absent(self.thumbnail)
        &&& forall|k: int| 0 <= k < self.content.len() ==> is_relative_path(#[trigger] self.content[k].0)
    }
}

impl Other {
    /// The card with the given title, description, thumbnail and files.
    pub fn new(
        title: String,
        description: Option<String>,
        thumbnail: Option<String>,
        content: Vec<(String, FileSize)>,
    ) -> (other: Other)
        ensures
            other@ == (OtherView {
                title: title@,
                description: option_text(description),
                thumbnail: option_text(thumbnail),
                content: content_views(content@),
            }),
    {
        Other { title, description, thumbnail, content }
    }

    /// The HTML fragment for the card.
    pub fn into_html_string(self) -> (html: String)
        ensures
            html@ == other_html(self@),
    {
        let mut list = String::new();
        let ghost all = content_views(self.content@);
        let mut i: usize = 0;
        while i < self.content.len()
            invariant
                i <= self.content.len(),
                all == content_views(self.content@),
                list@ == files_html(all.take(i as int)),
            decreases self.content.len() - i,
        {
            proof {
                assert(all.take(i + 1).drop_last() =~= all.take(i as int));
                assert(all.take(i + 1).last() == (
                    self.content@[i as int].0@,
                    self.content@[i as int].1.0,
                ));
            }
            let file = &self.content[i];
            list.append(file_entry(file.0.as_str(), file.1).as_str());
            list.append("\n");
            i += 1;
        }
        assert(all.take(i as int) =~= all);
        let mut html = String::from_str(CARD_OPEN);
        html.append(display(borrowed(&self.thumbnail), "", "", DEFAULT_THUMBNAIL).as_str());
        html.append(CARD_TITLE_OPEN);
        html.append(self.title.as_str());
        html.append(OTHER_DESCRIPTION_OPEN);
        html.append(display(borrowed(&self.description), "", "", NO_DESCRIPTION).as_str());
        html.append(OTHER_LIST_OPEN);
        html.append(list.as_str());
        html.append(OTHER_CLOSE);
        proof {
            reveal_strlit("");
            assert(""@ =~= Seq::<char>::empty());
            assert(html@ =~= other_html(self@));
        }
        html
    }

    /// The title of the card.
    pub fn title(&self) -> (title: &str)
        ensures
            title@ == self@.title,
    {
        self.title.as_str()
    }

    /// The description of the card, where it has one.
    pub fn description(&self) -> (description: Option<&str>)
        ensures
            match description {
                Some(d) => self@.description == Some(d@),
                None => self@.description is None,
            },
    {
        borrowed(&self.description)
    }

    /// The path of the thumbnail, relative to the library root.
    pub fn thumbnail(&self) -> (thumbnail: Option<&str>)
        ensures
            match thumbnail {
                Some(t) => self@.thumbnail == Some(t@),
                None => self@.thumbnail is None,
            },
    {
        borrowed(&self.thumbnail)
    }

    /// The files of the folder with their sizes.
    pub fn content(&self) -> (content: &Vec<(String, FileSize)>)
        ensures
            content_views(content@) == self@.content,
    {
        &self.content
    }
}

} // verus!
