//! The catalogue: the cards of all the folders of a library, in the order
//! of their titles, and the page that shows them.

use itertools::Itertools;
use std::cmp::Ordering;
use vstd::prelude::*;
use vstd::string::*;
use crate::card::{
    entry_views, lemma_card_is_wf, note_views, spec_card, spec_notes, Card, CardError, CardView,
    FolderEntry, FolderEntryView, Note, NoteView,
};
use crate::order::{
    ascending, is_ranking, is_stable_sort, lemma_order_of_items_is_immaterial,
    lemma_stable_sort_keeps_items, lemma_stable_sorted, lemma_stable_sorted_sorts, ranks_differ,
    stable_sorted,
};
use crate::text::{
    chars_of, lemma_text_le_total, lemma_text_le_transitive, sign_of, text_le, text_sign,
};
use crate::utils::{get_filename, spec_filename};

verus! {

/// One direct child of the library root, as a scan of the root found it.
#[derive(Debug)]
pub struct Folder {
    /// The path of the child.
    pub path: String,
    /// Whether the child is a directory.
    pub is_dir: bool,
    /// The direct children of the directory, where it could be opened.
    pub entries: Option<Vec<FolderEntry>>,
}

/// A `Folder` as plain values.
pub struct FolderView {
    pub path: Seq<char>,
    pub is_dir: bool,
    pub entries: Option<Seq<FolderEntryView>>,
}

impl View for Folder {
    type V = FolderView;

    open spec fn view(&self) -> FolderView {
        FolderView {
            path: self.path@,
            is_dir: self.is_dir,
            entries: match self.entries {
                Some(entries) => Some(entry_views(entries@)),
                None => None,
            },
        }
    }
}

/// Folders as plain values.
pub open spec fn folder_views(folders: Seq<Folder>) -> Seq<FolderView> {
    Seq::new(folders.len(), |i: int| folders[i]@)
}

/// Cards as plain values.
pub open spec fn card_views(cards: Seq<Card>) -> Seq<CardView> {
    Seq::new(cards.len(), |i: int| cards[i]@)
}

/// The order of cards: that of their titles as texts, in which a capital
/// letter comes before every small one.
pub open spec fn by_title() -> spec_fn(CardView, CardView) -> bool {
    |a: CardView, b: CardView| text_le(a.title(), b.title())
}

/// The order of cards ranks all cards.
pub proof fn lemma_by_title_is_ranking()
    ensures
        is_ranking(by_title()),
{
    assert forall|x: CardView, y: CardView| #[trigger] by_title()(x, y) || by_title()(y, x) by {
        lemma_text_le_total(x.title(), y.title());
    }
    assert forall|x: CardView, y: CardView, z: CardView| #[trigger]
        by_title()(x, y) && #[trigger] by_title()(y, z) implies by_title()(x, z) by {
        lemma_text_le_transitive(x.title(), y.title(), z.title());
    }
}

/// How the title of `a` stands to that of `b` in the order of texts.
pub fn compare_titles(a: &Card, b: &Card) -> (r: Ordering)
    ensures
        match r {
            Ordering::Less => text_sign(a@.title(), b@.title()) == -1,
            Ordering::Equal => text_sign(a@.title(), b@.title()) == 0,
            Ordering::Greater => text_sign(a@.title(), b@.title()) == 1,
        },
{
    let sign: i8 = sign_of(a.get_title(), b.get_title());
    if sign < 0 {
        Ordering::Less
    } else if sign == 0 {
        Ordering::Equal
    } else {
        Ordering::Greater
    }
}

/// Sorts with `itertools::Itertools::sorted_by`, which collects the items
/// and sorts them with the stable `sort_by` of slices; the comparison is
/// `compare_titles`. So what comes back is in ascending order of title,
/// and cards of one title stay in the order in which they came.
#[verifier::external_body]
fn sort_by_title(cards: Vec<Card>) -> (sorted: Vec<Card>)
    ensures
        is_stable_sort(card_views(sorted@), card_views(cards@), by_title()),
{
    cards.into_iter().sorted_by(|a, b| compare_titles(a, b)).collect()
}

/// Whether the entry at `path` is hidden: its name starts with a dot.
pub open spec fn is_hidden(path: Seq<char>) -> bool {
    spec_filename(path).len() > 0 && spec_filename(path).first() == '.'
}

/// The card that the child `folder` of the library at `root` becomes. It
/// becomes none where it is hidden, where it is no directory, where it
/// could not be opened, or where it holds nothing that makes a card.
pub open spec fn spec_card_of(root: Seq<char>, folder: FolderView) -> Option<CardView> {
    if is_hidden(folder.path) || !folder.is_dir {
        None
    } else {
        match folder.entries {
            Some(entries) => match spec_card(root, folder.path, entries) {
                Ok(card) => Some(card),
                Err(_) => None,
            },
            None => None,
        }
    }
}

/// The cards that `folders` become, in the order of `folders`.
pub open spec fn gathered(root: Seq<char>, folders: Seq<FolderView>) -> Seq<CardView>
    decreases folders.len(),
{
    if folders.len() == 0 {
        Seq::empty()
    } else {
        match spec_card_of(root, folders.last()) {
            Some(card) => gathered(root, folders.drop_last()).push(card),
            None => gathered(root, folders.drop_last()),
        }
    }
}

/// The catalogue of the library at `root` with the children `folders`: the
/// cards that they become, sorted by title.
pub open spec fn spec_catalog(root: Seq<char>, folders: Seq<FolderView>) -> Seq<CardView> {
    stable_sorted(gathered(root, folders), by_title())
}

/// Why a child of the library root became no card.
#[derive(Debug, Clone, Copy, PartialEq, Eq, Structural)]
pub enum Skip {
    /// The child is no directory.
    NotADirectory,
    /// The directory could not be opened.
    Unreadable,
    /// The directory holds nothing that makes a card.
    NoCard(CardError),
}

impl Skip {
    /// The reason in words.
    pub fn message(&self) -> (text: &'static str)
        ensures
            text@ == match *self {
                Skip::NotADirectory => "not a directory"@,
                Skip::Unreadable => "the directory cannot be read"@,
                Skip::NoCard(e) => e.spec_message(),
            },
    {
        match self {
            Skip::NotADirectory => "not a directory",
            Skip::Unreadable => "the directory cannot be read",
            Skip::NoCard(e) => e.message(),
        }
    }
}

/// A child of the library root that became no card, with the reason.
#[derive(Debug)]
pub struct Skipped {
    /// The path of the child.
    pub path: String,
    pub reason: Skip,
}

/// A `Skipped` as plain values.
pub struct SkippedView {
    pub path: Seq<char>,
    pub reason: Skip,
}

impl View for Skipped {
    type V = SkippedView;

    open spec fn view(&self) -> SkippedView {
        SkippedView { path: self.path@, reason: self.reason }
    }
}

/// Skipped children as plain values.
pub open spec fn skipped_views(skipped: Seq<Skipped>) -> Seq<SkippedView> {
    Seq::new(skipped.len(), |i: int| skipped[i]@)
}

/// What the making of a catalogue passed over: the children of the root
/// that became no card, and the children of folders that took no part in
/// a card.
#[derive(Debug)]
pub struct Report {
    pub skipped: Vec<Skipped>,
    pub notes: Vec<Note>,
}

/// A `Report` as plain values.
pub struct ReportView {
    pub skipped: Seq<SkippedView>,
    pub notes: Seq<NoteView>,
}

impl View for Report {
    type V = ReportView;

    open spec fn view(&self) -> ReportView {
        ReportView { skipped: skipped_views(self.skipped@), notes: note_views(self.notes@) }
    }
}

/// Why the child `folder` of the library at `root` becomes no card, if it
/// becomes none and is not hidden. A hidden child is left out without a
/// word.
pub open spec fn spec_skip_of(root: Seq<char>, folder: FolderView) -> Option<Skip> {
    if is_hidden(folder.path) {
        None
    } else if !folder.is_dir {
        Some(Skip::NotADirectory)
    } else {
        match folder.entries {
            Some(entries) => match spec_card(root, folder.path, entries) {
                Ok(_) => None,
                Err(e) => Some(Skip::NoCard(e)),
            },
            None => Some(Skip::Unreadable),
        }
    }
}

/// The children among `folders` that become no card and are not hidden,
/// with the reasons, in the order of `folders`.
pub open spec fn spec_skipped(root: Seq<char>, folders: Seq<FolderView>) -> Seq<SkippedView>
    decreases folders.len(),
{
    if folders.len() == 0 {
        Seq::empty()
    } else {
        match spec_skip_of(root, folders.last()) {
            Some(reason) => spec_skipped(root, folders.drop_last()).push(
                SkippedView { path: folders.last().path, reason },
            ),
            None => spec_skipped(root, folders.drop_last()),
        }
    }
}

/// The children of the folder `folder` that take no part in its card. A
/// folder that is hidden, is no directory or could not be opened has none.
pub open spec fn spec_folder_notes(root: Seq<char>, folder: FolderView) -> Seq<NoteView> {
    if is_hidden(folder.path) || !folder.is_dir {
        Seq::empty()
    } else {
        match folder.entries {
            Some(entries) => spec_notes(root, entries),
            None => Seq::empty(),
        }
    }
}

/// The notes of all of `folders`, in the order of `folders`.
pub open spec fn spec_all_notes(root: Seq<char>, folders: Seq<FolderView>) -> Seq<NoteView>
    decreases folders.len(),
{
    if folders.len() == 0 {
        Seq::empty()
    } else {
        spec_all_notes(root, folders.drop_last()) + spec_folder_notes(root, folders.last())
    }
}

/// What the making of the catalogue of the library at `root` passes over.
pub open spec fn spec_report(root: Seq<char>, folders: Seq<FolderView>) -> ReportView {
    ReportView { skipped: spec_skipped(root, folders), notes: spec_all_notes(root, folders) }
}

/// A child of the root becomes a card, or is hidden, or is skipped for a
/// reason: one of the three and no two.
pub proof fn lemma_kept_hidden_or_skipped(root: Seq<char>, folder: FolderView)
    ensures
        spec_card_of(root, folder) is Some ==> !is_hidden(folder.path) && spec_skip_of(
            root,
            folder,
        ) is None,
        spec_card_of(root, folder) is None ==> (is_hidden(folder.path) <==> spec_skip_of(
            root,
            folder,
        ) is None),
{
}

/// Whether every card of `cards` is as every card is.
pub open spec fn all_wf(cards: Seq<CardView>) -> bool {
    forall|k: int| 0 <= k < cards.len() ==> (#[trigger] cards[k]).wf()
}

/// How the page begins, up to its stylesheet.
pub const PAGE_OPEN: &'static str =
    "<!doctype html>\n<html lang=\"en\">\n    <head>\n        <meta charset=\"UTF-8\" />\n        <meta name=\"viewport\" content=\"width=device-width, initial-scale=1.0\" />\n        <meta name=\"description\" content=\"server\" />\n        <meta name=\"author\" content=\"anesthetice\" />\n        <title>Silvus</title>\n        <style>\n            ";

/// What stands between the stylesheet and the left column.
pub const PAGE_LEFT_OPEN: &'static str =
    "\n        </style>\n    </head>\n    <body>\n        <div class=\"page-header\">\n            <img src=\"/res/.assets/icon.svg\" />\n        </div>\n        <div class=\"card-row\">\n            <div class=\"card-column\">\n                ";

/// What stands between the left column and the right one.
pub const PAGE_RIGHT_OPEN: &'static str =
    "\n            </div>\n            <div class=\"card-column\">\n                ";

/// What stands between the right column and the script.
pub const PAGE_SCRIPT_OPEN: &'static str =
    "\n            </div>\n        </div>\n        <script>\n            ";

/// How the page ends.
pub const PAGE_CLOSE: &'static str = "\n        </script>\n    </body>\n</html>\n";

/// One column of the page: the fragments of the cards at the even places
/// of `cards` where `parity` is 0, of those at the odd places where it is
/// 1, each followed by a line break.
pub open spec fn column_html(cards: Seq<CardView>, parity: int) -> Seq<char>
    decreases cards.len(),
{
    if cards.len() == 0 {
        Seq::empty()
    } else if (cards.len() - 1) % 2 == parity {
        column_html(cards.drop_last(), parity) + cards.last().html() + "\n"@
    } else {
        column_html(cards.drop_last(), parity)
    }
}

/// The page for `cards`, with the stylesheet `style` and the script
/// `script`: the cards stand in two columns, the first card on the left,
/// the second on the right, and so on in turn.
pub open spec fn page_html(cards: Seq<CardView>, style: Seq<char>, script: Seq<char>) -> Seq<
    char,
> {
    PAGE_OPEN@ + style + PAGE_LEFT_OPEN@ + column_html(cards, 0) + PAGE_RIGHT_OPEN@ + column_html(
        cards,
        1,
    ) + PAGE_SCRIPT_OPEN@ + script + PAGE_CLOSE@
}

/// Why a library has no catalogue.
#[derive(Debug, Clone, Copy, PartialEq, Eq, Structural)]
pub enum LoadError {
    /// No library was chosen.
    NoTargetDir,
    /// The root of the library could not be read.
    UnreadableRoot,
}

impl LoadError {
    /// The error in words.
    pub fn message(&self) -> (text: &'static str)
        ensures
            text@ == match *self {
                LoadError::NoTargetDir => "No target path set, use the init subcommand"@,
                LoadError::UnreadableRoot => "the target path cannot be read"@,
            },
    {
        match self {
            LoadError::NoTargetDir => "No target path set, use the init subcommand",
            LoadError::UnreadableRoot => "the target path cannot be read",
        }
    }
}

/// The cards of a library, in the order of their titles.
#[derive(Debug)]
pub struct Cards(Vec<Card>);

impl View for Cards {
    type V = Seq<CardView>;

    closed spec fn view(&self) -> Seq<CardView> {
        card_views(self.0@)
    }
}

/// Whether the entry at `path` is hidden.
pub fn is_hidden_entry(path: &str) -> (hidden: bool)
    ensures
        hidden == is_hidden(path@),
{
    let name = get_filename(path);
    let chars = chars_of(name.as_str());
    chars.len() > 0 && chars[0] == '.'
}

impl Cards {
    /// Whether the catalogue is as every catalogue is: its cards are in
    /// ascending order of title, and each of them is as every card is.
    pub open spec fn wf(&self) -> bool {
        &&& ascending(self@, by_title())
        &&& all_wf(self@)
    }

    /// The catalogue of the library at `target_dir`, of which `listing` are
    /// the direct children. There is none where no library was chosen, or
    /// where its root could not be read; a child that gives no card is
    /// passed over.
    pub fn load(target_dir: Option<&str>, listing: Option<Vec<Folder>>) -> (r: Result<
        Cards,
        LoadError,
    >)
        ensures
            match r {
                Ok(cards) => target_dir is Some && listing is Some && cards@ == spec_catalog(
                    target_dir->0@,
                    folder_views(listing->0@),
                ) && cards.wf(),
                Err(LoadError::NoTargetDir) => target_dir is None,
                Err(LoadError::UnreadableRoot) => target_dir is Some && listing is None,
            },
    {
        match Cards::load_reporting(target_dir, listing) {
            Ok(loaded) => Ok(loaded.0),
            Err(e) => Err(e),
        }
    }

    /// The catalogue of the library at `target_dir`, and beside it what
    /// the making of it passed over.
    pub fn load_reporting(target_dir: Option<&str>, listing: Option<Vec<Folder>>) -> (r: Result<
        (Cards, Report),
        LoadError,
    >)
        ensures
            match r {
                Ok(loaded) => target_dir is Some && listing is Some && loaded.0@ == spec_catalog(
                    target_dir->0@,
                    folder_views(listing->0@),
                ) && loaded.0.wf() && loaded.1@ == spec_report(
                    target_dir->0@,
                    folder_views(listing->0@),
                ),
                Err(LoadError::NoTargetDir) => target_dir is None,
                Err(LoadError::UnreadableRoot) => target_dir is Some && listing is None,
            },
    {
        match target_dir {
            None => Err(LoadError::NoTargetDir),
            Some(root) => match listing {
                None => Err(LoadError::UnreadableRoot),
                Some(folders) => Ok(Cards::survey(root, folders)),
            },
        }
    }

    /// The catalogue of the library at `root`, of which `folders` are the
    /// direct children, and beside it what the making of it passed over:
    /// each child that gave no card with the reason, and each child of a
    /// folder that took no part in its card.
    pub fn survey(root: &str, folders: Vec<Folder>) -> (r: (Cards, Report))
        ensures
            r.0@ == spec_catalog(root@, folder_views(folders@)),
            r.0.wf(),
            r.1@ == spec_report(root@, folder_views(folders@)),
    {
        let ghost all = folder_views(folders@);
        let mut found: Vec<Card> = Vec::new();
        let mut skipped: Vec<Skipped> = Vec::new();
        let mut notes: Vec<Note> = Vec::new();
        for folder in it: folders
            invariant
                it.seq() == folders@,
                all == folder_views(folders@),
                card_views(found@) == gathered(root@, all.take(it.index() as int)),
                all_wf(card_views(found@)),
                skipped_views(skipped@) == spec_skipped(root@, all.take(it.index() as int)),
                note_views(notes@) == spec_all_notes(root@, all.take(it.index() as int)),
        {
            proof {
                let i = it.index() as int;
                assert(all.take(i + 1).drop_last() =~= all.take(i));
                assert(all.take(i + 1).last() == folder@);
            }
            let ghost before = card_views(found@);
            let ghost dropped = skipped_views(skipped@);
            let ghost noted = note_views(notes@);
            if is_hidden_entry(folder.path.as_str()) {
                assert(note_views(notes@) =~= noted + Seq::<NoteView>::empty());
            } else if !folder.is_dir {
                let skip = Skipped { path: folder.path, reason: Skip::NotADirectory };
                skipped.push(skip);
                assert(skipped_views(skipped@) =~= dropped.push(skip@));
                assert(note_views(notes@) =~= noted + Seq::<NoteView>::empty());
            } else {
                match folder.entries {
                    Some(entries) => {
                        let (made, mut passed) = Card::from_path_noting(
                            root,
                            folder.path.as_str(),
                            entries,
                        );
                        let ghost added = note_views(passed@);
                        notes.append(&mut passed);
                        assert(note_views(notes@) =~= noted + added);
                        match made {
                            Ok(card) => {
                                found.push(card);
                                assert(card_views(found@) =~= before.push(card@));
                            },
                            Err(e) => {
                                let skip = Skipped { path: folder.path, reason: Skip::NoCard(e) };
                                skipped.push(skip);
                                assert(skipped_views(skipped@) =~= dropped.push(skip@));
                            },
                        }
                    },
                    None => {
                        let skip = Skipped { path: folder.path, reason: Skip::Unreadable };
                        skipped.push(skip);
                        assert(skipped_views(skipped@) =~= dropped.push(skip@));
                        assert(note_views(notes@) =~= noted + Seq::<NoteView>::empty());
                    },
                }
            }
        }
        assert(all.take(all.len() as int) =~= all);
        let ghost unsorted = card_views(found@);
        let sorted = sort_by_title(found);
        proof {
            let views = card_views(sorted@);
            lemma_by_title_is_ranking();
            lemma_stable_sorted(views, unsorted, by_title());
            assert forall|k: int| 0 <= k < views.len() implies (#[trigger] views[k]).wf() by {
                lemma_stable_sort_keeps_items(views, unsorted, by_title(), views[k]);
                let at = choose|j: int| 0 <= j < unsorted.len() && unsorted[j] == views[k];
                assert(unsorted[at].wf());
            }
        }
        (Cards(sorted), Report { skipped, notes })
    }

    /// The page that shows the catalogue, with the stylesheet `style` and
    /// the script `script`.
    pub fn generate_static_html_page(self, style: &str, script: &str) -> (page: String)
        ensures
            page@ == page_html(self@, style@, script@),
    {
        let mut left_column = String::new();
        let mut right_column = String::new();
        let ghost all = card_views(self.0@);
        let mut on_left = true;
        for card in it: self.0
            invariant
                it.seq() == self.0@,
                all == card_views(self.0@),
                on_left == (it.index() % 2 == 0),
                left_column@ == column_html(all.take(it.index() as int), 0),
                right_column@ == column_html(all.take(it.index() as int), 1),
        {
            proof {
                let i = it.index() as int;
                assert(all.take(i + 1).drop_last() =~= all.take(i));
                assert(all.take(i + 1).last() == card@);
            }
            if on_left {
                left_column.append(card.into_html_string().as_str());
                left_column.append("\n");
            } else {
                right_column.append(card.into_html_string().as_str());
                right_column.append("\n");
            }
            on_left = !on_left;
        }
        assert(all.take(all.len() as int) =~= all);
        let mut page = String::from_str(PAGE_OPEN);
        page.append(style);
        page.append(PAGE_LEFT_OPEN);
        page.append(left_column.as_str());
        page.append(PAGE_RIGHT_OPEN);
        page.append(right_column.as_str());
        page.append(PAGE_SCRIPT_OPEN);
        page.append(script);
        page.append(PAGE_CLOSE);
        assert(page@ =~= page_html(self@, style@, script@));
        page
    }

    /// The cards, in the order of their titles.
    pub fn cards(&self) -> (cards: &Vec<Card>)
        ensures
            card_views(cards@) == self@,
    {
        &self.0
    }
}

/// The cards that folders become are as every card is.
pub proof fn lemma_gathered_are_wf(root: Seq<char>, folders: Seq<FolderView>)
    ensures
        all_wf(gathered(root, folders)),
    decreases folders.len(),
{
    if folders.len() > 0 {
        lemma_gathered_are_wf(root, folders.drop_last());
        let last = folders.last();
        if spec_card_of(root, last) is Some {
            lemma_card_is_wf(root, last.path, last.entries->0);
        }
    }
}

/// The catalogue of a library is in ascending order of title, each of its
/// cards is as every card is, and it holds the cards that the folders
/// become, each as often as they do.
pub proof fn lemma_catalog_is_sorted(root: Seq<char>, folders: Seq<FolderView>)
    ensures
        ascending(spec_catalog(root, folders), by_title()),
        all_wf(spec_catalog(root, folders)),
        spec_catalog(root, folders).to_multiset() == gathered(root, folders).to_multiset(),
        spec_catalog(root, folders).len() == gathered(root, folders).len(),
{
    let unsorted = gathered(root, folders);
    let sorted = spec_catalog(root, folders);
    lemma_by_title_is_ranking();
    lemma_stable_sorted_sorts(unsorted, by_title());
    lemma_gathered_are_wf(root, folders);
    assert forall|k: int| 0 <= k < sorted.len() implies (#[trigger] sorted[k]).wf() by {
        lemma_stable_sort_keeps_items(sorted, unsorted, by_title(), sorted[k]);
        let at = choose|j: int| 0 <= j < unsorted.len() && unsorted[j] == sorted[k];
        assert(unsorted[at].wf());
    }
}

/// Two scans that find the same folders with the same contents give one
/// catalogue and one page.
pub proof fn lemma_same_scan_same_catalog(
    root: Seq<char>,
    folders: Seq<FolderView>,
    first: Seq<CardView>,
    second: Seq<CardView>,
    style: Seq<char>,
    script: Seq<char>,
)
    requires
        first == spec_catalog(root, folders),
        second == spec_catalog(root, folders),
    ensures
        first == second,
        page_html(first, style, script) == page_html(second, style, script),
{
}


/// A card is among those that folders become exactly where one of the
/// folders becomes that card.
pub proof fn lemma_gathered_items(root: Seq<char>, folders: Seq<FolderView>, card: CardView)
    ensures
        gathered(root, folders).contains(card) <==> exists|k: int|
            0 <= k < folders.len() && spec_card_of(root, #[trigger] folders[k]) == Some(card),
    decreases folders.len(),
{
    let all = gathered(root, folders);
    if folders.len() > 0 {
        let short = folders.drop_last();
        let rest = gathered(root, short);
        lemma_gathered_items(root, short, card);
        if all.contains(card) {
            let at = choose|i: int| 0 <= i < all.len() && all[i] == card;
            if at < rest.len() {
                assert(rest[at] == card);
                let k = choose|k: int|
                    0 <= k < short.len() && spec_card_of(root, #[trigger] short[k]) == Some(card);
                assert(folders[k] == short[k]);
            } else {
                assert(spec_card_of(root, folders[folders.len() - 1]) == Some(card));
            }
        }
        if exists|k: int|
            0 <= k < folders.len() && spec_card_of(root, #[trigger] folders[k]) == Some(card) {
            let k = choose|k: int|
                0 <= k < folders.len() && spec_card_of(root, #[trigger] folders[k]) == Some(card);
            if k < folders.len() - 1 {
                assert(short[k] == folders[k]);
                let at = choose|i: int| 0 <= i < rest.len() && rest[i] == card;
                assert(all[at] == card);
            } else {
                assert(all[all.len() - 1] == card);
            }
        }
    }
}

/// The catalogue does not depend on the order in which a scan finds the
/// folders of the library, where no two cards have one title: two scans
/// that find the same folders give one catalogue.
pub proof fn lemma_catalog_ignores_scan_order(
    root: Seq<char>,
    first: Seq<FolderView>,
    second: Seq<FolderView>,
)
    requires
        forall|folder: FolderView| first.contains(folder) <==> second.contains(folder),
        ranks_differ(gathered(root, first), by_title()),
        ranks_differ(gathered(root, second), by_title()),
    ensures
        spec_catalog(root, first) == spec_catalog(root, second),
{
    let one = gathered(root, first);
    let two = gathered(root, second);
    lemma_by_title_is_ranking();
    assert forall|card: CardView| one.contains(card) <==> two.contains(card) by {
        lemma_gathered_items(root, first, card);
        lemma_gathered_items(root, second, card);
        if one.contains(card) {
            let k = choose|k: int|
                0 <= k < first.len() && spec_card_of(root, #[trigger] first[k]) == Some(card);
            assert(second.contains(first[k]));
            let j = choose|j: int| 0 <= j < second.len() && second[j] == first[k];
            assert(spec_card_of(root, second[j]) == Some(card));
        }
        if two.contains(card) {
            let k = choose|k: int|
                0 <= k < second.len() && spec_card_of(root, #[trigger] second[k]) == Some(card);
            assert(first.contains(second[k]));
            let j = choose|j: int| 0 <= j < first.len() && first[j] == second[k];
            assert(spec_card_of(root, first[j]) == Some(card));
        }
    }
    lemma_order_of_items_is_immaterial(one, two, by_title());
}

} // verus!
