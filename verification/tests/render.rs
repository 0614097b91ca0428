use silvus::card::cards::{Cards, Folder};
use silvus::card::other::Other;
use silvus::card::{display, Card, FileSize, FolderEntry};

const MOVIE: &str = "<div class=\"card\">\n    <div class=\"card-header\">\n        <div class=\"card-header-thumbnail\"><img src=\"/res/.assets/default_thumbnail.png\" /></div>\n        <div class=\"card-header-box\">\n            <div class=\"card-header-box-title\"><h2>Custom Title</h2></div>\n            <div class=\"card-header-box-subtitle\">\n                <p>\n                    ???? \u{2022} 3 MB \u{2022} <a href=\"/res/Movie A/movie.mkv\" download><img src=\"/res/.assets/download.svg\" /></a>\n                </p>\n            </div>\n        </div>\n    </div>\n    <div class=\"card-expand\">\n        <p>No description provided.</p>\n    </div>\n</div>";
const MOVIE_FULL: &str = "<div class=\"card\">\n    <div class=\"card-header\">\n        <div class=\"card-header-thumbnail\"><img src=\"/res/Heat/.thumbnail\" /></div>\n        <div class=\"card-header-box\">\n            <div class=\"card-header-box-title\"><h2>Heat</h2></div>\n            <div class=\"card-header-box-subtitle\">\n                <p>\n                    1995 \u{2022} 4294 MB \u{2022} <a href=\"/res/Heat/heat.mp4\" download><img src=\"/res/.assets/download.svg\" /></a>\n                </p>\n            </div>\n        </div>\n    </div>\n    <div class=\"card-expand\">\n        <p>A heist.</p>\n    </div>\n</div>";
const SHOW: &str = "<div class=\"card\">\n    <div class=\"card-header\">\n        <div class=\"card-header-thumbnail\"><img src=\"/res/Show/.thumbnail.jpg\" /></div>\n        <div class=\"card-header-box\">\n            <div class=\"card-header-box-title\"><h2>The Show</h2></div>\n            <div class=\"card-header-box-subtitle\">\n                <p>2001 \u{2022} Second try</p>\n            </div>\n        </div>\n    </div>\n    <div class=\"card-expand\">\n        <p>\n            Things happen.\n        </p>\n        <ul>\n            <li>season\u{2009}\u{2009}01 \u{2022} episode\u{2009}\u{2009}03 \u{2022} 2\u{2009}\u{2009}MB \u{2022} <a href=\"/res/Show/e03.mkv\" download><img src=\"/res/.assets/download.svg\" /></a></li>\n<li>season\u{2009}\u{2009}01 \u{2022} episode\u{2009}\u{2009}10 \u{2022} 700\u{2009}\u{2009}MB \u{2022} <a href=\"/res/Show/S01E10.mkv\" download><img src=\"/res/.assets/download.svg\" /></a></li>\n<li>season\u{2009}\u{2009}02 \u{2022} episode\u{2009}\u{2009}01 \u{2022} 0\u{2009}\u{2009}MB \u{2022} <a href=\"/res/Show/s02e01.mkv\" download><img src=\"/res/.assets/download.svg\" /></a></li>\n\n        </ul>\n    </div>\n</div>";
const SHOW_EMPTY: &str = "<div class=\"card\">\n    <div class=\"card-header\">\n        <div class=\"card-header-thumbnail\"><img src=\"/res/.assets/default_thumbnail.png\" /></div>\n        <div class=\"card-header-box\">\n            <div class=\"card-header-box-title\"><h2>Bare</h2></div>\n            <div class=\"card-header-box-subtitle\">\n                <p>???? </p>\n            </div>\n        </div>\n    </div>\n    <div class=\"card-expand\">\n        <p>\n            No description provided.\n        </p>\n        <ul>\n            \n        </ul>\n    </div>\n</div>";
const PAGE: &str = "<!doctype html>\n<html lang=\"en\">\n    <head>\n        <meta charset=\"UTF-8\" />\n        <meta name=\"viewport\" content=\"width=device-width, initial-scale=1.0\" />\n        <meta name=\"description\" content=\"server\" />\n        <meta name=\"author\" content=\"anesthetice\" />\n        <title>Silvus</title>\n        <style>\n            body {}\n        </style>\n    </head>\n    <body>\n        <div class=\"page-header\">\n            <img src=\"/res/.assets/icon.svg\" />\n        </div>\n        <div class=\"card-row\">\n            <div class=\"card-column\">\n                <div class=\"card\">\n    <div class=\"card-header\">\n        <div class=\"card-header-thumbnail\"><img src=\"/res/Heat/.thumbnail\" /></div>\n        <div class=\"card-header-box\">\n            <div class=\"card-header-box-title\"><h2>Heat</h2></div>\n            <div class=\"card-header-box-subtitle\">\n                <p>\n                    1995 \u{2022} 4294 MB \u{2022} <a href=\"/res/Heat/heat.mp4\" download><img src=\"/res/.assets/download.svg\" /></a>\n                </p>\n            </div>\n        </div>\n    </div>\n    <div class=\"card-expand\">\n        <p>A heist.</p>\n    </div>\n</div>\n<div class=\"card\">\n    <div class=\"card-header\">\n        <div class=\"card-header-thumbnail\"><img src=\"/res/.assets/default_thumbnail.png\" /></div>\n        <div class=\"card-header-box\">\n            <div class=\"card-header-box-title\"><h2>Bare</h2></div>\n            <div class=\"card-header-box-subtitle\">\n                <p>???? </p>\n            </div>\n        </div>\n    </div>\n    <div class=\"card-expand\">\n        <p>\n            No description provided.\n        </p>\n        <ul>\n            \n        </ul>\n    </div>\n</div>\n\n            </div>\n            <div class=\"card-column\">\n                <div class=\"card\">\n    <div class=\"card-header\">\n        <div class=\"card-header-thumbnail\"><img src=\"/res/.assets/default_thumbnail.png\" /></div>\n        <div class=\"card-header-box\">\n            <div class=\"card-header-box-title\"><h2>Custom Title</h2></div>\n            <div class=\"card-header-box-subtitle\">\n                <p>\n                    ???? \u{2022} 3 MB \u{2022} <a href=\"/res/Movie A/movie.mkv\" download><img src=\"/res/.assets/download.svg\" /></a>\n                </p>\n            </div>\n        </div>\n    </div>\n    <div class=\"card-expand\">\n        <p>No description provided.</p>\n    </div>\n</div>\n\n            </div>\n        </div>\n        <script>\n            run();\n        </script>\n    </body>\n</html>\n";
const PAGE_EMPTY: &str = "<!doctype html>\n<html lang=\"en\">\n    <head>\n        <meta charset=\"UTF-8\" />\n        <meta name=\"viewport\" content=\"width=device-width, initial-scale=1.0\" />\n        <meta name=\"description\" content=\"server\" />\n        <meta name=\"author\" content=\"anesthetice\" />\n        <title>Silvus</title>\n        <style>\n            \n        </style>\n    </head>\n    <body>\n        <div class=\"page-header\">\n            <img src=\"/res/.assets/icon.svg\" />\n        </div>\n        <div class=\"card-row\">\n            <div class=\"card-column\">\n                \n            </div>\n            <div class=\"card-column\">\n                \n            </div>\n        </div>\n        <script>\n            \n        </script>\n    </body>\n</html>\n";

fn file(path: &str, size: u64) -> FolderEntry {
    FolderEntry { path: path.to_string(), is_text: true, is_file: true, size: Some(size), text: None }
}

fn sidecar(path: &str, text: &str) -> FolderEntry {
    FolderEntry {
        path: path.to_string(),
        is_text: true, is_file: true,
        size: Some(text.len() as u64),
        text: Some(text.to_string()),
    }
}

fn movie_a() -> Vec<FolderEntry> {
    vec![file("/lib/Movie A/movie.mkv", 3_000_000), sidecar("/lib/Movie A/.title", "Custom Title")]
}

fn heat() -> Vec<FolderEntry> {
    vec![
        sidecar("/lib/Heat/.year", "1995\n"),
        sidecar("/lib/Heat/.descr", " A heist. "),
        file("/lib/Heat/.thumbnail", 20_000),
        file("/lib/Heat/heat.mp4", 4_294_967_296),
        file("/lib/Heat/notes.txt", 12),
    ]
}

fn the_show() -> Vec<FolderEntry> {
    vec![
        file("/lib/Show/s02e01.mkv", 999_999),
        file("/lib/Show/S01E10.mkv", 700_000_000),
        sidecar("/lib/Show/.title", "The Show"),
        sidecar("/lib/Show/.subt", "Second try"),
        sidecar("/lib/Show/.year", "2001"),
        sidecar("/lib/Show/.description", "Things happen.\n"),
        file("/lib/Show/.thumbnail.jpg", 5),
        file("/lib/Show/e03.mkv", 2_500_000),
        file("/lib/Show/trailer.mkv", 1_000_000),
    ]
}

fn bare() -> Vec<FolderEntry> {
    vec![file("/lib/Bare/one.avi", 1), file("/lib/Bare/two.avi", 2)]
}

#[test]
fn movie_fragment_with_fallbacks() {
    let card = Card::from_path("/lib", "/lib/Movie A", movie_a()).unwrap();
    assert_eq!(card.into_html_string(), MOVIE);
}

#[test]
fn movie_fragment_with_all_fields() {
    let card = Card::from_path("/lib", "/lib/Heat", heat()).unwrap();
    assert_eq!(card.into_html_string(), MOVIE_FULL);
}

#[test]
fn end_to_end_movie_fragment() {
    let card = Card::from_path("/lib", "/lib/Movie A", movie_a()).unwrap();
    let html = card.into_html_string();
    assert!(html.contains("Custom Title"));
    assert!(html.contains("<a href=\"/res/Movie A/movie.mkv\" download>"));
    assert!(html.contains("3 MB"));
}

#[test]
fn show_fragment_lists_episodes_in_order() {
    let card = Card::from_path("/lib", "/lib/Show", the_show()).unwrap();
    assert_eq!(card.into_html_string(), SHOW);
}

#[test]
fn show_fragment_without_episodes() {
    let card = Card::from_path("/lib", "/lib/Bare", bare()).unwrap();
    assert_eq!(card.into_html_string(), SHOW_EMPTY);
}

#[test]
fn other_card_fragment() {
    let other = Other::new(
        "Stuff".to_string(),
        None,
        None,
        vec![("Stuff/a.pdf".to_string(), FileSize(1)), ("Stuff/b c.zip".to_string(), FileSize(20))],
    );
    assert_eq!(other.title(), "Stuff");
    assert_eq!(other.content().len(), 2);
    let expected = "<div class=\"card\">\n    <div class=\"card-header\">\n        \
        <div class=\"card-header-thumbnail\"><img src=\"/res/.assets/default_thumbnail.png\" /></div>\n        \
        <div class=\"card-header-box\">\n            \
        <div class=\"card-header-box-title\"><h2>Stuff</h2></div>\n        </div>\n    </div>\n    \
        <div class=\"card-expand\">\n        <p>\n            No description provided.\n        </p>\n        \
        <ul>\n            \
        <li>Stuff/a.pdf \u{2022} 1 MB \u{2022} <a href=\"/res/Stuff/a.pdf\" download>\
        <img src=\"/res/.assets/download.svg\" /></a></li>\n\
        <li>Stuff/b c.zip \u{2022} 20 MB \u{2022} <a href=\"/res/Stuff/b c.zip\" download>\
        <img src=\"/res/.assets/download.svg\" /></a></li>\n\n        </ul>\n    </div>\n</div>";
    assert_eq!(Card::Other(other).into_html_string(), expected);
}

#[test]
fn other_card_fragment_with_all_fields() {
    let other = Other::new(
        "Papers".to_string(),
        Some("Scans.".to_string()),
        Some("Papers/.thumbnail".to_string()),
        Vec::new(),
    );
    assert_eq!(other.description(), Some("Scans."));
    assert_eq!(other.thumbnail(), Some("Papers/.thumbnail"));
    let html = other.into_html_string();
    assert!(html.starts_with("<div class=\"card\">"));
    assert!(html.contains("<img src=\"/res/Papers/.thumbnail\" />"));
    assert!(html.contains("<h2>Papers</h2>"));
    assert!(html.contains("<p>\n            Scans.\n        </p>"));
    assert!(html.contains("<ul>\n            \n        </ul>"));
    assert!(html.ends_with("</div>"));
}

#[test]
fn page_alternates_columns() {
    let folder = |path: &str, entries: Vec<FolderEntry>| Folder {
        path: path.to_string(),
        is_dir: true,
        entries: Some(entries),
    };
    let folders = vec![
        folder("/lib/Movie A", movie_a()),
        folder("/lib/Bare", bare()),
        folder("/lib/Heat", heat()),
    ];
    let cards = Cards::load(Some("/lib"), Some(folders)).unwrap();
    let titles: Vec<&str> = cards.cards().iter().map(|c| c.get_title()).collect();
    assert_eq!(titles, vec!["Bare", "Custom Title", "Heat"]);
    let page = cards.generate_static_html_page("body {}", "run();");
    let expected = PAGE.replace(
        &format!("{}\n{}\n", MOVIE_FULL, SHOW_EMPTY),
        &format!("{}\n{}\n", SHOW_EMPTY, MOVIE_FULL),
    );
    assert_eq!(page, expected);
}

#[test]
fn page_of_an_empty_catalog() {
    let cards = Cards::load(Some("/lib"), Some(Vec::new())).unwrap();
    assert_eq!(cards.generate_static_html_page("", ""), PAGE_EMPTY);
}

#[test]
fn display_wraps_a_value_or_gives_the_alternative() {
    assert_eq!(display(Some("x"), "<", ">", "none"), "<x>");
    assert_eq!(display(None, "<", ">", "none"), "none");
}
