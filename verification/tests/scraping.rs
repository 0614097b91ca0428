use silvus::config::{Config, FILENAME};
use silvus::scrape::{cut, description_of, image_of, image_page_of, CutError};

#[test]
fn cut_takes_what_stands_between() {
    assert_eq!(cut("<p>text</p>", "<p>", "</p>", false), Ok("text".to_string()));
    assert_eq!(cut("<p>text</p>", "<p>", "</p>", true), Ok("<p>text".to_string()));
    assert_eq!(cut("a<p>one</p><p>two</p>", "<p>", "</p>", false), Ok("one".to_string()));
    assert_eq!(cut("xx", "x", "x", false), Ok(String::new()));
    assert_eq!(cut("xx", "x", "x", true), Ok(String::new()));
    assert_eq!(cut("\u{e9}[\u{e8}]", "[", "]", false), Ok("\u{e8}".to_string()));
}

#[test]
fn cut_fails_without_its_marks() {
    assert_eq!(cut("text</p>", "<p>", "</p>", false), Err(CutError::StartNotFound));
    assert_eq!(cut("<p>text", "<p>", "</p>", false), Err(CutError::EndNotFound));
    assert_eq!(cut("</p><p>text", "<p>", "</p>", false), Err(CutError::EndNotFound));
    assert_eq!(cut("", "a", "b", false), Err(CutError::StartNotFound));
}

#[test]
fn empty_marks_are_found_at_once() {
    assert_eq!(cut("abc", "", "c", false), Ok("ab".to_string()));
    assert_eq!(cut("abc", "b", "", false), Ok(String::new()));
    assert_eq!(cut("", "", "", false), Ok(String::new()));
}

#[test]
fn default_settings() {
    let config = Config::default();
    assert_eq!(config.target_dir, None);
    assert_eq!(config.port, "1888");
    assert_eq!(config.imdb_url, "https://www.imdb.com/");
    assert_eq!(config.imdb_description_start_match, "class=\"sc-2d37a7c7-2 ggeRnl\">");
    assert_eq!(config.imdb_description_end_match, "</span></p>");
    assert_eq!(config.imdb_year_start_match, "releaseinfo?ref_=tt_ov_rdat\">");
    assert_eq!(config.imdb_year_end_match, "</a>");
    assert_eq!(config.imdb_image_redirect_start_match, "class=\"ipc-lockup-overlay ipc-focusable\" href=\"");
    assert_eq!(config.imdb_image_redirect_end_match, "\"");
    assert_eq!(config.imdb_image_start_match, "https://m.media-amazon.com/images/");
    assert_eq!(config.imdb_image_end_match, "\"");
    assert_eq!(
        config.user_agent,
        "Mozilla/5.0 (X11; Linux x86_64; rv:129.0) Gecko/20100101 Firefox/129.0"
    );
    assert_eq!(config.connection_timeout, 5);
    assert_eq!(FILENAME, "silvus.conf");
}

#[test]
fn description_and_picture_are_cut_out_of_pages() {
    let config = Config::default();
    let page = "<span class=\"sc-2d37a7c7-2 ggeRnl\">A heist goes wrong.</span></p> \
                <a class=\"ipc-lockup-overlay ipc-focusable\" href=\"title/tt1/mediaviewer\">";
    assert_eq!(description_of(page, &config), Ok("A heist goes wrong.".to_string()));
    assert_eq!(
        image_page_of(page, &config),
        Ok("https://www.imdb.com/title/tt1/mediaviewer".to_string())
    );
    let viewer = "<img src=\"https://m.media-amazon.com/images/M/poster.jpg\" alt=\"x\">";
    assert_eq!(
        image_of(viewer, &config),
        Ok("https://m.media-amazon.com/images/M/poster.jpg".to_string())
    );
    assert_eq!(description_of(viewer, &config), Err(CutError::StartNotFound));
    assert_eq!(image_page_of(viewer, &config), Err(CutError::StartNotFound));
    assert_eq!(image_of("https://m.media-amazon.com/images/M", &config), Err(CutError::EndNotFound));
}
