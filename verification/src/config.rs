//! The settings of the program.

use vstd::prelude::*;
use vstd::string::*;
use crate::card::option_text;

verus! {

/// The settings: where the library lies, where the catalogue is served,
/// and how descriptions and thumbnails are found on the pages of a movie
/// database.
#[derive(Debug, Clone)]
pub struct Config {
    /// The root of the library, once one was chosen.
    pub target_dir: Option<String>,
    pub port: String,
    pub imdb_url: String,
    pub imdb_description_start_match: String,
    pub imdb_description_end_match: String,
    pub imdb_year_start_match: String,
    pub imdb_year_end_match: String,
    pub imdb_image_redirect_start_match: String,
    pub imdb_image_redirect_end_match: String,
    pub imdb_image_start_match: String,
    pub imdb_image_end_match: String,
    pub user_agent: String,
    /// How long to wait for a connection, in seconds.
    pub connection_timeout: u64,
}

/// A `Config` as plain values.
pub struct ConfigView {
    pub target_dir: Option<Seq<char>>,
    pub port: Seq<char>,
    pub imdb_url: Seq<char>,
    pub imdb_description_start_match: Seq<char>,
    pub imdb_description_end_match: Seq<char>,
    pub imdb_year_start_match: Seq<char>,
    pub imdb_year_end_match: Seq<char>,
    pub imdb_image_redirect_start_match: Seq<char>,
    pub imdb_image_redirect_end_match: Seq<char>,
    pub imdb_image_start_match: Seq<char>,
    pub imdb_image_end_match: Seq<char>,
    pub user_agent: Seq<char>,
    pub connection_timeout: u64,
}

impl View for Config {
    type V = ConfigView;

    open spec fn view(&self) -> ConfigView {
        ConfigView {
            target_dir: option_text(self.target_dir),
            port: self.port@,
            imdb_url: self.imdb_url@,
            imdb_description_start_match: self.imdb_description_start_match@,
            imdb_description_end_match: self.imdb_description_end_match@,
            imdb_year_start_match: self.imdb_year_start_match@,
            imdb_year_end_match: self.imdb_year_end_match@,
            imdb_image_redirect_start_match: self.imdb_image_redirect_start_match@,
            imdb_image_redirect_end_match: self.imdb_image_redirect_end_match@,
            imdb_image_start_match: self.imdb_image_start_match@,
            imdb_image_end_match: self.imdb_image_end_match@,
            user_agent: self.user_agent@,
            connection_timeout: self.connection_timeout,
        }
    }
}

/// The name of the file that holds the settings.
pub const FILENAME: &'static str = "silvus.conf";

/// The settings of a program that was never set up: no library, port
/// 1888, and a wait of five seconds for a connection.
pub open spec fn default_config() -> ConfigView {
    ConfigView {
        target_dir: None,
        port: "1888"@,
        imdb_url: "https://www.imdb.com/"@,
        imdb_description_start_match: "class=\"sc-2d37a7c7-2 ggeRnl\">"@,
        imdb_description_end_match: "</span></p>"@,
        imdb_year_start_match: "releaseinfo?ref_=tt_ov_rdat\">"@,
        imdb_year_end_match: "</a>"@,
        imdb_image_redirect_start_match: "class=\"ipc-lockup-overlay ipc-focusable\" href=\""@,
        imdb_image_redirect_end_match: "\""@,
        imdb_image_start_match: "https://m.media-amazon.com/images/"@,
        imdb_image_end_match: "\""@,
        user_agent: "Mozilla/5.0 (X11; Linux x86_64; rv:129.0) Gecko/20100101 Firefox/129.0"@,
        connection_timeout: 5,
    }
}

impl Default for Config {
    fn default() -> (config: Config)
        ensures
            config@ == default_config(),
    {
        Config {
            target_dir: None,
            port: String::from_str("1888"),
            imdb_url: String::from_str("https://www.imdb.com/"),
            imdb_description_start_match: String::from_str("class=\"sc-2d37a7c7-2 ggeRnl\">"),
            imdb_description_end_match: String::from_str("</span></p>"),
            imdb_year_start_match: String::from_str("releaseinfo?ref_=tt_ov_rdat\">"),
            imdb_year_end_match: String::from_str("</a>"),
            imdb_image_redirect_start_match: String::from_str(
                "class=\"ipc-lockup-overlay ipc-focusable\" href=\"",
            ),
            imdb_image_redirect_end_match: String::from_str("\""),
            imdb_image_start_match: String::from_str("https://m.media-amazon.com/images/"),
            imdb_image_end_match: String::from_str("\""),
            user_agent: String::from_str(
                "Mozilla/5.0 (X11; Linux x86_64; rv:129.0) Gecko/20100101 Firefox/129.0",
            ),
            connection_timeout: 5,
        }
    }
}

} // verus!
