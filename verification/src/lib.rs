//! Catalogue of a personal media library: folders are classified as movies or
//! shows, their metadata is read from sidecar files, and the result is
//! rendered as one HTML page.

pub mod card;
pub mod config;
pub mod order;
pub mod scrape;
pub mod text;
pub mod utils;
