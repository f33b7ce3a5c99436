//! Feed extraction and download planning for a private photo and video album.
//!
//! The crate holds the decisions of an album downloader as functions on plain
//! values: isolating the media listing embedded in a page, walking the pages
//! of the feed, naming local files, deciding what still needs downloading and
//! sequencing a run. Network and file access are left to the caller.

pub mod client;
pub mod controller;
pub mod executor;
pub mod feed;
pub mod model;
pub mod normalize;
pub mod paginator;
pub mod planner;
pub mod text;
