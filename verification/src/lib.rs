//! Core of a crawler that turns a username on a paginated movie-tracking
//! site into two ordered lists of movie records (a watchlist and a watched
//! list). This library holds the verified logic: markup extraction,
//! pagination discovery, URL building, retry-policy decisions, aggregation
//! of per-item results, and the final sort by title. The unverified shell
//! around it performs the HTTP fetches and file output and hands documents
//! in as plain strings.

pub mod csv_writer;
pub mod html;
pub mod movie;
pub mod movie_extractor;
pub mod pipeline;
pub mod retry;
pub mod text_util;
pub mod urls;
