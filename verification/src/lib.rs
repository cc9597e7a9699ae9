//! Completion-time statistics for games, extracted from rendered pages of a
//! tracking site.
//!
//! The library holds the whole extraction pipeline: resolving a game name to
//! the site's numeric identifier (`resolve::resolve_id`), classifying the
//! rows of a detail page's statistics table (`rows`), parsing the site's
//! human-readable duration texts into seconds (`duration::parse`), and
//! assembling the resulting `GameRecord` (`extract::extract_details`).
//! Rendering (driving a browser) is left to the caller; the functions here
//! take the rendered HTML as input.

pub mod dom;
pub mod duration;
pub mod extract;
pub mod record;
pub mod resolve;
pub mod rows;
pub mod text;

pub use duration::parse;
pub use extract::extract_details;
pub use record::GameRecord;
pub use record::LookupError;
pub use record::StatisticSet;
pub use resolve::detail_url;
pub use resolve::id_from_href;
pub use resolve::resolve_id;
pub use resolve::search_url;
pub use rows::classify;
pub use rows::classify_and_parse;
pub use rows::collect_rows;
pub use rows::Category;
pub use rows::Slots;
