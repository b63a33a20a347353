//! Ranking of fuzzy-match results and width-bounded truncation of matched
//! lines for display.
//!
//! The fuzzy matcher itself (scoring a query against a candidate line) and all
//! I/O are external collaborators: they hand this library plain values.  The
//! library ranks the matched lines by score, truncates over-long lines so that
//! the matched character positions stay visible inside a fixed display window,
//! and records a reverse mapping from each truncated line back to its original.

pub mod numbering;
pub mod pipeline;
pub mod rank;
pub mod truncate;
pub mod truncmap;

pub use numbering::number_lines;
pub use pipeline::prepare_top_items;
pub use pipeline::run;
pub use pipeline::Algo;
pub use pipeline::FilterOutput;
pub use pipeline::TopItems;
pub use pipeline::DEFAULT_WINWIDTH;
pub use truncmap::LinesTruncatedMap;
pub use truncate::truncate_long_matched_lines;
pub use rank::fuzzy_filter_and_rank;
pub use rank::sorted_by_score_desc;
pub use rank::FuzzyMatchedLineInfo;
