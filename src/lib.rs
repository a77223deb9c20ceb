//! Line-oriented substring search over an in-memory text buffer.
//!
//! Lines are cut at `\n` (a `\r` just before it is dropped), and the results
//! are slices of the searched buffer in their original order. The
//! case-insensitive search lowercases query and lines with the full Unicode
//! mapping of `str::to_lowercase`.

pub mod config;
pub mod laws;
pub mod lines;
pub mod matching;

pub use config::{find_matches, Config, MISSING_FILE_PATH, MISSING_QUERY};
pub use lines::split_lines;
pub use matching::{contains_text, search, search_case_insensitive};
