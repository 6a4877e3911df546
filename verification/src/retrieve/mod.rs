//! Retrieval of what handles hold.

pub mod filter;
pub mod find;
pub mod manifest;
pub mod rows;
pub mod window;

pub use filter::{
    extract_grep_line_path, matches_glob, path_matches_file, show_filtered, show_grep_file,
};
pub use find::{format_search_all, search, search_all, CrossHandleMatch, SearchRow};
pub use manifest::{files, files_grep};
pub use rows::{calls, inspect, CallRecord, CallsOpts, HandleEntry, InspectResult};
pub use window::{
    apply_offset, bound_lines, offset_aware_bound, show, tail_lines, ShowOpts, StoredContent,
};
