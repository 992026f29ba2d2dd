//! Trims trailing whitespace from the lines that are staged for commit.
//!
//! The library decides which staged diff lines carry trailing whitespace,
//! groups their line numbers per file, and rewrites file contents so that
//! exactly those lines lose their trailing spaces and tabs.

pub mod classify;
pub mod error;
pub mod paths;
pub mod rewrite;
pub mod scan;

pub use classify::{is_flagged_line, trailing_whitespaces};
pub use error::RTrimError;
pub use paths::{calculate_hash, path_combine, temp_file_name};
pub use rewrite::{rewrite_lines, strip_terminator, trim_line};
pub use scan::{collect_trailing_lines, DiffLine, FileLines, TrailingLineMap};
