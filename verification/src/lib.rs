//! A minimal line-oriented substring search library.
//!
//! `Params::build` parses command-line tokens into a validated
//! configuration, and `search` / `search_case_insensitive` scan file
//! contents line by line for a literal substring, reporting each
//! matching line together with its zero-based index.

pub mod output;
pub mod params;
pub mod search;
pub mod text;

pub use output::matching_rows;
pub use output::render_row;
pub use params::Params;
pub use search::search;
pub use search::search_case_insensitive;
pub use text::contains_str;
pub use text::str_eq;
