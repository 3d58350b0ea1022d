//! A small line-oriented text-search library.
//!
//! The matcher finds the lines of a text that contain a query string,
//! case-sensitively or case-insensitively; the report module turns the
//! matches found in one file or in a list of files into printable report
//! lines; the config module builds the search configuration from plain
//! command-line values.

pub mod config;
pub mod matcher;
pub mod report;
pub mod text;
