//! Compact views of the output of `grepai`, a semantic code search tool.
//!
//! `grepai search` and `grepai trace` print long listings with code bodies.
//! This crate reads those listings line by line and writes a short report:
//! one row per search result, or one row per file with the lines that call a
//! symbol. Text that is no such listing passes through, trimmed.

pub mod command;
pub mod grammar;
pub mod grammar_laws;
pub mod layout;
pub mod order_laws;
pub mod path;
pub mod path_laws;
pub mod pattern;
pub mod search;
pub mod search_laws;
pub mod search_report_laws;
pub mod text;
pub mod text_laws;
pub mod trace;
pub mod trace_laws;
pub mod trace_report_laws;

pub use command::{command_line, exit_code, filter_output, message, raw_output};
pub use path::{compact_parent, split_path};
pub use search::filter_search;
pub use trace::filter_trace;
