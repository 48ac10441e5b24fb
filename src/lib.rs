//! A line-oriented pattern search: discovery of the files under the input
//! paths, selection of the lines that a regular expression matches (or does
//! not), and the rendering of what is reported for each file.

pub mod config;
pub mod discovery;
pub mod error;
pub mod filter;
pub mod pattern;
pub mod report;

pub use config::Config;
pub use discovery::{resolve_root, visit_entry, WalkEntry};
pub use error::GrepError;
pub use filter::{find_lines, select_lines};
pub use pattern::Pattern;
pub use report::{decimal_text, prefix_paths, report_entry};
