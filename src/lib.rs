//! Line-oriented text search: the lines of a text that contain a query,
//! matched exactly or without regard to case, and the validation of the
//! command-line configuration that drives such a search.
pub mod config;
pub mod search;
pub mod text;

pub use config::{Config, ConfigError};
pub use search::{line_contains, scan, search, search_case_insensitive};
