//! A small line-oriented text search library: given a query string and the
//! full contents of a text file, return every line that contains the query,
//! either with exact case or with ASCII case folding.

pub mod config;
pub mod engine;
pub mod laws;
pub mod model;

pub use config::Config;
pub use engine::run_search;
pub use engine::search;
pub use engine::search_case_insensitive;
