//! A positional-extraction engine: a parser for comma-separated range
//! specifications, and extractors that pull the selected bytes, characters
//! or delimited fields out of one unit of input.

pub mod config;
pub mod counts;
pub mod digits;
pub mod errors;
pub mod extract;
pub mod fields;
pub mod ranges;
pub mod text;

pub use config::{select_mode, validate_delimiter};
pub use counts::parse_positive_int;
pub use errors::ConfigError;
pub use extract::{Extract, extract_bytes, extract_chars};
pub use fields::extract_fields;
pub use ranges::{parse_index, parse_pos};
