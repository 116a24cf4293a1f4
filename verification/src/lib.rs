//! Rewrites the leading timestamp of each line of a text stream.
//!
//! The crate parses decimal fixed-point timestamps, detects the input
//! format of a line, and renders timestamps (or deltas between them)
//! with exact integer arithmetic.

pub mod cal;
pub mod laws;
pub mod numeral;
pub mod opts;
pub mod parse;
pub mod process;
pub mod text;
pub mod timestamp;
pub mod write;

pub use opts::{parse_input_format, parse_output_format, try_parse_unit, try_parse_precision};
pub use parse::{parse_decimal, parse_string, parse_line, detect_format, InputFormat};
pub use process::process_line;
pub use timestamp::Timestamp;
pub use write::{format_seconds, Unit, Precision, OutputFormat};
