//! A verified counting library in the manner of the classic `wc` tool.
//!
//! The library counts lines, words, characters and bytes of text inputs,
//! isolates per-input failures while accumulating a running total, and
//! renders a column-aligned report.  All counting, aggregation and
//! formatting logic is verified; reading the inputs is left to the caller.

pub mod aggregate;
pub mod config;
pub mod counts;
pub mod lines;
pub mod report;
pub mod words;

pub use aggregate::run;
pub use aggregate::try_run;
pub use config::Cli;
pub use counts::run_count;
pub use counts::FileInfo;
pub use report::display;
pub use report::InputResult;
