//! A file-line printer with a pause between lines.
//!
//! The library holds everything the tool decides and computes: how a byte
//! stream is split into lines, what gets written for each line, how long
//! the pauses are, what the error messages say, and when a run aborts.
//! The binary around it only performs the reads, writes and sleeps that
//! the library plans.

pub mod error;
pub mod lines;
pub mod plan;
pub mod run;
