//! Counts the lines, words, bytes and characters of byte buffers and the
//! length of their longest line, as `wc` does.
//!
//! A buffer is cut into chunks, the chunks are scanned in parallel, and the
//! scans are merged in order; the merge sees to the words and lines that run
//! across the seams, so that the result is that of a single scan.
//!
//! - [`text`] says what the counts of a byte sequence are.
//! - [`chunk`] scans a chunk and merges the scans of neighbours.
//! - [`chars`] counts characters.
//! - [`counter`] holds the record, the sum of records and the scan of a
//!   whole buffer.
//! - [`parser`] holds the options and the statistics that they select.
//! - [`printer`] and [`json`] write records out as a report.
//! - [`error`] holds the failures.
pub mod chars;
pub mod chunk;
pub mod counter;
pub mod error;
pub mod json;
pub mod parser;
pub mod printer;
pub mod text;
