//! Structured extraction of log lines: a structural matcher that recognizes
//! `LEVEL [TIMESTAMP] MESSAGE` lines, a timestamp reconstruction that
//! combines the bracketed text with a caller-supplied year, a key/value scan
//! over the message, and the per-run tally.

pub mod chars;
pub mod entry;
pub mod kv;
pub mod matcher;
pub mod stamp;
pub mod tally;
