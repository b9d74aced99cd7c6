//! Verified model of a legacy continuous-printer bill stream.
//!
//! A bill file is a byte buffer made of a fixed control-code header, a run of
//! bill records separated by a record marker, and a footer whose six ASCII
//! digits record the bill count.  The library parses such buffers into
//! structured values, validates every structural invariant of the format,
//! and assembles new, provably valid files from a chosen subset of bills.

pub mod format;
pub mod error;
pub mod text;
pub mod data;
pub mod acctid;
pub mod bill;
pub mod file;
pub mod laws;
pub mod billfile;
pub mod menu;
pub mod applogic;
pub mod ui;
