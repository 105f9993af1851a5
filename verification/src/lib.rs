//! Extraction and filtering of to-do items that are embedded in markdown
//! documents as task-list entries carrying an inline `agmd:` scheduling
//! annotation.
//!
//! The library parses annotation bodies into schedule intervals, parses
//! relative date-range query expressions, decides whether a schedule is
//! active for a query on a given day, and reconstructs task records from a
//! markdown tokenizer's event stream.

use vstd::prelude::*;

pub mod agmd;
pub mod date;
pub mod date_range;
pub mod markdown;
pub mod num;
pub mod text;

use crate::date_range::DateRangeFormat;

verus! {

/// The command-line surface: which records to show, and the query window
/// that tasks are filtered by.
#[derive(Debug, Clone)]
pub struct Cli {
    /// Show only records whose annotation failed to parse.
    pub malformed: bool,
    /// Include completed tasks as well.
    pub done: bool,
    /// The date-range filter, defaulting to today alone.
    pub date_range: DateRangeFormat,
}

} // verus!
