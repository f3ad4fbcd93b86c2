//! Parser for an outline-style worklog file.
//!
//! The file begins with two header lines, `#+JIRA_URL: <url>` and
//! `#+USERNAME: <name>`. Every following line is classified as an issue
//! header (`* ABC-1 (description)`), a clock line
//! (`CLOCK: [<start>]--[<end>] => ...`), or insignificant text, and the
//! stream is folded into issues, each carrying the worklogs that followed
//! its header.

use vstd::prelude::*;

pub mod chars;
pub mod classify;
pub mod document;
pub mod keyword;
pub mod timestamp;

pub use classify::{LineError, LineType, parse_line};
pub use document::{DocError, Issue, ParsedData, Worklog, parse_document};
pub use keyword::{KeywordError, parse_keyword};
pub use timestamp::{Timestamp, parse_timestamp};

verus! {

} // verus!
