//! The data that flows through a search: rule files, compiled work items,
//! query matches and the results reported for them.

use vstd::prelude::*;

verus! {

/// Severity level of a rules file, reported in SARIF output.
#[derive(Debug, Clone, Copy, PartialEq, Eq, Structural)]
pub enum Level {
    Error,
    Warning,
    Note,
}

/// A single rule within a rules file: a reason shown with each match,
/// regex constraints on query variables (`var=regex`) and query patterns.
#[derive(Debug, Clone)]
pub struct Rule {
    pub reason: String,
    pub regexes: Vec<String>,
    pub patterns: Vec<String>,
}

/// One rules file: an issue identifier, its description, an optional level
/// and the rules it holds.
#[derive(Debug, Clone)]
pub struct Rules {
    pub issue: String,
    pub description: String,
    pub level: Option<Level>,
    pub rules: Vec<Rule>,
}

/// Options from the command line that control result filtering.
#[derive(Debug, Clone, Copy)]
pub struct Options {
    /// Only report the first match at each start offset (one per function).
    pub limit: bool,
    /// Require the values of all variables within one match to differ.
    pub unique: bool,
}

/// A compiled pattern ready for execution: the identifiers a file must
/// contain for the pattern to possibly match, and the reason and issue it
/// reports under.
#[derive(Debug, Clone)]
pub struct WorkItem {
    pub identifiers: Vec<String>,
    pub reason: String,
    pub issue: String,
}

/// The text a query variable (such as `$buf`) was bound to in a match.
#[derive(Debug, Clone)]
pub struct Binding {
    pub variable: String,
    pub value: String,
}

/// What the library reads of one query match: the byte offset where it
/// starts, the byte offset where its enclosing function ends, and the
/// value bound to each of its variables (one entry per variable).
#[derive(Debug, Clone)]
pub struct QueryMatch {
    pub start_offset: usize,
    pub function_end: usize,
    pub bindings: Vec<Binding>,
}

/// One match of one query in one file, with where it came from.
#[derive(Debug, Clone)]
pub struct ResultsCtx {
    /// Position of the query among all compiled queries of a rules file.
    pub query_index: usize,
    pub path: String,
    pub source: String,
    pub result: QueryMatch,
    pub reason: String,
    pub issue: String,
}

/// A result as reported: its query, file, reason, issue and the 0-based
/// line / 1-based column where the match starts and its function ends.
#[derive(Debug, Clone, PartialEq, Eq, Hash)]
pub struct OutputResults {
    pub query_index: usize,
    pub path: String,
    pub reason: String,
    pub issue: String,
    pub start_line: i64,
    pub start_column: i64,
    pub end_line: i64,
    pub end_column: i64,
}

} // verus!
