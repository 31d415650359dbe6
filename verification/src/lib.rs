//! Verified core of a rule-driven semantic code search tool: rule and regex
//! constraint handling, file selection, match filtering, cross-query chaining
//! and the location arithmetic behind SARIF and terminal reports.

pub mod text;
pub mod types;
pub mod chain;
pub mod regex;
pub mod rules;
pub mod files;
pub mod pipeline;
pub mod sarif;
pub mod cli;
pub mod laws;
