//! Numbered Markdown requirements, scoped file selection and the rules that
//! turn file judgments into contract conclusions.

pub mod text;
pub mod paths;
pub mod contract;
pub mod markdown;
pub mod parse;
pub mod order;
pub mod change;
pub mod report;
pub mod discovery;
pub mod git;
pub mod conclusion;
pub mod runner;
pub mod format;
pub mod evals;
pub mod listing;
