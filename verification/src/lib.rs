//! Parsers for the textual output of version-control queries: unified-diff
//! text, porcelain status lines, and delimiter-separated commit-log records,
//! each a pure function from text to structured records.

pub mod commit_log;
pub mod diff;
pub mod hunk;
pub mod laws;
pub mod stats;
pub mod status;
pub mod text;
pub mod types;
pub mod worktrees;
