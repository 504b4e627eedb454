//! Review helpers for GitHub pull requests: a unified-diff hunk parser with
//! the lines open to inline comments, a triage classifier for semantic changes,
//! grouping of repeated mechanical edits, noise filtering, text search and the
//! terminal renderings of all of them.
pub mod text;
pub mod diff;
pub mod classify;
pub mod patterns;
pub mod github;
pub mod format;
pub mod noise;
pub mod review;
pub mod report;
pub mod search;
pub mod select;
