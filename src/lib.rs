//! Rollup warnings: find the pull requests bundled in a rollup, flag the ones
//! that touch sensitive paths, and compose one deduplicated mention comment.
//!
//! - `extract`: the bundled pull requests named in a rollup body.
//! - `classify`: the sensitive-path rules that a pull request's files match.
//! - `aggregate`: the new keys across all bundled pull requests, the comment
//!   on them, and the updated per-issue state.
//! - `commit`: posting, then saving, so that the state only records posted keys.
//! - `rollup`: the decisions of one event, from the issue to the comment.
pub mod aggregate;
pub mod classify;
pub mod commit;
pub mod extract;
pub mod rollup;
