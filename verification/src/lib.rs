//! Verified core of a desktop Git client: parsers for git's plumbing output,
//! commit-graph lane layout, patch construction, review rendering and session
//! bookkeeping.
pub mod error;
pub mod git;
pub mod shell_env;
pub mod text;
