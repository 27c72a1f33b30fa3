//! Bridging Linear tickets with GitHub pull requests: the queries, the
//! reading of their answers, the release-branch analysis and the release
//! notes, each with its contract.

pub mod cli;
pub mod error;
pub mod json;
pub mod github;
pub mod linear;
pub mod missing;
pub mod outside;
pub mod refs;
pub mod release_notes;
pub mod text;
