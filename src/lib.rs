//! Converts TOML documents to JSON, one file or a whole folder tree.
//!
//! The library holds the decisions: how a `--modified` threshold is read,
//! which files are eligible, where each output goes, which folders are
//! walked, and the transcoding itself. Reading and writing files is left
//! to the caller.

pub mod duration;
pub mod eligibility;
pub mod folders;
pub mod paths;
pub mod report;
pub mod transcode;
