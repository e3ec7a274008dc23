//! Incremental discovery and pairwise diffing of tracked system binaries,
//! driven by a per-binary metadata feed and a persisted progress ledger.

pub mod version;
pub mod text;
pub mod winbindex;
pub mod feed;
pub mod progress;
pub mod ghidriff;
pub mod orchestrate;
pub mod git;
pub mod diff_config;
