//! Local cache of binary package metadata: a streaming parser for the
//! pkg_summary record format and a versioned two-domain metadata store.

pub mod avail;
pub mod config;
pub mod list;
pub mod pmdb;
pub mod summary;
pub mod update;
