//! A personal command-line file manager built around a verified trash
//! subsystem: `remove` quarantines files instead of deleting them, and the
//! recycle-bin operations list, restore or purge them against a durable
//! ledger.  The surrounding program performs the filesystem moves and the
//! input and output; this crate holds every decision, with its contracts.

pub mod base;
pub mod config;
pub mod error;
pub mod executor;
pub mod flag;
pub mod fs;
pub mod func;
pub mod holder;
pub mod model;
pub mod process;
pub mod record;
pub mod recycle;
pub mod strutil;

use vstd::prelude::*;

verus! {

/// Name of the per-user data directory, under the home directory.
pub const DATA_DIR: &'static str = ".hina";

/// Name of the ledger file inside the data directory.
pub const RM_STACK: &'static str = "rm.stack";

/// Name of the quarantine directory inside the data directory.
pub const RECYCLE: &'static str = "RecycleBin";

/// Length of the random alphanumeric suffix appended to a quarantined
/// file's name.
pub const RAND_STR_LEN: usize = 16;

/// Depth bound for the recursive directory walks.
pub const MAX_RECURSIVE_DEPTH: usize = 64;

} // verus!
