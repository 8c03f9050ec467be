//! Log replay for a table's transaction log: from batches of file additions
//! and removals, delivered newest first, compute the files that are live.

pub mod error;
pub mod actions;
pub mod batch;
pub mod extract;
pub mod seen;
pub mod reconcile;
pub mod file_stream;
pub mod laws;
pub mod stream;
pub mod table;
