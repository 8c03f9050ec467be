//! The errors that replay hands to its consumer.

use vstd::prelude::*;

verus! {

/// Why a text does not name a table's location.
#[derive(Debug, Clone, Copy, PartialEq, Eq, Structural)]
pub enum LocationFault {
    /// A `file` URL that stands for no path on this machine.
    NotAFilePath,
    /// Nothing exists at the path.
    Missing,
    /// What exists at the path is no directory.
    NotADirectory,
    /// The path could not be brought into canonical form.
    NotCanonical,
    /// No URL can be made of the canonical path.
    NoUrlForPath,
}

/// Why a batch yielded no live files, or why no table could be opened.
#[derive(Debug, Clone, Copy, PartialEq, Eq, Structural)]
pub enum Error {
    /// A row of the batch could not be decoded against the requested schema.
    /// `row` is the index of the first such row.
    Extraction { row: usize },
    /// The data-skipping filter could not evaluate its predicate on the batch.
    Filter,
    /// The producer of the batches failed to obtain one.
    UpstreamBatch,
    /// The text given for a table names no usable location.
    InvalidTableLocation(LocationFault),
}

} // verus!
