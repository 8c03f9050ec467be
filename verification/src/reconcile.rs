//! What replay emits for one batch and what it remembers afterwards, as
//! mathematics over the rows of the batch and the keys seen so far.

use vstd::prelude::*;
use crate::actions::{AddView, Key, add_keys, remove_keys};
use crate::batch::{RowView, schema_for};
use crate::extract::{batch_adds, batch_removes};

verus! {

/// Whether addition `i` of a batch is live: its key is not blocked and,
/// where the batch remembers its additions, no earlier addition of the batch
/// has the same key.
pub open spec fn is_live(blocked: Set<Key>, adds: Seq<AddView>, remember: bool, i: int) -> bool {
    &&& !blocked.contains(adds[i].key())
    &&& remember ==> forall|j: int| 0 <= j < i ==> #[trigger] adds[j].key() != adds[i].key()
}

/// The live additions among the first `n`, in order.
pub open spec fn live_adds(blocked: Set<Key>, adds: Seq<AddView>, remember: bool, n: int) -> Seq<
    AddView,
>
    decreases n,
{
    if n <= 0 || n > adds.len() {
        Seq::empty()
    } else {
        let before = live_adds(blocked, adds, remember, n - 1);
        if is_live(blocked, adds, remember, n - 1) {
            before.push(adds[n - 1])
        } else {
            before
        }
    }
}

/// The additions that the rows carry under the schema of their provenance.
pub open spec fn rows_adds(rows: Seq<RowView>, is_log_batch: bool) -> Seq<AddView> {
    batch_adds(rows, schema_for(is_log_batch), rows.len() as int)
}

/// The keys that the rows tombstone under the schema of their provenance.
/// Rows of a checkpoint tombstone nothing.
pub open spec fn rows_removed(rows: Seq<RowView>, is_log_batch: bool) -> Set<Key> {
    let removes = batch_removes(rows, schema_for(is_log_batch), rows.len() as int);
    remove_keys(removes, removes.len() as int)
}

/// The additions that a decodable batch emits when `seen` holds the keys met
/// so far: those whose key is neither in `seen` nor tombstoned by the batch
/// itself and, in a commit's batch, that are the first of their key.
pub open spec fn emitted(seen: Set<Key>, rows: Seq<RowView>, is_log_batch: bool) -> Seq<AddView> {
    let adds = rows_adds(rows, is_log_batch);
    live_adds(
        seen.union(rows_removed(rows, is_log_batch)),
        adds,
        is_log_batch,
        adds.len() as int,
    )
}

/// The keys seen once a decodable batch is done: those seen before, those
/// that the batch tombstones and, for a commit's batch, those of all its
/// additions.
pub open spec fn seen_next(seen: Set<Key>, rows: Seq<RowView>, is_log_batch: bool) -> Set<Key> {
    let adds = rows_adds(rows, is_log_batch);
    let blocked = seen.union(rows_removed(rows, is_log_batch));
    if is_log_batch {
        blocked.union(add_keys(adds, adds.len() as int))
    } else {
        blocked
    }
}

} // verus!
