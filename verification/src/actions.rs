//! The two file-level events of the log, and the key by which replay tells
//! file references apart.

use vstd::prelude::*;

verus! {

/// The deduplication key of a record: its path and its deletion-vector
/// identifier, where it has one.
pub type Key = (Seq<char>, Option<Seq<char>>);

/// The mathematical value of an optional string.
pub open spec fn opt_text(s: Option<String>) -> Option<Seq<char>> {
    match s {
        Some(t) => Some(t@),
        None => None,
    }
}

/// Copies an optional string.
pub fn clone_opt_text(s: &Option<String>) -> (r: Option<String>)
    ensures
        opt_text(r) == opt_text(*s),
{
    match s {
        Some(t) => Some(t.clone()),
        None => None,
    }
}

/// A file that a commit or a checkpoint adds to the table.
#[derive(Debug)]
pub struct Add {
    /// Path of the file, relative to the table's root.
    pub path: String,
    /// Identifier of the deletion vector that masks rows of the file.
    pub dv_id: Option<String>,
    /// Size of the file in bytes.
    pub size: i64,
    /// Time of the file's last modification, in milliseconds since the epoch.
    pub modification_time: i64,
    /// Whether the addition changes the table's data.
    pub data_change: bool,
    /// Column statistics of the file, as they were written.
    pub stats: Option<String>,
}

/// The mathematical value of an [`Add`].
pub struct AddView {
    pub path: Seq<char>,
    pub dv_id: Option<Seq<char>>,
    pub size: i64,
    pub modification_time: i64,
    pub data_change: bool,
    pub stats: Option<Seq<char>>,
}

impl AddView {
    /// The key under which replay tracks this addition.
    pub open spec fn key(self) -> Key {
        (self.path, self.dv_id)
    }
}

impl View for Add {
    type V = AddView;

    open spec fn view(&self) -> AddView {
        AddView {
            path: self.path@,
            dv_id: opt_text(self.dv_id),
            size: self.size,
            modification_time: self.modification_time,
            data_change: self.data_change,
            stats: opt_text(self.stats),
        }
    }
}

impl Add {
    /// The identifier of the deletion vector, where the file has one.
    pub fn dv_unique_id(&self) -> (r: Option<String>)
        ensures
            opt_text(r) == self@.dv_id,
    {
        clone_opt_text(&self.dv_id)
    }

    /// A copy of this record.
    pub fn duplicate(&self) -> (r: Add)
        ensures
            r@ == self@,
    {
        Add {
            path: self.path.clone(),
            dv_id: clone_opt_text(&self.dv_id),
            size: self.size,
            modification_time: self.modification_time,
            data_change: self.data_change,
            stats: clone_opt_text(&self.stats),
        }
    }
}

/// A tombstone: a file that a commit removes from the table.
#[derive(Debug)]
pub struct Remove {
    /// Path of the file, relative to the table's root.
    pub path: String,
    /// Identifier of the deletion vector that masked rows of the file.
    pub dv_id: Option<String>,
    /// Time of the removal, in milliseconds since the epoch.
    pub deletion_timestamp: Option<i64>,
    /// Whether the removal changes the table's data.
    pub data_change: bool,
}

/// The mathematical value of a [`Remove`].
pub struct RemoveView {
    pub path: Seq<char>,
    pub dv_id: Option<Seq<char>>,
    pub deletion_timestamp: Option<i64>,
    pub data_change: bool,
}

impl RemoveView {
    /// The key that this tombstone suppresses.
    pub open spec fn key(self) -> Key {
        (self.path, self.dv_id)
    }
}

impl View for Remove {
    type V = RemoveView;

    open spec fn view(&self) -> RemoveView {
        RemoveView {
            path: self.path@,
            dv_id: opt_text(self.dv_id),
            deletion_timestamp: self.deletion_timestamp,
            data_change: self.data_change,
        }
    }
}

impl Remove {
    /// The identifier of the deletion vector, where the file had one.
    pub fn dv_unique_id(&self) -> (r: Option<String>)
        ensures
            opt_text(r) == self@.dv_id,
    {
        clone_opt_text(&self.dv_id)
    }
}

/// The mathematical values of a list of additions, in order.
pub open spec fn add_views(adds: Seq<Add>) -> Seq<AddView> {
    adds.map_values(|a: Add| a@)
}

/// The mathematical values of a list of removals, in order.
pub open spec fn remove_views(removes: Seq<Remove>) -> Seq<RemoveView> {
    removes.map_values(|r: Remove| r@)
}

/// The keys of the first `n` of a list of removals.
pub open spec fn remove_keys(removes: Seq<RemoveView>, n: int) -> Set<Key> {
    Set::new(
        |k: Key| exists|i: int| 0 <= i < n && i < removes.len() && #[trigger] removes[i].key() == k,
    )
}

/// The keys of the first `n` of a list of additions.
pub open spec fn add_keys(adds: Seq<AddView>, n: int) -> Set<Key> {
    Set::new(|k: Key| exists|i: int| 0 <= i < n && i < adds.len() && #[trigger] adds[i].key() == k)
}

} // verus!

verus! {

/// Taking one more removal adds its key.
pub proof fn lemma_remove_keys_step(removes: Seq<RemoveView>, n: int)
    requires
        0 <= n < removes.len(),
    ensures
        remove_keys(removes, n + 1) == remove_keys(removes, n).insert(removes[n].key()),
{
    let wider = remove_keys(removes, n + 1);
    let grown = remove_keys(removes, n).insert(removes[n].key());
    assert forall|k: Key| wider.contains(k) <==> grown.contains(k) by {
        if wider.contains(k) {
            let i = choose|i: int|
                0 <= i < n + 1 && i < removes.len() && #[trigger] removes[i].key() == k;
            if i < n {
                assert(remove_keys(removes, n).contains(removes[i].key()));
            }
        }
        if remove_keys(removes, n).contains(k) {
            let i = choose|i: int| 0 <= i < n && i < removes.len() && #[trigger] removes[i].key() == k;
            assert(wider.contains(removes[i].key()));
        }
        assert(wider.contains(removes[n].key()));
    }
    assert(wider =~= grown);
}

/// Taking one more addition adds its key.
pub proof fn lemma_add_keys_step(adds: Seq<AddView>, n: int)
    requires
        0 <= n < adds.len(),
    ensures
        add_keys(adds, n + 1) == add_keys(adds, n).insert(adds[n].key()),
{
    let wider = add_keys(adds, n + 1);
    let grown = add_keys(adds, n).insert(adds[n].key());
    assert forall|k: Key| wider.contains(k) <==> grown.contains(k) by {
        if wider.contains(k) {
            let i = choose|i: int| 0 <= i < n + 1 && i < adds.len() && #[trigger] adds[i].key() == k;
            if i < n {
                assert(add_keys(adds, n).contains(adds[i].key()));
            }
        }
        if add_keys(adds, n).contains(k) {
            let i = choose|i: int| 0 <= i < n && i < adds.len() && #[trigger] adds[i].key() == k;
            assert(wider.contains(adds[i].key()));
        }
        assert(wider.contains(adds[n].key()));
    }
    assert(wider =~= grown);
}

} // verus!
