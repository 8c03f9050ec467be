//! The set of keys that replay has met and will not emit again.

use vstd::prelude::*;
use crate::actions::{Key, opt_text};

verus! {

/// Whether two optional strings hold the same text.
pub fn same_opt_text(a: &Option<String>, b: &Option<String>) -> (r: bool)
    ensures
        r == (opt_text(*a) == opt_text(*b)),
{
    match (a, b) {
        (Some(x), Some(y)) => *x == *y,
        (None, None) => true,
        _ => false,
    }
}

/// The key that a stored pair stands for.
pub open spec fn key_of(entry: (String, Option<String>)) -> Key {
    (entry.0@, opt_text(entry.1))
}

/// A set of deduplication keys. It only grows.
#[derive(Debug)]
pub struct SeenSet {
    entries: Vec<(String, Option<String>)>,
}

impl View for SeenSet {
    type V = Set<Key>;

    closed spec fn view(&self) -> Set<Key> {
        Set::new(
            |k: Key|
                exists|i: int| 0 <= i < self.entries@.len() && key_of(#[trigger] self.entries@[i]) == k,
        )
    }
}

impl SeenSet {
    /// No key is held twice.
    pub closed spec fn wf(&self) -> bool {
        forall|i: int, j: int|
            0 <= i < j < self.entries@.len() ==> key_of(#[trigger] self.entries@[i]) != key_of(
                #[trigger] self.entries@[j],
            )
    }

    /// The number of keys held.
    pub closed spec fn count(&self) -> nat {
        self.entries@.len()
    }

    /// The empty set.
    pub fn new() -> (r: SeenSet)
        ensures
            r.wf(),
            r@ == Set::<Key>::empty(),
            r.count() == 0,
    {
        let r = SeenSet { entries: Vec::new() };
        assert(r@ =~= Set::<Key>::empty());
        r
    }

    /// The number of keys held.
    pub fn len(&self) -> (r: usize)
        ensures
            r == self.count(),
    {
        self.entries.len()
    }

    /// Whether the key `(path, dv_id)` is in the set.
    pub fn contains(&self, path: &String, dv_id: &Option<String>) -> (r: bool)
        ensures
            r == self@.contains((path@, opt_text(*dv_id))),
    {
        let mut i: usize = 0;
        while i < self.entries.len()
            invariant
                i <= self.entries.len(),
                forall|j: int|
                    0 <= j < i ==> key_of(#[trigger] self.entries@[j]) != (path@, opt_text(*dv_id)),
            decreases self.entries.len() - i,
        {
            let entry = &self.entries[i];
            if entry.0 == *path && same_opt_text(&entry.1, dv_id) {
                assert(key_of(self.entries@[i as int]) == (path@, opt_text(*dv_id)));
                return true;
            }
            i += 1;
        }
        false
    }

    /// Puts the key `(path, dv_id)` into the set. Returns whether it was new.
    pub fn insert(&mut self, path: String, dv_id: Option<String>) -> (r: bool)
        requires
            old(self).wf(),
        ensures
            final(self).wf(),
            final(self)@ == old(self)@.insert((path@, opt_text(dv_id))),
            r == !old(self)@.contains((path@, opt_text(dv_id))),
            final(self).count() == old(self).count() + if r { 1nat } else { 0nat },
    {
        if self.contains(&path, &dv_id) {
            assert(self@ =~= old(self)@.insert((path@, opt_text(dv_id))));
            return false;
        }
        let ghost k: Key = (path@, opt_text(dv_id));
        let ghost before = self.entries@;
        self.entries.push((path, dv_id));
        proof {
            assert(key_of(self.entries@[before.len() as int]) == k);
            assert forall|x: Key| self@.contains(x) <==> old(self)@.insert(k).contains(x) by {
                if self@.contains(x) {
                    let i = choose|i: int|
                        0 <= i < self.entries@.len() && key_of(#[trigger] self.entries@[i]) == x;
                    if i < before.len() {
                        assert(self.entries@[i] == before[i]);
                    }
                }
                if old(self)@.contains(x) {
                    let i = choose|i: int|
                        0 <= i < before.len() && key_of(#[trigger] before[i]) == x;
                    assert(self.entries@[i] == before[i]);
                }
            }
            assert(self@ =~= old(self)@.insert(k));
        }
        true
    }
}

} // verus!
