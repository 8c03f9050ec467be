//! Decoding the rows of a batch into typed additions and removals.
//!
//! A row carries an addition exactly when the path of its addition group is
//! set, and a removal exactly when the path of its removal group is set. A
//! group whose path is set must hold its required fields with their types;
//! an optional field may be absent.

use vstd::prelude::*;
use crate::actions::{Add, AddView, Remove, RemoveView, add_views, remove_views};
use crate::batch::{AddFields, AddFieldsView, Batch, Cell, CellView, FieldGroup, RemoveFields,
    RemoveFieldsView, RowView, Schema};
use crate::error::Error;

verus! {

/// What an optional string field holds: `Ok(None)` where it is absent,
/// `Err` where the cell holds something else than a string.
pub open spec fn optional_text(c: CellView) -> Result<Option<Seq<char>>, ()> {
    match c {
        CellView::Absent => Ok(None),
        CellView::Text(s) => Ok(Some(s)),
        _ => Err(()),
    }
}

/// What an optional integer field holds.
pub open spec fn optional_integer(c: CellView) -> Result<Option<i64>, ()> {
    match c {
        CellView::Absent => Ok(None),
        CellView::Integer(n) => Ok(Some(n)),
        _ => Err(()),
    }
}

/// The addition that an addition group holds at one row: `Ok(None)` where
/// its path is absent, `Err` where the group is malformed.
pub open spec fn decode_add(f: AddFieldsView) -> Result<Option<AddView>, ()> {
    match f.path {
        CellView::Absent => Ok(None),
        CellView::Text(path) => match (
            optional_text(f.dv_id),
            f.size,
            f.modification_time,
            f.data_change,
            optional_text(f.stats),
        ) {
            (
                Ok(dv_id),
                CellView::Integer(size),
                CellView::Integer(modification_time),
                CellView::Flag(data_change),
                Ok(stats),
            ) => Ok(Some(AddView { path, dv_id, size, modification_time, data_change, stats })),
            _ => Err(()),
        },
        _ => Err(()),
    }
}

/// The removal that a removal group holds at one row: `Ok(None)` where its
/// path is absent, `Err` where the group is malformed.
pub open spec fn decode_remove(f: RemoveFieldsView) -> Result<Option<RemoveView>, ()> {
    match f.path {
        CellView::Absent => Ok(None),
        CellView::Text(path) => match (
            optional_text(f.dv_id),
            optional_integer(f.deletion_timestamp),
            f.data_change,
        ) {
            (Ok(dv_id), Ok(deletion_timestamp), CellView::Flag(data_change)) => Ok(
                Some(RemoveView { path, dv_id, deletion_timestamp, data_change }),
            ),
            _ => Err(()),
        },
        _ => Err(()),
    }
}

/// Whether a row cannot be decoded against the schema: a requested group is
/// malformed. A group that the schema does not ask for is never looked at.
pub open spec fn row_malformed(row: RowView, schema: Seq<FieldGroup>) -> bool {
    ||| schema.contains(FieldGroup::Addition) && decode_add(row.add) is Err
    ||| schema.contains(FieldGroup::Removal) && decode_remove(row.remove) is Err
}

/// The addition that a row carries under the schema, if any.
pub open spec fn row_add(row: RowView, schema: Seq<FieldGroup>) -> Option<AddView> {
    if schema.contains(FieldGroup::Addition) {
        match decode_add(row.add) {
            Ok(a) => a,
            Err(_) => None,
        }
    } else {
        None
    }
}

/// The removal that a row carries under the schema, if any.
pub open spec fn row_remove(row: RowView, schema: Seq<FieldGroup>) -> Option<RemoveView> {
    if schema.contains(FieldGroup::Removal) {
        match decode_remove(row.remove) {
            Ok(r) => r,
            Err(_) => None,
        }
    } else {
        None
    }
}

/// The additions that the first `n` rows carry, in row order.
pub open spec fn batch_adds(rows: Seq<RowView>, schema: Seq<FieldGroup>, n: int) -> Seq<AddView>
    decreases n,
{
    if n <= 0 || n > rows.len() {
        Seq::empty()
    } else {
        let before = batch_adds(rows, schema, n - 1);
        match row_add(rows[n - 1], schema) {
            Some(a) => before.push(a),
            None => before,
        }
    }
}

/// The removals that the first `n` rows carry, in row order.
pub open spec fn batch_removes(rows: Seq<RowView>, schema: Seq<FieldGroup>, n: int) -> Seq<
    RemoveView,
>
    decreases n,
{
    if n <= 0 || n > rows.len() {
        Seq::empty()
    } else {
        let before = batch_removes(rows, schema, n - 1);
        match row_remove(rows[n - 1], schema) {
            Some(r) => before.push(r),
            None => before,
        }
    }
}

/// Whether every row of the batch can be decoded against the schema.
pub open spec fn well_formed(rows: Seq<RowView>, schema: Seq<FieldGroup>) -> bool {
    forall|i: int| 0 <= i < rows.len() ==> !row_malformed(#[trigger] rows[i], schema)
}

/// Whether row `k` is the first that cannot be decoded against the schema.
pub open spec fn first_malformed(rows: Seq<RowView>, schema: Seq<FieldGroup>, k: int) -> bool {
    &&& 0 <= k < rows.len()
    &&& row_malformed(rows[k], schema)
    &&& forall|i: int| 0 <= i < k ==> !row_malformed(#[trigger] rows[i], schema)
}

/// Reads an optional string field.
pub fn read_optional_text(c: &Cell) -> (r: Result<Option<String>, ()>)
    ensures
        match r {
            Ok(Some(s)) => optional_text(c@) == Ok::<Option<Seq<char>>, ()>(Some(s@)),
            Ok(None) => optional_text(c@) == Ok::<Option<Seq<char>>, ()>(None),
            Err(_) => optional_text(c@) is Err,
        },
{
    match c {
        Cell::Absent => Ok(None),
        Cell::Text(s) => Ok(Some(s.clone())),
        _ => Err(()),
    }
}

/// Reads an optional integer field.
pub fn read_optional_integer(c: &Cell) -> (r: Result<Option<i64>, ()>)
    ensures
        r == optional_integer(c@),
{
    match c {
        Cell::Absent => Ok(None),
        Cell::Integer(n) => Ok(Some(*n)),
        _ => Err(()),
    }
}

/// Reads the addition that an addition group holds at one row.
pub fn read_add(f: &AddFields) -> (r: Result<Option<Add>, ()>)
    ensures
        match r {
            Ok(Some(a)) => decode_add(f@) == Ok::<Option<AddView>, ()>(Some(a@)),
            Ok(None) => decode_add(f@) == Ok::<Option<AddView>, ()>(None),
            Err(_) => decode_add(f@) is Err,
        },
{
    let path = match &f.path {
        Cell::Absent => { return Ok(None); },
        Cell::Text(p) => p.clone(),
        _ => { return Err(()); },
    };
    let dv_id = match read_optional_text(&f.dv_id) {
        Ok(d) => d,
        Err(_) => { return Err(()); },
    };
    let stats = match read_optional_text(&f.stats) {
        Ok(s) => s,
        Err(_) => { return Err(()); },
    };
    match (&f.size, &f.modification_time, &f.data_change) {
        (Cell::Integer(size), Cell::Integer(modification_time), Cell::Flag(data_change)) => Ok(
            Some(
                Add {
                    path,
                    dv_id,
                    size: *size,
                    modification_time: *modification_time,
                    data_change: *data_change,
                    stats,
                },
            ),
        ),
        _ => Err(()),
    }
}

/// Reads the removal that a removal group holds at one row.
pub fn read_remove(f: &RemoveFields) -> (r: Result<Option<Remove>, ()>)
    ensures
        match r {
            Ok(Some(a)) => decode_remove(f@) == Ok::<Option<RemoveView>, ()>(Some(a@)),
            Ok(None) => decode_remove(f@) == Ok::<Option<RemoveView>, ()>(None),
            Err(_) => decode_remove(f@) is Err,
        },
{
    let path = match &f.path {
        Cell::Absent => { return Ok(None); },
        Cell::Text(p) => p.clone(),
        _ => { return Err(()); },
    };
    let dv_id = match read_optional_text(&f.dv_id) {
        Ok(d) => d,
        Err(_) => { return Err(()); },
    };
    let deletion_timestamp = match read_optional_integer(&f.deletion_timestamp) {
        Ok(t) => t,
        Err(_) => { return Err(()); },
    };
    match &f.data_change {
        Cell::Flag(data_change) => Ok(
            Some(Remove { path, dv_id, deletion_timestamp, data_change: *data_change }),
        ),
        _ => Err(()),
    }
}

/// Collects the additions and removals of the batches it visits.
#[derive(Debug)]
pub struct AddRemoveVisitor {
    pub adds: Vec<Add>,
    pub removes: Vec<Remove>,
}

impl AddRemoveVisitor {
    /// A visitor that has collected nothing.
    pub fn new() -> (r: AddRemoveVisitor)
        ensures
            r.adds@.len() == 0,
            r.removes@.len() == 0,
    {
        AddRemoveVisitor { adds: Vec::new(), removes: Vec::new() }
    }

    /// Appends the records of `batch` under `schema`, in row order.
    ///
    /// Fails at the first row that cannot be decoded, and names it; the
    /// records of the rows before it have then been appended.
    pub fn visit(&mut self, batch: &Batch, schema: &Schema) -> (r: Result<(), Error>)
        ensures
            match r {
                Ok(_) => {
                    &&& well_formed(batch@, schema@)
                    &&& add_views(final(self).adds@) == add_views(old(self).adds@) + batch_adds(
                        batch@,
                        schema@,
                        batch@.len() as int,
                    )
                    &&& remove_views(final(self).removes@) == remove_views(old(self).removes@)
                        + batch_removes(batch@, schema@, batch@.len() as int)
                },
                Err(e) => {
                    &&& e matches Error::Extraction { row }
                    &&& first_malformed(batch@, schema@, row as int)
                    &&& add_views(final(self).adds@) == add_views(old(self).adds@) + batch_adds(
                        batch@,
                        schema@,
                        row as int,
                    )
                    &&& remove_views(final(self).removes@) == remove_views(old(self).removes@)
                        + batch_removes(batch@, schema@, row as int)
                },
            },
    {
        let want_add = schema.requests(FieldGroup::Addition);
        let want_remove = schema.requests(FieldGroup::Removal);
        let mut i: usize = 0;
        proof {
            assert(add_views(self.adds@) =~= add_views(old(self).adds@) + batch_adds(
                batch@,
                schema@,
                0,
            ));
            assert(remove_views(self.removes@) =~= remove_views(old(self).removes@)
                + batch_removes(batch@, schema@, 0));
        }
        while i < batch.rows.len()
            invariant
                i <= batch.rows.len(),
                batch@.len() == batch.rows@.len(),
                want_add == schema@.contains(FieldGroup::Addition),
                want_remove == schema@.contains(FieldGroup::Removal),
                forall|j: int| 0 <= j < i ==> !row_malformed(#[trigger] batch@[j], schema@),
                add_views(self.adds@) == add_views(old(self).adds@) + batch_adds(
                    batch@,
                    schema@,
                    i as int,
                ),
                remove_views(self.removes@) == remove_views(old(self).removes@) + batch_removes(
                    batch@,
                    schema@,
                    i as int,
                ),
            decreases batch.rows.len() - i,
        {
            let row = &batch.rows[i];
            assert(batch@[i as int] == row@);
            let add = if want_add {
                match read_add(&row.add) {
                    Ok(a) => a,
                    Err(_) => { return Err(Error::Extraction { row: i }); },
                }
            } else {
                None
            };
            let remove = if want_remove {
                match read_remove(&row.remove) {
                    Ok(r) => r,
                    Err(_) => { return Err(Error::Extraction { row: i }); },
                }
            } else {
                None
            };
            let ghost adds_before = self.adds@;
            let ghost removes_before = self.removes@;
            if let Some(a) = add {
                self.adds.push(a);
                assert(add_views(self.adds@) =~= add_views(adds_before).push(a@));
            }
            if let Some(r) = remove {
                self.removes.push(r);
                assert(remove_views(self.removes@) =~= remove_views(removes_before).push(r@));
            }
            i += 1;
            proof {
                assert(add_views(self.adds@) =~= add_views(old(self).adds@) + batch_adds(
                    batch@,
                    schema@,
                    i as int,
                ));
                assert(remove_views(self.removes@) =~= remove_views(old(self).removes@)
                    + batch_removes(batch@, schema@, i as int));
            }
        }
        Ok(())
    }
}

} // verus!
