//! A batch of raw log rows, addressed by field group, and the schema that
//! says which groups a reader asks for.

use vstd::prelude::*;

verus! {

/// One value of a column at one row.
#[derive(Debug)]
pub enum Cell {
    /// The field is not set at this row.
    Absent,
    /// A string.
    Text(String),
    /// A 64-bit integer.
    Integer(i64),
    /// A boolean.
    Flag(bool),
}

/// The mathematical value of a [`Cell`].
pub enum CellView {
    Absent,
    Text(Seq<char>),
    Integer(i64),
    Flag(bool),
}

impl View for Cell {
    type V = CellView;

    open spec fn view(&self) -> CellView {
        match *self {
            Cell::Absent => CellView::Absent,
            Cell::Text(s) => CellView::Text(s@),
            Cell::Integer(n) => CellView::Integer(n),
            Cell::Flag(b) => CellView::Flag(b),
        }
    }
}

impl Cell {
    /// A copy of this cell.
    pub fn duplicate(&self) -> (r: Cell)
        ensures
            r@ == self@,
    {
        match self {
            Cell::Absent => Cell::Absent,
            Cell::Text(s) => Cell::Text(s.clone()),
            Cell::Integer(n) => Cell::Integer(*n),
            Cell::Flag(b) => Cell::Flag(*b),
        }
    }
}

/// The columns of the addition field group at one row.
#[derive(Debug)]
pub struct AddFields {
    pub path: Cell,
    pub dv_id: Cell,
    pub size: Cell,
    pub modification_time: Cell,
    pub data_change: Cell,
    pub stats: Cell,
}

/// The mathematical value of an [`AddFields`].
pub struct AddFieldsView {
    pub path: CellView,
    pub dv_id: CellView,
    pub size: CellView,
    pub modification_time: CellView,
    pub data_change: CellView,
    pub stats: CellView,
}

impl View for AddFields {
    type V = AddFieldsView;

    open spec fn view(&self) -> AddFieldsView {
        AddFieldsView {
            path: self.path@,
            dv_id: self.dv_id@,
            size: self.size@,
            modification_time: self.modification_time@,
            data_change: self.data_change@,
            stats: self.stats@,
        }
    }
}

/// The columns of the removal field group at one row.
#[derive(Debug)]
pub struct RemoveFields {
    pub path: Cell,
    pub dv_id: Cell,
    pub deletion_timestamp: Cell,
    pub data_change: Cell,
}

/// The mathematical value of a [`RemoveFields`].
pub struct RemoveFieldsView {
    pub path: CellView,
    pub dv_id: CellView,
    pub deletion_timestamp: CellView,
    pub data_change: CellView,
}

impl View for RemoveFields {
    type V = RemoveFieldsView;

    open spec fn view(&self) -> RemoveFieldsView {
        RemoveFieldsView {
            path: self.path@,
            dv_id: self.dv_id@,
            deletion_timestamp: self.deletion_timestamp@,
            data_change: self.data_change@,
        }
    }
}

/// One row of a batch: the two field groups side by side, each reached by
/// its name.
#[derive(Debug)]
pub struct Row {
    pub add: AddFields,
    pub remove: RemoveFields,
}

/// The mathematical value of a [`Row`].
pub struct RowView {
    pub add: AddFieldsView,
    pub remove: RemoveFieldsView,
}

impl View for Row {
    type V = RowView;

    open spec fn view(&self) -> RowView {
        RowView { add: self.add@, remove: self.remove@ }
    }
}

impl Row {
    /// A row in which no field is set.
    pub fn empty() -> (r: Row)
        ensures
            r@ == blank_row(),
    {
        Row {
            add: AddFields {
                path: Cell::Absent,
                dv_id: Cell::Absent,
                size: Cell::Absent,
                modification_time: Cell::Absent,
                data_change: Cell::Absent,
                stats: Cell::Absent,
            },
            remove: RemoveFields {
                path: Cell::Absent,
                dv_id: Cell::Absent,
                deletion_timestamp: Cell::Absent,
                data_change: Cell::Absent,
            },
        }
    }

    /// A copy of this row.
    pub fn duplicate(&self) -> (r: Row)
        ensures
            r@ == self@,
    {
        Row {
            add: AddFields {
                path: self.add.path.duplicate(),
                dv_id: self.add.dv_id.duplicate(),
                size: self.add.size.duplicate(),
                modification_time: self.add.modification_time.duplicate(),
                data_change: self.add.data_change.duplicate(),
                stats: self.add.stats.duplicate(),
            },
            remove: RemoveFields {
                path: self.remove.path.duplicate(),
                dv_id: self.remove.dv_id.duplicate(),
                deletion_timestamp: self.remove.deletion_timestamp.duplicate(),
                data_change: self.remove.data_change.duplicate(),
            },
        }
    }
}

/// The row in which no field is set.
pub open spec fn blank_row() -> RowView {
    RowView {
        add: AddFieldsView {
            path: CellView::Absent,
            dv_id: CellView::Absent,
            size: CellView::Absent,
            modification_time: CellView::Absent,
            data_change: CellView::Absent,
            stats: CellView::Absent,
        },
        remove: RemoveFieldsView {
            path: CellView::Absent,
            dv_id: CellView::Absent,
            deletion_timestamp: CellView::Absent,
            data_change: CellView::Absent,
        },
    }
}

/// A chunk of rows read from one commit or from a checkpoint.
#[derive(Debug)]
pub struct Batch {
    pub rows: Vec<Row>,
}

impl View for Batch {
    type V = Seq<RowView>;

    open spec fn view(&self) -> Seq<RowView> {
        self.rows@.map_values(|r: Row| r@)
    }
}

/// A field group that a reader can ask a batch for.
#[derive(Debug, Clone, Copy, PartialEq, Eq, Structural)]
pub enum FieldGroup {
    /// The fields of a file addition.
    Addition,
    /// The fields of a file removal.
    Removal,
}

/// The field groups that a reader asks for, in order.
#[derive(Debug)]
pub struct Schema {
    pub groups: Vec<FieldGroup>,
}

impl View for Schema {
    type V = Seq<FieldGroup>;

    open spec fn view(&self) -> Seq<FieldGroup> {
        self.groups@
    }
}

/// The schema read from a batch of the given provenance: additions and
/// removals for a commit, additions alone for a checkpoint.
pub open spec fn schema_for(is_log_batch: bool) -> Seq<FieldGroup> {
    if is_log_batch {
        seq![FieldGroup::Addition, FieldGroup::Removal]
    } else {
        seq![FieldGroup::Addition]
    }
}

impl Schema {
    /// The schema to read from a batch of the given provenance.
    pub fn for_batch(is_log_batch: bool) -> (r: Schema)
        ensures
            r@ == schema_for(is_log_batch),
    {
        let mut groups: Vec<FieldGroup> = Vec::new();
        groups.push(FieldGroup::Addition);
        if is_log_batch {
            groups.push(FieldGroup::Removal);
        }
        proof {
            assert(groups@ =~= schema_for(is_log_batch));
        }
        Schema { groups }
    }

    /// Whether the schema asks for `group`.
    pub fn requests(&self, group: FieldGroup) -> (r: bool)
        ensures
            r == self@.contains(group),
    {
        let mut i: usize = 0;
        while i < self.groups.len()
            invariant
                i <= self.groups.len(),
                forall|j: int| 0 <= j < i ==> self.groups@[j] != group,
            decreases self.groups.len() - i,
        {
            if self.groups[i] == group {
                return true;
            }
            i += 1;
        }
        false
    }
}

} // verus!
