//! The reducer of log replay: it owns the keys seen so far and turns one
//! batch after another, newest first, into the additions that are live.

use vstd::prelude::*;
use crate::actions::{Add, AddView, Key, add_keys, add_views, lemma_add_keys_step, lemma_remove_keys_step,
    opt_text, remove_keys, remove_views};
use crate::batch::{Batch, Row, RowView, Schema, schema_for};
use crate::error::Error;
use crate::extract::{AddRemoveVisitor, first_malformed, row_malformed, well_formed};
use crate::reconcile::{emitted, is_live, live_adds, seen_next};
use crate::seen::SeenSet;

verus! {

/// A filter that prunes rows by their statistics before they are decoded.
///
/// For each row of a batch it says whether the row is kept; a row that the
/// answer does not reach is kept. A sound filter keeps every row whose
/// statistics are consistent with its predicate, and every row without
/// usable statistics. Nothing is assumed of an implementation: what replay
/// yields is stated for every answer that it can give, and an error that it
/// returns is passed on as it is.
pub trait DataSkippingFilter {
    /// For each row of the batch, whether it is kept.
    fn select(&self, batch: &Batch) -> Result<Vec<bool>, Error>;
}

/// The filter that has nothing to go by: it keeps every row and never fails.
#[derive(Debug, Clone, Copy)]
pub struct KeepAll;

impl DataSkippingFilter for KeepAll {
    fn select(&self, batch: &Batch) -> (r: Result<Vec<bool>, Error>)
        ensures
            r matches Ok(selection) && selection@.len() == 0,
    {
        Ok(Vec::new())
    }
}

/// What a filter said of a batch: a mark for each row, or its error.
pub type Answer = Option<Result<Seq<bool>, Error>>;

/// The mathematical value of what a filter returned.
pub open spec fn answer_view(selection: Option<Result<Vec<bool>, Error>>) -> Answer {
    match selection {
        Some(Ok(marks)) => Some(Ok(marks@)),
        Some(Err(e)) => Some(Err(e)),
        None => None,
    }
}

/// Whether `answer` is what the configured filter said of the batch: absent
/// where no filter is configured, else the value of something that the
/// filter's `select` can return when it is asked about this batch.
pub open spec fn filter_answers<F: DataSkippingFilter>(
    filter: Option<F>,
    batch: &Batch,
    answer: Answer,
) -> bool {
    match filter {
        Some(f) => exists|selection: Result<Vec<bool>, Error>|
            #[trigger] call_ensures(F::select, (&f, batch), selection) && answer == answer_view(
                Some(selection),
            ),
        None => answer is None,
    }
}

/// The rows among the first `n` that `selection` marks, in order. A row
/// that the selection does not reach counts as marked.
pub open spec fn selected_rows(rows: Seq<RowView>, selection: Seq<bool>, n: int) -> Seq<RowView>
    decreases n,
{
    if n <= 0 || n > rows.len() {
        Seq::empty()
    } else {
        let before = selected_rows(rows, selection, n - 1);
        if n - 1 < selection.len() && !selection[n - 1] {
            before
        } else {
            before.push(rows[n - 1])
        }
    }
}

/// The rows that are decoded: all of them where no filter is configured,
/// else those that the filter's answer marks.
pub open spec fn rows_to_decode(answer: Answer, rows: Seq<RowView>) -> Seq<RowView> {
    match answer {
        Some(Ok(marks)) => selected_rows(rows, marks, rows.len() as int),
        _ => rows,
    }
}

/// The rows of `batch` that `selection` marks, in order.
pub fn retain_selected(batch: &Batch, selection: &Vec<bool>) -> (r: Batch)
    ensures
        r@ == selected_rows(batch@, selection@, batch@.len() as int),
{
    let mut rows: Vec<Row> = Vec::new();
    let mut i: usize = 0;
    assert(rows@.map_values(|r: Row| r@) =~= selected_rows(batch@, selection@, 0));
    while i < batch.rows.len()
        invariant
            i <= batch.rows.len(),
            batch@.len() == batch.rows@.len(),
            rows@.map_values(|r: Row| r@) == selected_rows(batch@, selection@, i as int),
        decreases batch.rows.len() - i,
    {
        assert(batch@[i as int] == batch.rows@[i as int]@);
        if i >= selection.len() || selection[i] {
            let ghost before = rows@;
            let row = batch.rows[i].duplicate();
            rows.push(row);
            assert(rows@.map_values(|r: Row| r@) =~= before.map_values(|r: Row| r@).push(row@));
        }
        i += 1;
    }
    Batch { rows }
}

/// The row at which decoding of the rows stops under the schema of their
/// provenance: the first that cannot be decoded.
pub open spec fn first_bad_row(rows: Seq<RowView>, is_log_batch: bool) -> int {
    choose|k: int| first_malformed(rows, schema_for(is_log_batch), k)
}

/// At most one row is the first that cannot be decoded.
pub proof fn lemma_first_bad_row(rows: Seq<RowView>, is_log_batch: bool, k: int)
    requires
        first_malformed(rows, schema_for(is_log_batch), k),
    ensures
        first_bad_row(rows, is_log_batch) == k,
        !well_formed(rows, schema_for(is_log_batch)),
{
    let c = first_bad_row(rows, is_log_batch);
    assert(first_malformed(rows, schema_for(is_log_batch), c));
    if c < k {
        assert(!row_malformed(rows[c], schema_for(is_log_batch)));
    }
    if k < c {
        assert(!row_malformed(rows[k], schema_for(is_log_batch)));
    }
    assert(row_malformed(rows[k], schema_for(is_log_batch)));
}

/// What one batch yields when `seen` holds the keys met so far: the filter's
/// error where a configured filter failed; else an extraction error that
/// names the first of the kept rows that cannot be decoded; else the
/// additions that the kept rows emit.
pub open spec fn batch_outcome(
    answer: Answer,
    seen: Set<Key>,
    rows: Seq<RowView>,
    is_log_batch: bool,
) -> Result<Seq<AddView>, Error> {
    let kept = rows_to_decode(answer, rows);
    if let Some(Err(e)) = answer {
        Err(e)
    } else if !well_formed(kept, schema_for(is_log_batch)) {
        Err(Error::Extraction { row: first_bad_row(kept, is_log_batch) as usize })
    } else {
        Ok(emitted(seen, kept, is_log_batch))
    }
}

/// The keys seen after one batch: unchanged where the batch fails, else
/// grown by what the kept rows tombstone and, for a commit's batch, add.
pub open spec fn batch_seen(
    answer: Answer,
    seen: Set<Key>,
    rows: Seq<RowView>,
    is_log_batch: bool,
) -> Set<Key> {
    if batch_outcome(answer, seen, rows, is_log_batch) is Ok {
        seen_next(seen, rows_to_decode(answer, rows), is_log_batch)
    } else {
        seen
    }
}

/// The mathematical value of what a batch yielded.
pub open spec fn outcome_view(r: Result<Vec<Add>, Error>) -> Result<Seq<AddView>, Error> {
    match r {
        Ok(adds) => Ok(add_views(adds@)),
        Err(e) => Err(e),
    }
}

/// The state of one replay: the filter it was made with and the keys that
/// must no longer be emitted.
pub struct LogReplayScanner<F: DataSkippingFilter> {
    filter: Option<F>,
    seen: SeenSet,
}

impl<F: DataSkippingFilter> LogReplayScanner<F> {
    /// The scanner's invariant.
    pub closed spec fn wf(&self) -> bool {
        self.seen.wf()
    }

    /// The keys seen so far.
    pub closed spec fn seen(&self) -> Set<Key> {
        self.seen@
    }

    /// The filter that the scanner applies to each batch, if any.
    pub closed spec fn filter(&self) -> Option<F> {
        self.filter
    }

    /// A scanner that has seen nothing.
    pub fn new(filter: Option<F>) -> (r: Self)
        ensures
            r.wf(),
            r.seen() == Set::<Key>::empty(),
            r.filter() == filter,
    {
        LogReplayScanner { filter, seen: SeenSet::new() }
    }

    /// Whether `(path, dv_id)` is among the keys seen so far.
    pub fn has_seen(&self, path: &String, dv_id: &Option<String>) -> (r: bool)
        ensures
            r == self.seen().contains((path@, opt_text(*dv_id))),
    {
        self.seen.contains(path, dv_id)
    }

    /// Decodes `rows`, which no filter is applied to, and reconciles their
    /// records with the keys seen so far.
    ///
    /// Succeeds exactly when every row can be decoded. The removals are
    /// remembered first; then each addition whose key has not been seen is
    /// emitted, in row order, and remembered if the batch is a commit's.
    /// Where a row cannot be decoded nothing is emitted or remembered, and
    /// the error names the first such row.
    pub fn reconcile(&mut self, rows: &Batch, is_log_batch: bool) -> (r: Result<Vec<Add>, Error>)
        requires
            old(self).wf(),
        ensures
            final(self).wf(),
            final(self).filter() == old(self).filter(),
            match r {
                Ok(adds) => {
                    &&& well_formed(rows@, schema_for(is_log_batch))
                    &&& add_views(adds@) == emitted(old(self).seen(), rows@, is_log_batch)
                    &&& final(self).seen() == seen_next(old(self).seen(), rows@, is_log_batch)
                },
                Err(e) => {
                    &&& e matches Error::Extraction { row }
                    &&& first_malformed(rows@, schema_for(is_log_batch), row as int)
                    &&& final(self).seen() == old(self).seen()
                },
            },
    {
        let schema = Schema::for_batch(is_log_batch);
        let mut visitor = AddRemoveVisitor::new();
        match visitor.visit(rows, &schema) {
            Ok(_) => {},
            Err(e) => { return Err(e); },
        }
        let adds = visitor.adds;
        let removes = visitor.removes;
        let ghost seen0 = self.seen@;
        let ghost av = add_views(adds@);
        let ghost rv = remove_views(removes@);
        proof {
            assert(av =~= crate::reconcile::rows_adds(rows@, is_log_batch));
            assert(rv =~= crate::extract::batch_removes(
                rows@,
                schema_for(is_log_batch),
                rows@.len() as int,
            ));
        }
        let mut i: usize = 0;
        assert(self.seen@ =~= seen0.union(remove_keys(rv, 0)));
        while i < removes.len()
            invariant
                i <= removes.len(),
                rv == remove_views(removes@),
                self.seen.wf(),
                self.seen@ == seen0.union(remove_keys(rv, i as int)),
                self.filter == old(self).filter,
            decreases removes.len() - i,
        {
            let remove = &removes[i];
            assert(rv[i as int] == remove@);
            self.seen.insert(remove.path.clone(), remove.dv_unique_id());
            proof {
                lemma_remove_keys_step(rv, i as int);
            }
            i += 1;
            assert(self.seen@ =~= seen0.union(remove_keys(rv, i as int)));
        }
        let ghost blocked = self.seen@;
        let mut live: Vec<Add> = Vec::new();
        let mut i: usize = 0;
        assert(add_views(live@) =~= live_adds(blocked, av, is_log_batch, 0));
        assert(self.seen@ =~= blocked.union(add_keys(av, 0)));
        while i < adds.len()
            invariant
                i <= adds.len(),
                av == add_views(adds@),
                self.seen.wf(),
                self.filter == old(self).filter,
                is_log_batch ==> self.seen@ == blocked.union(add_keys(av, i as int)),
                !is_log_batch ==> self.seen@ == blocked,
                add_views(live@) == live_adds(blocked, av, is_log_batch, i as int),
            decreases adds.len() - i,
        {
            let add = &adds[i];
            assert(av[i as int] == add@);
            let dv_id = add.dv_unique_id();
            let ghost live_before = live@;
            if !self.seen.contains(&add.path, &dv_id) {
                assert(is_live(blocked, av, is_log_batch, i as int));
                if is_log_batch {
                    self.seen.insert(add.path.clone(), dv_id);
                }
                let emitted_add = add.duplicate();
                live.push(emitted_add);
                assert(add_views(live@) =~= add_views(live_before).push(emitted_add@));
            } else {
                assert(!is_live(blocked, av, is_log_batch, i as int));
            }
            proof {
                lemma_add_keys_step(av, i as int);
            }
            i += 1;
            assert(is_log_batch ==> self.seen@ =~= blocked.union(add_keys(av, i as int)));
        }
        Ok(live)
    }
    /// Reconciles one batch, given what the filter said of it: `None` where
    /// no filter is configured.
    ///
    /// Where the filter failed its error is returned; else the rows that it
    /// marked are decoded and reconciled. Where the filter or the decoding
    /// fails, nothing is emitted and the keys seen so far stay as they were.
    pub fn process_selected(
        &mut self,
        actions: &Batch,
        selection: Option<Result<Vec<bool>, Error>>,
        is_log_batch: bool,
    ) -> (r: Result<Vec<Add>, Error>)
        requires
            old(self).wf(),
        ensures
            final(self).wf(),
            final(self).filter() == old(self).filter(),
            outcome_view(r) == batch_outcome(
                answer_view(selection),
                old(self).seen(),
                actions@,
                is_log_batch,
            ),
            final(self).seen() == batch_seen(
                answer_view(selection),
                old(self).seen(),
                actions@,
                is_log_batch,
            ),
    {
        let r = match selection {
            Some(Err(e)) => { return Err(e); },
            Some(Ok(marks)) => {
                let kept = retain_selected(actions, &marks);
                self.reconcile(&kept, is_log_batch)
            },
            None => self.reconcile(actions, is_log_batch),
        };
        proof {
            let kept = rows_to_decode(answer_view(selection), actions@);
            if let Err(Error::Extraction { row }) = r {
                lemma_first_bad_row(kept, is_log_batch, row as int);
            }
        }
        r
    }

    /// Extracts the live additions of one batch.
    ///
    /// Asks the filter, if one is configured, about this batch, and
    /// reconciles the batch with its answer as [`Self::process_selected`]
    /// does. Without a filter the result is that of an absent answer.
    pub fn process_batch(&mut self, actions: &Batch, is_log_batch: bool) -> (r: Result<
        Vec<Add>,
        Error,
    >)
        requires
            old(self).wf(),
        ensures
            final(self).wf(),
            final(self).filter() == old(self).filter(),
            exists|answer: Answer|
                {
                    &&& filter_answers(old(self).filter(), actions, answer)
                    &&& outcome_view(r) == #[trigger] batch_outcome(
                        answer,
                        old(self).seen(),
                        actions@,
                        is_log_batch,
                    )
                    &&& final(self).seen() == batch_seen(
                        answer,
                        old(self).seen(),
                        actions@,
                        is_log_batch,
                    )
                },
    {
        let selection = match &self.filter {
            Some(filter) => Some(filter.select(actions)),
            None => None,
        };
        let ghost answer = answer_view(selection);
        proof {
            if selection is Some {
                assert(call_ensures(
                    F::select,
                    (&old(self).filter()->Some_0, actions),
                    selection->Some_0,
                ));
            }
            assert(filter_answers(old(self).filter(), actions, answer));
        }
        let r = self.process_selected(actions, selection, is_log_batch);
        assert(outcome_view(r) == batch_outcome(answer, old(self).seen(), actions@, is_log_batch));
        r
    }
}

} // verus!
