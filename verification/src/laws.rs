//! What holds of replay over a whole history of batches, newest first.

use vstd::prelude::*;
use crate::actions::{AddView, Key, add_keys};
use crate::batch::{Batch, FieldGroup, RowView, schema_for};
use crate::error::Error;
use crate::extract::{batch_adds, batch_removes, row_add, row_malformed, row_remove, well_formed};
use crate::file_stream::{Answer, DataSkippingFilter, KeepAll, answer_view, batch_outcome, batch_seen,
    filter_answers, rows_to_decode, selected_rows};
use crate::stream::{InputView, segment, seen_through};
use crate::reconcile::{emitted, is_live, live_adds, rows_adds, rows_removed, seen_next};

verus! {

/// One batch of a history: its rows, its provenance, and what the filter
/// said of it.
pub struct Step {
    pub rows: Seq<RowView>,
    pub is_log_batch: bool,
    pub answer: Answer,
}

impl Step {
    /// The rows of the batch that are decoded.
    pub open spec fn kept(self) -> Seq<RowView> {
        rows_to_decode(self.answer, self.rows)
    }
}

/// The keys seen once a fresh scanner has processed the first `n` batches.
pub open spec fn seen_after(steps: Seq<Step>, n: int) -> Set<Key>
    decreases n,
{
    if n <= 0 || n > steps.len() {
        Set::empty()
    } else {
        batch_seen(
            steps[n - 1].answer,
            seen_after(steps, n - 1),
            steps[n - 1].rows,
            steps[n - 1].is_log_batch,
        )
    }
}

/// What batch `n` yields to a scanner that has processed the batches before.
pub open spec fn yield_of(steps: Seq<Step>, n: int) -> Result<Seq<AddView>, Error> {
    batch_outcome(steps[n].answer, seen_after(steps, n), steps[n].rows, steps[n].is_log_batch)
}

/// No live addition has a blocked key.
pub proof fn lemma_live_not_blocked(
    blocked: Set<Key>,
    adds: Seq<AddView>,
    remember: bool,
    n: int,
)
    ensures
        forall|p: int|
            0 <= p < live_adds(blocked, adds, remember, n).len() ==> !blocked.contains(
                #[trigger] live_adds(blocked, adds, remember, n)[p].key(),
            ),
    decreases n,
{
    if 0 < n <= adds.len() {
        lemma_live_not_blocked(blocked, adds, remember, n - 1);
        let before = live_adds(blocked, adds, remember, n - 1);
        let live = live_adds(blocked, adds, remember, n);
        assert forall|p: int| 0 <= p < live.len() implies !blocked.contains(
            #[trigger] live[p].key(),
        ) by {
            if p < before.len() {
                assert(live[p] == before[p]);
                assert(!blocked.contains(before[p].key()));
            }
        }
    }
}

/// Each live addition is one of the additions, and is live where it stands.
pub proof fn lemma_live_comes_from_adds(
    blocked: Set<Key>,
    adds: Seq<AddView>,
    remember: bool,
    n: int,
    p: int,
)
    requires
        0 <= p < live_adds(blocked, adds, remember, n).len(),
    ensures
        exists|i: int|
            0 <= i < n && i < adds.len() && is_live(blocked, adds, remember, i) && #[trigger] adds[i]
                == live_adds(blocked, adds, remember, n)[p],
    decreases n,
{
    if 0 < n <= adds.len() {
        let before = live_adds(blocked, adds, remember, n - 1);
        if p < before.len() {
            lemma_live_comes_from_adds(blocked, adds, remember, n - 1, p);
            let i = choose|i: int|
                0 <= i < n - 1 && i < adds.len() && is_live(blocked, adds, remember, i)
                    && #[trigger] adds[i] == before[p];
            assert(adds[i] == live_adds(blocked, adds, remember, n)[p]);
        } else {
            assert(adds[n - 1] == live_adds(blocked, adds, remember, n)[p]);
        }
    }
}

/// Where additions are remembered, no two live additions share a key.
pub proof fn lemma_live_keys_distinct(
    blocked: Set<Key>,
    adds: Seq<AddView>,
    n: int,
    p: int,
    q: int,
)
    requires
        0 <= p < q < live_adds(blocked, adds, true, n).len(),
    ensures
        live_adds(blocked, adds, true, n)[p].key() != live_adds(blocked, adds, true, n)[q].key(),
    decreases n,
{
    if 0 < n <= adds.len() {
        let before = live_adds(blocked, adds, true, n - 1);
        if q < before.len() {
            lemma_live_keys_distinct(blocked, adds, n - 1, p, q);
        } else {
            lemma_live_comes_from_adds(blocked, adds, true, n - 1, p);
            let i = choose|i: int|
                0 <= i < n - 1 && i < adds.len() && is_live(blocked, adds, true, i)
                    && #[trigger] adds[i] == before[p];
            assert(adds[i].key() != adds[n - 1].key());
        }
    }
}

/// The live additions stand in the order of the additions they come from.
pub proof fn lemma_live_keeps_order(
    blocked: Set<Key>,
    adds: Seq<AddView>,
    remember: bool,
    n: int,
    p: int,
    q: int,
)
    requires
        0 <= p < q < live_adds(blocked, adds, remember, n).len(),
    ensures
        exists|i: int, j: int|
            0 <= i < j < n && j < adds.len() && #[trigger] adds[i] == live_adds(
                blocked,
                adds,
                remember,
                n,
            )[p] && #[trigger] adds[j] == live_adds(blocked, adds, remember, n)[q],
    decreases n,
{
    if 0 < n <= adds.len() {
        let before = live_adds(blocked, adds, remember, n - 1);
        let live = live_adds(blocked, adds, remember, n);
        if q < before.len() {
            lemma_live_keeps_order(blocked, adds, remember, n - 1, p, q);
            let (i, j) = choose|i: int, j: int|
                0 <= i < j < n - 1 && j < adds.len() && #[trigger] adds[i] == before[p]
                    && #[trigger] adds[j] == before[q];
            assert(adds[i] == live[p] && adds[j] == live[q]);
        } else {
            lemma_live_comes_from_adds(blocked, adds, remember, n - 1, p);
            let i = choose|i: int|
                0 <= i < n - 1 && i < adds.len() && is_live(blocked, adds, remember, i)
                    && #[trigger] adds[i] == before[p];
            assert(adds[i] == live[p] && adds[n - 1] == live[q]);
        }
    }
}

/// Row order is kept: of two additions that a batch emits, the earlier comes
/// from an earlier place among the additions that its rows carry.
pub proof fn emitted_keeps_row_order(
    seen: Set<Key>,
    rows: Seq<RowView>,
    is_log_batch: bool,
    p: int,
    q: int,
)
    requires
        0 <= p < q < emitted(seen, rows, is_log_batch).len(),
    ensures
        exists|i: int, j: int|
            0 <= i < j < rows_adds(rows, is_log_batch).len() && #[trigger] rows_adds(
                rows,
                is_log_batch,
            )[i] == emitted(seen, rows, is_log_batch)[p] && #[trigger] rows_adds(
                rows,
                is_log_batch,
            )[j] == emitted(seen, rows, is_log_batch)[q],
{
    let adds = rows_adds(rows, is_log_batch);
    lemma_live_keeps_order(
        seen.union(rows_removed(rows, is_log_batch)),
        adds,
        is_log_batch,
        adds.len() as int,
        p,
        q,
    );
}

/// Within one commit's batch the first addition of a key wins: no two of the
/// additions that the batch emits share a key.
pub proof fn commit_emits_each_key_once(seen: Set<Key>, rows: Seq<RowView>, p: int, q: int)
    requires
        0 <= p < q < emitted(seen, rows, true).len(),
    ensures
        emitted(seen, rows, true)[p].key() != emitted(seen, rows, true)[q].key(),
{
    let adds = rows_adds(rows, true);
    lemma_live_keys_distinct(seen.union(rows_removed(rows, true)), adds, adds.len() as int, p, q);
}

/// What a batch emits is among the additions that its rows carry, and a
/// commit's batch remembers the key of each.
pub proof fn emitted_comes_from_the_batch(
    seen: Set<Key>,
    rows: Seq<RowView>,
    is_log_batch: bool,
    p: int,
)
    requires
        0 <= p < emitted(seen, rows, is_log_batch).len(),
    ensures
        rows_adds(rows, is_log_batch).contains(emitted(seen, rows, is_log_batch)[p]),
        is_log_batch ==> seen_next(seen, rows, is_log_batch).contains(
            emitted(seen, rows, is_log_batch)[p].key(),
        ),
{
    let adds = rows_adds(rows, is_log_batch);
    let blocked = seen.union(rows_removed(rows, is_log_batch));
    lemma_live_comes_from_adds(blocked, adds, is_log_batch, adds.len() as int, p);
    let i = choose|i: int|
        0 <= i < adds.len() && is_live(blocked, adds, is_log_batch, i) && #[trigger] adds[i]
            == emitted(seen, rows, is_log_batch)[p];
    assert(add_keys(adds, adds.len() as int).contains(adds[i].key()));
}

/// The keys seen only grow: one batch forgets nothing.
pub proof fn seen_grows(answer: Answer, seen: Set<Key>, rows: Seq<RowView>, is_log_batch: bool)
    ensures
        seen.subset_of(batch_seen(answer, seen, rows, is_log_batch)),
{
}

/// The keys seen only grow over a history.
pub proof fn seen_after_grows(steps: Seq<Step>, i: int, j: int)
    requires
        0 <= i <= j <= steps.len(),
    ensures
        seen_after(steps, i).subset_of(seen_after(steps, j)),
    decreases j - i,
{
    if i < j {
        seen_after_grows(steps, i, j - 1);
        seen_grows(
            steps[j - 1].answer,
            seen_after(steps, j - 1),
            steps[j - 1].rows,
            steps[j - 1].is_log_batch,
        );
    }
}

/// Nothing emitted by a batch has a key that was seen before the batch or
/// that the batch itself tombstones.
pub proof fn emitted_is_unseen(seen: Set<Key>, rows: Seq<RowView>, is_log_batch: bool, p: int)
    requires
        0 <= p < emitted(seen, rows, is_log_batch).len(),
    ensures
        !seen.contains(emitted(seen, rows, is_log_batch)[p].key()),
        !rows_removed(rows, is_log_batch).contains(emitted(seen, rows, is_log_batch)[p].key()),
{
    let adds = rows_adds(rows, is_log_batch);
    lemma_live_not_blocked(
        seen.union(rows_removed(rows, is_log_batch)),
        adds,
        is_log_batch,
        adds.len() as int,
    );
}

/// Removal precedence: once a batch that was processed tombstones a key, no
/// addition with that key is emitted, neither by that batch nor by any batch
/// after it.
pub proof fn removal_precedence(steps: Seq<Step>, i: int, j: int, key: Key, p: int)
    requires
        0 <= i <= j < steps.len(),
        yield_of(steps, i) is Ok,
        rows_removed(steps[i].kept(), steps[i].is_log_batch).contains(key),
        yield_of(steps, j) is Ok,
        0 <= p < yield_of(steps, j)->Ok_0.len(),
    ensures
        yield_of(steps, j)->Ok_0[p].key() != key,
{
    emitted_is_unseen(seen_after(steps, j), steps[j].kept(), steps[j].is_log_batch, p);
    if i < j {
        assert(seen_after(steps, i + 1).contains(key));
        seen_after_grows(steps, i + 1, j);
    }
}

/// Duplicate suppression: once a commit's batch that was processed holds an
/// addition with a key, no later batch emits an addition with that key.
pub proof fn duplicate_suppression(steps: Seq<Step>, i: int, j: int, q: int, p: int)
    requires
        0 <= i < j < steps.len(),
        steps[i].is_log_batch,
        yield_of(steps, i) is Ok,
        0 <= q < rows_adds(steps[i].kept(), true).len(),
        yield_of(steps, j) is Ok,
        0 <= p < yield_of(steps, j)->Ok_0.len(),
    ensures
        yield_of(steps, j)->Ok_0[p].key() != rows_adds(steps[i].kept(), true)[q].key(),
{
    let adds = rows_adds(steps[i].kept(), true);
    let key = adds[q].key();
    assert(add_keys(adds, adds.len() as int).contains(adds[q].key()));
    assert(seen_after(steps, i + 1).contains(key));
    seen_after_grows(steps, i + 1, j);
    emitted_is_unseen(seen_after(steps, j), steps[j].kept(), steps[j].is_log_batch, p);
}

/// Rows read with a checkpoint's schema yield no removal.
pub proof fn lemma_checkpoint_has_no_removes(rows: Seq<RowView>, n: int)
    ensures
        batch_removes(rows, schema_for(false), n).len() == 0,
    decreases n,
{
    if 0 < n <= rows.len() {
        lemma_checkpoint_has_no_removes(rows, n - 1);
        assert(!schema_for(false).contains(FieldGroup::Removal));
    }
}

/// Without remembering, the live additions are those whose key is not
/// blocked.
pub proof fn lemma_live_is_filter(blocked: Set<Key>, adds: Seq<AddView>, n: int)
    requires
        0 <= n <= adds.len(),
    ensures
        live_adds(blocked, adds, false, n) == adds.take(n).filter(
            |a: AddView| !blocked.contains(a.key()),
        ),
    decreases n,
{
    reveal(Seq::filter);
    let unblocked = |a: AddView| !blocked.contains(a.key());
    if n > 0 {
        lemma_live_is_filter(blocked, adds, n - 1);
        assert(adds.take(n).drop_last() =~= adds.take(n - 1));
        assert(adds.take(n).last() == adds[n - 1]);
    } else {
        assert(adds.take(0).len() == 0);
    }
}

/// Checkpoint terminality: a checkpoint's batch emits exactly those of its
/// additions whose key was not seen before, in row order, and leaves the keys
/// seen as they were; what its removal groups hold has no effect.
pub proof fn checkpoint_terminality(seen: Set<Key>, rows: Seq<RowView>)
    ensures
        rows_removed(rows, false) == Set::<Key>::empty(),
        emitted(seen, rows, false) == rows_adds(rows, false).filter(
            |a: AddView| !seen.contains(a.key()),
        ),
        seen_next(seen, rows, false) == seen,
{
    lemma_checkpoint_has_no_removes(rows, rows.len() as int);
    assert(rows_removed(rows, false) =~= Set::<Key>::empty());
    assert(seen.union(rows_removed(rows, false)) =~= seen);
    let adds = rows_adds(rows, false);
    lemma_live_is_filter(seen, adds, adds.len() as int);
    assert(adds.take(adds.len() as int) =~= adds);
}

/// Two checkpoint batches whose rows agree in their addition groups are
/// decodable alike and carry the same additions.
pub proof fn checkpoint_ignores_removal_groups(a: Seq<RowView>, b: Seq<RowView>, n: int)
    requires
        a.len() == b.len(),
        forall|i: int| 0 <= i < a.len() ==> (#[trigger] a[i]).add == b[i].add,
    ensures
        well_formed(a, schema_for(false)) == well_formed(b, schema_for(false)),
        batch_adds(a, schema_for(false), n) == batch_adds(b, schema_for(false), n),
    decreases n,
{
    assert(!schema_for(false).contains(FieldGroup::Removal));
    assert forall|i: int| 0 <= i < a.len() implies row_malformed(a[i], schema_for(false))
        == row_malformed(b[i], schema_for(false)) by {
        assert(a[i].add == b[i].add);
    }
    if well_formed(a, schema_for(false)) {
        assert forall|i: int| 0 <= i < b.len() implies !row_malformed(
            #[trigger] b[i],
            schema_for(false),
        ) by {
            assert(!row_malformed(a[i], schema_for(false)));
        }
    }
    if well_formed(b, schema_for(false)) {
        assert forall|i: int| 0 <= i < a.len() implies !row_malformed(
            #[trigger] a[i],
            schema_for(false),
        ) by {
            assert(!row_malformed(b[i], schema_for(false)));
        }
    }
    if 0 < n <= a.len() {
        checkpoint_ignores_removal_groups(a, b, n - 1);
        assert(a[n - 1].add == b[n - 1].add);
    }
}

/// Whether a filter's marks are sound for the rows: every row that
/// `may_match` holds of is marked, or not reached.
pub open spec fn sound_marks(
    rows: Seq<RowView>,
    marks: Seq<bool>,
    may_match: spec_fn(RowView) -> bool,
) -> bool {
    forall|i: int| 0 <= i < rows.len() && i < marks.len() && may_match(#[trigger] rows[i]) ==> marks[i]
}

/// A row that is marked, or not reached, is among the selected.
pub proof fn lemma_marked_is_selected(rows: Seq<RowView>, marks: Seq<bool>, i: int, n: int)
    requires
        0 <= i < n <= rows.len(),
        i < marks.len() ==> marks[i],
    ensures
        selected_rows(rows, marks, n).contains(rows[i]),
    decreases n,
{
    if i < n - 1 {
        lemma_marked_is_selected(rows, marks, i, n - 1);
        let before = selected_rows(rows, marks, n - 1);
        let k = choose|k: int| 0 <= k < before.len() && before[k] == rows[i];
        assert(selected_rows(rows, marks, n)[k] == rows[i]);
    } else {
        let before = selected_rows(rows, marks, n - 1);
        assert(selected_rows(rows, marks, n)[before.len() as int] == rows[i]);
    }
}

/// The addition of each row is among those that the rows carry.
pub proof fn lemma_row_add_is_extracted(
    rows: Seq<RowView>,
    schema: Seq<FieldGroup>,
    i: int,
    n: int,
)
    requires
        0 <= i < n <= rows.len(),
        row_add(rows[i], schema) is Some,
    ensures
        batch_adds(rows, schema, n).contains(row_add(rows[i], schema)->Some_0),
    decreases n,
{
    let a = row_add(rows[i], schema)->Some_0;
    if i < n - 1 {
        lemma_row_add_is_extracted(rows, schema, i, n - 1);
        let before = batch_adds(rows, schema, n - 1);
        let k = choose|k: int| 0 <= k < before.len() && before[k] == a;
        assert(batch_adds(rows, schema, n)[k] == a);
    } else {
        let before = batch_adds(rows, schema, n - 1);
        assert(batch_adds(rows, schema, n)[before.len() as int] == a);
    }
}

/// Soundness of filtering: under sound marks, the addition of a row that may
/// match is extracted with the filter as it is without.
pub proof fn filtering_keeps_matching_additions(
    rows: Seq<RowView>,
    marks: Seq<bool>,
    may_match: spec_fn(RowView) -> bool,
    is_log_batch: bool,
    i: int,
)
    requires
        sound_marks(rows, marks, may_match),
        0 <= i < rows.len(),
        may_match(rows[i]),
        row_add(rows[i], schema_for(is_log_batch)) is Some,
    ensures
        rows_adds(rows, is_log_batch).contains(row_add(rows[i], schema_for(is_log_batch))->Some_0),
        rows_adds(rows_to_decode(Some(Ok(marks)), rows), is_log_batch).contains(
            row_add(rows[i], schema_for(is_log_batch))->Some_0,
        ),
{
    let schema = schema_for(is_log_batch);
    lemma_row_add_is_extracted(rows, schema, i, rows.len() as int);
    lemma_marked_is_selected(rows, marks, i, rows.len() as int);
    let kept = selected_rows(rows, marks, rows.len() as int);
    let k = choose|k: int| 0 <= k < kept.len() && kept[k] == rows[i];
    lemma_row_add_is_extracted(kept, schema, k, kept.len() as int);
}

/// Marks that drop no row leave the rows as they are.
pub proof fn lemma_all_marked(rows: Seq<RowView>, marks: Seq<bool>, n: int)
    requires
        0 <= n <= rows.len(),
        forall|i: int| 0 <= i < rows.len() && i < marks.len() ==> #[trigger] marks[i],
    ensures
        selected_rows(rows, marks, n) == rows.take(n),
    decreases n,
{
    if n > 0 {
        lemma_all_marked(rows, marks, n - 1);
        assert(rows.take(n) =~= rows.take(n - 1).push(rows[n - 1]));
    } else {
        assert(rows.take(0) =~= Seq::<RowView>::empty());
    }
}

/// Soundness of filtering, for a whole batch: where every row may match, a
/// sound filter changes neither what the batch yields nor what is seen
/// after it.
pub proof fn sound_filter_changes_nothing(
    seen: Set<Key>,
    rows: Seq<RowView>,
    marks: Seq<bool>,
    may_match: spec_fn(RowView) -> bool,
    is_log_batch: bool,
)
    requires
        sound_marks(rows, marks, may_match),
        forall|i: int| 0 <= i < rows.len() ==> may_match(#[trigger] rows[i]),
    ensures
        batch_outcome(Some(Ok(marks)), seen, rows, is_log_batch) == batch_outcome(
            None,
            seen,
            rows,
            is_log_batch,
        ),
        batch_seen(Some(Ok(marks)), seen, rows, is_log_batch) == batch_seen(
            None,
            seen,
            rows,
            is_log_batch,
        ),
{
    assert forall|i: int| 0 <= i < rows.len() && i < marks.len() implies #[trigger] marks[i] by {
        assert(may_match(rows[i]));
    }
    lemma_all_marked(rows, marks, rows.len() as int);
    assert(rows.take(rows.len() as int) =~= rows);
}

/// A scanner whose filter is [`KeepAll`] yields for each batch what a
/// scanner without a filter yields, and sees the same keys after it.
pub proof fn keep_all_is_no_filter(
    batch: &Batch,
    answer: Answer,
    seen: Set<Key>,
    is_log_batch: bool,
)
    requires
        filter_answers(Some(KeepAll), batch, answer),
    ensures
        batch_outcome(answer, seen, batch@, is_log_batch) == batch_outcome(
            None,
            seen,
            batch@,
            is_log_batch,
        ),
        batch_seen(answer, seen, batch@, is_log_batch) == batch_seen(
            None,
            seen,
            batch@,
            is_log_batch,
        ),
{
    let selection = choose|selection: Result<Vec<bool>, Error>|
        #[trigger] call_ensures(KeepAll::select, (&KeepAll, batch), selection) && answer
            == answer_view(Some(selection));
    let marks = selection->Ok_0@;
    lemma_all_marked(batch@, marks, batch@.len() as int);
    assert(batch@.take(batch@.len() as int) =~= batch@);
}

/// Whether a filter is sound for `may_match`: of whatever batch it is asked
/// about, the marks that it returns keep every row that `may_match` holds of.
pub open spec fn sound_filter<F: DataSkippingFilter>(
    filter: F,
    may_match: spec_fn(RowView) -> bool,
) -> bool {
    forall|batch: &Batch, selection: Result<Vec<bool>, Error>|
        #[trigger] call_ensures(F::select, (&filter, batch), selection) && selection is Ok
            ==> sound_marks(batch@, selection->Ok_0@, may_match)
}

/// Soundness of filtering at the scanner: where a sound filter answers, the
/// addition of a row that may match is among those that are decoded, as it
/// is without a filter.
pub proof fn sound_filter_keeps_matching_additions<F: DataSkippingFilter>(
    filter: F,
    may_match: spec_fn(RowView) -> bool,
    batch: &Batch,
    answer: Answer,
    is_log_batch: bool,
    i: int,
)
    requires
        sound_filter(filter, may_match),
        filter_answers(Some(filter), batch, answer),
        answer matches Some(Ok(_)),
        0 <= i < batch@.len(),
        may_match(batch@[i]),
        row_add(batch@[i], schema_for(is_log_batch)) is Some,
    ensures
        rows_adds(rows_to_decode(None, batch@), is_log_batch).contains(
            row_add(batch@[i], schema_for(is_log_batch))->Some_0,
        ),
        rows_adds(rows_to_decode(answer, batch@), is_log_batch).contains(
            row_add(batch@[i], schema_for(is_log_batch))->Some_0,
        ),
{
    let selection = choose|selection: Result<Vec<bool>, Error>|
        #[trigger] call_ensures(F::select, (&filter, batch), selection) && answer == answer_view(
            Some(selection),
        );
    filtering_keeps_matching_additions(batch@, selection->Ok_0@, may_match, is_log_batch, i);
}

/// The keys seen only grow over a replay.
pub proof fn seen_through_grows(inputs: Seq<InputView>, answers: Seq<Answer>, i: int, j: int)
    requires
        0 <= i <= j <= inputs.len(),
    ensures
        seen_through(inputs, answers, i).subset_of(seen_through(inputs, answers, j)),
    decreases j - i,
{
    if i < j {
        seen_through_grows(inputs, answers, i, j - 1);
    }
}

/// No addition in the segment of an input has a key that was seen before
/// that input.
pub proof fn segment_is_unseen(inputs: Seq<InputView>, answers: Seq<Answer>, j: int, p: int)
    requires
        0 <= j < inputs.len(),
        0 <= p < segment(inputs, answers, j).len(),
        segment(inputs, answers, j)[p] is Ok,
    ensures
        !seen_through(inputs, answers, j).contains(segment(inputs, answers, j)[p]->Ok_0.key()),
{
    let (rows, is_log_batch) = inputs[j]->Ok_0;
    emitted_is_unseen(
        seen_through(inputs, answers, j),
        rows_to_decode(answers[j], rows),
        is_log_batch,
        p,
    );
}

/// Removal precedence over a whole replay: once an input that was processed
/// tombstones a key, no output element of that input or of any input after
/// it is an addition with that key.
pub proof fn replay_removal_precedence(
    inputs: Seq<InputView>,
    answers: Seq<Answer>,
    i: int,
    j: int,
    key: Key,
    p: int,
)
    requires
        0 <= i <= j < inputs.len(),
        inputs[i] is Ok,
        batch_outcome(
            answers[i],
            seen_through(inputs, answers, i),
            inputs[i]->Ok_0.0,
            inputs[i]->Ok_0.1,
        ) is Ok,
        rows_removed(rows_to_decode(answers[i], inputs[i]->Ok_0.0), inputs[i]->Ok_0.1).contains(
            key,
        ),
        0 <= p < segment(inputs, answers, j).len(),
        segment(inputs, answers, j)[p] is Ok,
    ensures
        segment(inputs, answers, j)[p]->Ok_0.key() != key,
{
    if i < j {
        assert(seen_through(inputs, answers, i + 1).contains(key));
        seen_through_grows(inputs, answers, i + 1, j);
        segment_is_unseen(inputs, answers, j, p);
    } else {
        let (rows, is_log_batch) = inputs[j]->Ok_0;
        emitted_is_unseen(
            seen_through(inputs, answers, j),
            rows_to_decode(answers[j], rows),
            is_log_batch,
            p,
        );
    }
}

/// Duplicate suppression over a whole replay: once a commit's batch that was
/// processed carries an addition with a key, no output element of a later
/// input is an addition with that key.
pub proof fn replay_duplicate_suppression(
    inputs: Seq<InputView>,
    answers: Seq<Answer>,
    i: int,
    j: int,
    q: int,
    p: int,
)
    requires
        0 <= i < j < inputs.len(),
        inputs[i] is Ok,
        inputs[i]->Ok_0.1,
        batch_outcome(answers[i], seen_through(inputs, answers, i), inputs[i]->Ok_0.0, true) is Ok,
        0 <= q < rows_adds(rows_to_decode(answers[i], inputs[i]->Ok_0.0), true).len(),
        0 <= p < segment(inputs, answers, j).len(),
        segment(inputs, answers, j)[p] is Ok,
    ensures
        segment(inputs, answers, j)[p]->Ok_0.key() != rows_adds(
            rows_to_decode(answers[i], inputs[i]->Ok_0.0),
            true,
        )[q].key(),
{
    let adds = rows_adds(rows_to_decode(answers[i], inputs[i]->Ok_0.0), true);
    assert(add_keys(adds, adds.len() as int).contains(adds[q].key()));
    assert(seen_through(inputs, answers, i + 1).contains(adds[q].key()));
    seen_through_grows(inputs, answers, i + 1, j);
    segment_is_unseen(inputs, answers, j, p);
}

/// Each key is emitted once over a whole replay: an addition that a commit's
/// batch emits shares its key with no addition emitted after it, be it later
/// in the same batch or by any later input. So of the additions of a key
/// only the first in row order of the newest batch is ever emitted.
pub proof fn replay_emits_each_key_once(
    inputs: Seq<InputView>,
    answers: Seq<Answer>,
    i: int,
    j: int,
    p: int,
    q: int,
)
    requires
        0 <= i <= j < inputs.len(),
        inputs[i] is Ok,
        inputs[i]->Ok_0.1,
        0 <= p < segment(inputs, answers, i).len(),
        segment(inputs, answers, i)[p] is Ok,
        0 <= q < segment(inputs, answers, j).len(),
        segment(inputs, answers, j)[q] is Ok,
        i < j || p < q,
    ensures
        segment(inputs, answers, i)[p]->Ok_0.key() != segment(inputs, answers, j)[q]->Ok_0.key(),
{
    let rows = rows_to_decode(answers[i], inputs[i]->Ok_0.0);
    let seen = seen_through(inputs, answers, i);
    if i < j {
        emitted_comes_from_the_batch(seen, rows, true, p);
        assert(seen_through(inputs, answers, i + 1).contains(
            segment(inputs, answers, i)[p]->Ok_0.key(),
        ));
        seen_through_grows(inputs, answers, i + 1, j);
        segment_is_unseen(inputs, answers, j, q);
    } else {
        commit_emits_each_key_once(seen, rows, p, q);
    }
}

/// An input that yields an error yields that error alone and leaves the keys
/// seen as they were: every later input meets the state that it would meet
/// had the failed input not been there.
pub proof fn failed_input_changes_nothing(inputs: Seq<InputView>, answers: Seq<Answer>, k: int)
    requires
        0 <= k < inputs.len(),
        input_fails(inputs, answers, k),
    ensures
        segment(inputs, answers, k).len() == 1,
        segment(inputs, answers, k)[0] is Err,
        seen_through(inputs, answers, k + 1) == seen_through(inputs, answers, k),
{
}

/// Each addition that the rows carry is the addition of one of the rows.
pub proof fn lemma_add_comes_from_row(
    rows: Seq<RowView>,
    schema: Seq<FieldGroup>,
    n: int,
    p: int,
)
    requires
        0 <= p < batch_adds(rows, schema, n).len(),
    ensures
        exists|k: int|
            0 <= k < n && k < rows.len() && row_add(#[trigger] rows[k], schema) == Some(
                batch_adds(rows, schema, n)[p],
            ),
    decreases n,
{
    if 0 < n <= rows.len() {
        let before = batch_adds(rows, schema, n - 1);
        if p < before.len() {
            lemma_add_comes_from_row(rows, schema, n - 1, p);
            let k = choose|k: int|
                0 <= k < n - 1 && k < rows.len() && row_add(#[trigger] rows[k], schema) == Some(
                    before[p],
                );
            assert(row_add(rows[k], schema) == Some(batch_adds(rows, schema, n)[p]));
        } else {
            assert(row_add(rows[n - 1], schema) == Some(batch_adds(rows, schema, n)[p]));
        }
    }
}

/// Each removal that the rows carry is the removal of one of the rows.
pub proof fn lemma_remove_comes_from_row(
    rows: Seq<RowView>,
    schema: Seq<FieldGroup>,
    n: int,
    p: int,
)
    requires
        0 <= p < batch_removes(rows, schema, n).len(),
    ensures
        exists|k: int|
            0 <= k < n && k < rows.len() && row_remove(#[trigger] rows[k], schema) == Some(
                batch_removes(rows, schema, n)[p],
            ),
    decreases n,
{
    if 0 < n <= rows.len() {
        let before = batch_removes(rows, schema, n - 1);
        if p < before.len() {
            lemma_remove_comes_from_row(rows, schema, n - 1, p);
            let k = choose|k: int|
                0 <= k < n - 1 && k < rows.len() && row_remove(#[trigger] rows[k], schema) == Some(
                    before[p],
                );
            assert(row_remove(rows[k], schema) == Some(batch_removes(rows, schema, n)[p]));
        } else {
            assert(row_remove(rows[n - 1], schema) == Some(batch_removes(rows, schema, n)[p]));
        }
    }
}

/// The removal of each row is among those that the rows carry.
pub proof fn lemma_row_remove_is_extracted(
    rows: Seq<RowView>,
    schema: Seq<FieldGroup>,
    i: int,
    n: int,
)
    requires
        0 <= i < n <= rows.len(),
        row_remove(rows[i], schema) is Some,
    ensures
        batch_removes(rows, schema, n).contains(row_remove(rows[i], schema)->Some_0),
    decreases n,
{
    let r = row_remove(rows[i], schema)->Some_0;
    if i < n - 1 {
        lemma_row_remove_is_extracted(rows, schema, i, n - 1);
        let before = batch_removes(rows, schema, n - 1);
        let k = choose|k: int| 0 <= k < before.len() && before[k] == r;
        assert(batch_removes(rows, schema, n)[k] == r);
    } else {
        let before = batch_removes(rows, schema, n - 1);
        assert(batch_removes(rows, schema, n)[before.len() as int] == r);
    }
}

/// Each selected row is one of the rows, and one that the marks do not drop.
pub proof fn lemma_selected_comes_from_rows(
    rows: Seq<RowView>,
    marks: Seq<bool>,
    n: int,
    p: int,
)
    requires
        0 <= p < selected_rows(rows, marks, n).len(),
    ensures
        exists|k: int|
            0 <= k < n && k < rows.len() && #[trigger] rows[k] == selected_rows(rows, marks, n)[p],
    decreases n,
{
    if 0 < n <= rows.len() {
        let before = selected_rows(rows, marks, n - 1);
        if p < before.len() {
            lemma_selected_comes_from_rows(rows, marks, n - 1, p);
            let k = choose|k: int| 0 <= k < n - 1 && k < rows.len() && #[trigger] rows[k] == before[p];
            assert(rows[k] == selected_rows(rows, marks, n)[p]);
        } else {
            assert(rows[n - 1] == selected_rows(rows, marks, n)[p]);
        }
    }
}

/// Marks that keep every row with a removal leave the tombstoned keys as
/// they are.
pub proof fn lemma_kept_removals(rows: Seq<RowView>, marks: Seq<bool>, is_log_batch: bool)
    requires
        forall|k: int|
            0 <= k < rows.len() && k < marks.len() && row_remove(
                #[trigger] rows[k],
                schema_for(is_log_batch),
            ) is Some ==> marks[k],
    ensures
        rows_removed(selected_rows(rows, marks, rows.len() as int), is_log_batch) == rows_removed(
            rows,
            is_log_batch,
        ),
{
    let schema = schema_for(is_log_batch);
    let kept = selected_rows(rows, marks, rows.len() as int);
    let all = batch_removes(rows, schema, rows.len() as int);
    let some = batch_removes(kept, schema, kept.len() as int);
    assert forall|key: Key|
        rows_removed(kept, is_log_batch).contains(key) <==> rows_removed(
            rows,
            is_log_batch,
        ).contains(key) by {
        if rows_removed(kept, is_log_batch).contains(key) {
            let p = choose|p: int| 0 <= p < some.len() && #[trigger] some[p].key() == key;
            lemma_remove_comes_from_row(kept, schema, kept.len() as int, p);
            let m = choose|m: int|
                0 <= m < kept.len() && row_remove(#[trigger] kept[m], schema) == Some(some[p]);
            lemma_selected_comes_from_rows(rows, marks, rows.len() as int, m);
            let k = choose|k: int| 0 <= k < rows.len() && #[trigger] rows[k] == kept[m];
            lemma_row_remove_is_extracted(rows, schema, k, rows.len() as int);
            let q = choose|q: int| 0 <= q < all.len() && all[q] == some[p];
            assert(all[q].key() == key);
        }
        if rows_removed(rows, is_log_batch).contains(key) {
            let p = choose|p: int| 0 <= p < all.len() && #[trigger] all[p].key() == key;
            lemma_remove_comes_from_row(rows, schema, rows.len() as int, p);
            let k = choose|k: int|
                0 <= k < rows.len() && row_remove(#[trigger] rows[k], schema) == Some(all[p]);
            lemma_marked_is_selected(rows, marks, k, rows.len() as int);
            let m = choose|m: int| 0 <= m < kept.len() && kept[m] == rows[k];
            lemma_row_remove_is_extracted(kept, schema, m, kept.len() as int);
            let q = choose|q: int| 0 <= q < some.len() && some[q] == all[p];
            assert(some[q].key() == key);
        }
    }
    assert(rows_removed(kept, is_log_batch) =~= rows_removed(rows, is_log_batch));
}

/// Where `a` is the one addition of its key among the first `n`, it is live
/// exactly when its key is not blocked; where none of them has its key, it
/// is not live.
pub proof fn lemma_sole_addition_is_live(
    blocked: Set<Key>,
    adds: Seq<AddView>,
    remember: bool,
    a: AddView,
    n: int,
)
    requires
        0 <= n <= adds.len(),
        forall|k: int| 0 <= k < adds.len() && #[trigger] adds[k].key() == a.key() ==> adds[k] == a,
    ensures
        live_adds(blocked, adds, remember, n).contains(a) <==> (!blocked.contains(a.key())
            && exists|k: int| 0 <= k < n && #[trigger] adds[k].key() == a.key()),
    decreases n,
{
    if n > 0 {
        lemma_sole_addition_is_live(blocked, adds, remember, a, n - 1);
        let before = live_adds(blocked, adds, remember, n - 1);
        let live = live_adds(blocked, adds, remember, n);
        let earlier = exists|k: int| 0 <= k < n - 1 && #[trigger] adds[k].key() == a.key();
        if before.contains(a) {
            let p = choose|p: int| 0 <= p < before.len() && before[p] == a;
            assert(live[p] == a);
            let k = choose|k: int| 0 <= k < n - 1 && #[trigger] adds[k].key() == a.key();
            assert(0 <= k < n && adds[k].key() == a.key());
        }
        if live.contains(a) && !before.contains(a) {
            let p = choose|p: int| 0 <= p < live.len() && live[p] == a;
            assert(p == before.len());
            assert(is_live(blocked, adds, remember, n - 1));
            assert(adds[n - 1] == a);
            assert(0 <= n - 1 < n && adds[n - 1].key() == a.key());
        }
        if !blocked.contains(a.key()) && (exists|k: int|
            0 <= k < n && #[trigger] adds[k].key() == a.key()) {
            if earlier {
                assert(before.contains(a));
            } else {
                let k = choose|k: int| 0 <= k < n && #[trigger] adds[k].key() == a.key();
                assert(k == n - 1);
                assert(adds[n - 1] == a);
                assert(is_live(blocked, adds, remember, n - 1));
                assert(live[before.len() as int] == a);
            }
        }
    }
}

/// Soundness of filtering, for what is emitted: under sound marks that also
/// keep every row with a removal, an addition of a row that may match, which
/// is the one addition of its key in the batch, is emitted with the filter
/// exactly when it is emitted without.
pub proof fn sound_filter_emits_the_same(
    seen: Set<Key>,
    rows: Seq<RowView>,
    marks: Seq<bool>,
    may_match: spec_fn(RowView) -> bool,
    is_log_batch: bool,
    i: int,
)
    requires
        sound_marks(rows, marks, may_match),
        forall|k: int|
            0 <= k < rows.len() && row_remove(#[trigger] rows[k], schema_for(is_log_batch)) is Some
                ==> may_match(rows[k]),
        0 <= i < rows.len(),
        may_match(rows[i]),
        row_add(rows[i], schema_for(is_log_batch)) is Some,
        forall|k: int|
            0 <= k < rows.len() && row_add(#[trigger] rows[k], schema_for(is_log_batch)) is Some
                && row_add(rows[k], schema_for(is_log_batch))->Some_0.key() == row_add(
                rows[i],
                schema_for(is_log_batch),
            )->Some_0.key() ==> rows[k] == rows[i],
    ensures
        emitted(seen, rows, is_log_batch).contains(
            row_add(rows[i], schema_for(is_log_batch))->Some_0,
        ) <==> emitted(
            seen,
            rows_to_decode(Some(Ok(marks)), rows),
            is_log_batch,
        ).contains(row_add(rows[i], schema_for(is_log_batch))->Some_0),
{
    let schema = schema_for(is_log_batch);
    let a = row_add(rows[i], schema)->Some_0;
    let kept = selected_rows(rows, marks, rows.len() as int);
    let all = rows_adds(rows, is_log_batch);
    let some = rows_adds(kept, is_log_batch);
    filtering_keeps_matching_additions(rows, marks, may_match, is_log_batch, i);
    lemma_kept_removals(rows, marks, is_log_batch);
    assert forall|k: int| 0 <= k < all.len() && #[trigger] all[k].key() == a.key() implies all[k]
        == a by {
        lemma_add_comes_from_row(rows, schema, rows.len() as int, k);
    }
    assert forall|k: int| 0 <= k < some.len() && #[trigger] some[k].key() == a.key() implies some[k]
        == a by {
        lemma_add_comes_from_row(kept, schema, kept.len() as int, k);
        let m = choose|m: int|
            0 <= m < kept.len() && row_add(#[trigger] kept[m], schema) == Some(some[k]);
        lemma_selected_comes_from_rows(rows, marks, rows.len() as int, m);
    }
    let p = choose|p: int| 0 <= p < all.len() && all[p] == a;
    assert(all[p].key() == a.key());
    let q = choose|q: int| 0 <= q < some.len() && some[q] == a;
    assert(some[q].key() == a.key());
    lemma_sole_addition_is_live(
        seen.union(rows_removed(rows, is_log_batch)),
        all,
        is_log_batch,
        a,
        all.len() as int,
    );
    lemma_sole_addition_is_live(
        seen.union(rows_removed(kept, is_log_batch)),
        some,
        is_log_batch,
        a,
        some.len() as int,
    );
}

/// A key that is not blocked and that one of the first `n` additions has is
/// the key of a live addition.
pub proof fn lemma_unblocked_key_is_emitted(
    blocked: Set<Key>,
    adds: Seq<AddView>,
    remember: bool,
    key: Key,
    n: int,
)
    requires
        0 <= n <= adds.len(),
        !blocked.contains(key),
        exists|k: int| 0 <= k < n && #[trigger] adds[k].key() == key,
    ensures
        exists|p: int|
            0 <= p < live_adds(blocked, adds, remember, n).len() && #[trigger] live_adds(
                blocked,
                adds,
                remember,
                n,
            )[p].key() == key,
    decreases n,
{
    let before = live_adds(blocked, adds, remember, n - 1);
    let live = live_adds(blocked, adds, remember, n);
    if exists|k: int| 0 <= k < n - 1 && #[trigger] adds[k].key() == key {
        lemma_unblocked_key_is_emitted(blocked, adds, remember, key, n - 1);
        let p = choose|p: int| 0 <= p < before.len() && #[trigger] before[p].key() == key;
        assert(live[p].key() == key);
    } else {
        let k = choose|k: int| 0 <= k < n && #[trigger] adds[k].key() == key;
        assert(k == n - 1);
        assert(is_live(blocked, adds, remember, n - 1));
        assert(live[before.len() as int].key() == key);
    }
}

/// Soundness of filtering, for the keys emitted: under sound marks that also
/// keep every row with a removal, each key that the batch emits with the
/// filter is a key that it emits without.
pub proof fn sound_filter_emits_no_new_key(
    seen: Set<Key>,
    rows: Seq<RowView>,
    marks: Seq<bool>,
    may_match: spec_fn(RowView) -> bool,
    is_log_batch: bool,
    p: int,
)
    requires
        sound_marks(rows, marks, may_match),
        forall|k: int|
            0 <= k < rows.len() && row_remove(#[trigger] rows[k], schema_for(is_log_batch)) is Some
                ==> may_match(rows[k]),
        0 <= p < emitted(seen, rows_to_decode(Some(Ok(marks)), rows), is_log_batch).len(),
    ensures
        exists|q: int|
            0 <= q < emitted(seen, rows, is_log_batch).len() && #[trigger] emitted(
                seen,
                rows,
                is_log_batch,
            )[q].key() == emitted(
                seen,
                rows_to_decode(Some(Ok(marks)), rows),
                is_log_batch,
            )[p].key(),
{
    let schema = schema_for(is_log_batch);
    let kept = selected_rows(rows, marks, rows.len() as int);
    let all = rows_adds(rows, is_log_batch);
    let some = rows_adds(kept, is_log_batch);
    let e = emitted(seen, kept, is_log_batch)[p];
    lemma_kept_removals(rows, marks, is_log_batch);
    emitted_is_unseen(seen, kept, is_log_batch, p);
    emitted_comes_from_the_batch(seen, kept, is_log_batch, p);
    let m = choose|m: int| 0 <= m < some.len() && some[m] == e;
    lemma_add_comes_from_row(kept, schema, kept.len() as int, m);
    let r = choose|r: int| 0 <= r < kept.len() && row_add(#[trigger] kept[r], schema) == Some(some[m]);
    lemma_selected_comes_from_rows(rows, marks, rows.len() as int, r);
    let k = choose|k: int| 0 <= k < rows.len() && #[trigger] rows[k] == kept[r];
    lemma_row_add_is_extracted(rows, schema, k, rows.len() as int);
    let t = choose|t: int| 0 <= t < all.len() && all[t] == e;
    assert(all[t].key() == e.key());
    let blocked = seen.union(rows_removed(rows, is_log_batch));
    lemma_unblocked_key_is_emitted(blocked, all, is_log_batch, e.key(), all.len() as int);
    let live = live_adds(blocked, all, is_log_batch, all.len() as int);
    let q = choose|q: int| 0 <= q < live.len() && #[trigger] live[q].key() == e.key();
    assert(emitted(seen, rows, is_log_batch)[q].key() == e.key());
}

/// Soundness of filtering at the scanner, for what is emitted: where a sound
/// filter that keeps every row with a removal answers, an addition of a row
/// that may match, which is the one addition of its key in the batch, is
/// emitted by a scanner with the filter exactly when it is emitted by a
/// scanner without, the keys seen being the same.
pub proof fn sound_filter_emits_matching_additions<F: DataSkippingFilter>(
    filter: F,
    may_match: spec_fn(RowView) -> bool,
    batch: &Batch,
    answer: Answer,
    seen: Set<Key>,
    is_log_batch: bool,
    i: int,
)
    requires
        sound_filter(filter, may_match),
        filter_answers(Some(filter), batch, answer),
        answer matches Some(Ok(_)),
        forall|k: int|
            0 <= k < batch@.len() && row_remove(#[trigger] batch@[k], schema_for(is_log_batch)) is Some
                ==> may_match(batch@[k]),
        0 <= i < batch@.len(),
        may_match(batch@[i]),
        row_add(batch@[i], schema_for(is_log_batch)) is Some,
        forall|k: int|
            0 <= k < batch@.len() && row_add(#[trigger] batch@[k], schema_for(is_log_batch)) is Some
                && row_add(batch@[k], schema_for(is_log_batch))->Some_0.key() == row_add(
                batch@[i],
                schema_for(is_log_batch),
            )->Some_0.key() ==> batch@[k] == batch@[i],
    ensures
        emitted(seen, rows_to_decode(None, batch@), is_log_batch).contains(
            row_add(batch@[i], schema_for(is_log_batch))->Some_0,
        ) <==> emitted(seen, rows_to_decode(answer, batch@), is_log_batch).contains(
            row_add(batch@[i], schema_for(is_log_batch))->Some_0,
        ),
{
    let selection = choose|selection: Result<Vec<bool>, Error>|
        #[trigger] call_ensures(F::select, (&filter, batch), selection) && answer == answer_view(
            Some(selection),
        );
    sound_filter_emits_the_same(seen, batch@, selection->Ok_0@, may_match, is_log_batch, i);
}

/// Whether input `k` yields an error: it is a producer's error, or a batch
/// on which the filter or the decoding fails.
pub open spec fn input_fails(inputs: Seq<InputView>, answers: Seq<Answer>, k: int) -> bool {
    inputs[k] is Err || batch_outcome(
        answers[k],
        seen_through(inputs, answers, k),
        inputs[k]->Ok_0.0,
        inputs[k]->Ok_0.1,
    ) is Err
}

/// The keys seen by a replay from which a failed input has been taken out
/// are those seen by the replay that holds it.
pub proof fn lemma_seen_without_failed_input(
    inputs: Seq<InputView>,
    answers: Seq<Answer>,
    k: int,
    n: int,
)
    requires
        0 <= k < inputs.len(),
        answers.len() == inputs.len(),
        input_fails(inputs, answers, k),
        0 <= n < inputs.len(),
    ensures
        seen_through(inputs.remove(k), answers.remove(k), n) == seen_through(
            inputs,
            answers,
            if n <= k {
                n
            } else {
                n + 1
            },
        ),
    decreases n,
{
    if n > 0 {
        lemma_seen_without_failed_input(inputs, answers, k, n - 1);
        assert(seen_through(inputs, answers, k + 1) == seen_through(inputs, answers, k));
    }
}

/// Error termination, for two whole runs: where an input yields an error,
/// every other input yields in the replay that holds the failed input what
/// it yields in the replay without it. The failed input adds its one error
/// and changes nothing else.
pub proof fn replay_without_failed_input(
    inputs: Seq<InputView>,
    answers: Seq<Answer>,
    k: int,
    m: int,
)
    requires
        0 <= k < inputs.len(),
        answers.len() == inputs.len(),
        input_fails(inputs, answers, k),
        0 <= m < inputs.len() - 1,
    ensures
        segment(inputs.remove(k), answers.remove(k), m) == segment(
            inputs,
            answers,
            if m < k {
                m
            } else {
                m + 1
            },
        ),
        segment(inputs, answers, k).len() == 1,
        segment(inputs, answers, k)[0] is Err,
{
    lemma_seen_without_failed_input(inputs, answers, k, m);
    assert(seen_through(inputs, answers, k + 1) == seen_through(inputs, answers, k));
}

} // verus!
