//! The lazy sequence of live files: it obtains a batch only when a record
//! is asked for and none is pending.

use vstd::prelude::*;
use crate::actions::{Add, AddView, Key, add_views};
use crate::batch::{Batch, RowView};
use crate::error::Error;
use crate::file_stream::{Answer, DataSkippingFilter, LogReplayScanner, batch_outcome, batch_seen,
    filter_answers, outcome_view};

verus! {

/// The mathematical value of one element of the input: the rows of a batch
/// with its provenance, or the producer's error.
pub type InputView = Result<(Seq<RowView>, bool), Error>;

/// The mathematical value of an input element.
pub open spec fn input_view(input: Result<(Batch, bool), Error>) -> InputView {
    match input {
        Ok((batch, is_log_batch)) => Ok((batch@, is_log_batch)),
        Err(e) => Err(e),
    }
}

/// The mathematical value of an output element.
pub open spec fn item_view(item: Option<Result<Add, Error>>) -> Option<Result<AddView, Error>> {
    match item {
        Some(Ok(add)) => Some(Ok(add@)),
        Some(Err(e)) => Some(Err(e)),
        None => None,
    }
}

/// Whether `answer` is what the configured filter said of an input element:
/// of a batch what [`filter_answers`] says; of a producer's error nothing,
/// for the filter is not asked.
pub open spec fn answer_explained<F: DataSkippingFilter>(
    filter: Option<F>,
    input: Result<(Batch, bool), Error>,
    answer: Answer,
) -> bool {
    match input {
        Ok((batch, _)) => filter_answers(filter, &batch, answer),
        Err(_) => answer is None,
    }
}

/// The result of one pull: the element handed out, and the state after it.
pub struct Pulled {
    /// The element; `None` where the sequence has ended.
    pub item: Option<Result<AddView, Error>>,
    /// How many input elements have been obtained.
    pub consumed: int,
    /// The keys seen.
    pub seen: Set<Key>,
    /// The records of the last batch that are still to be handed out.
    pub pending: Seq<AddView>,
}

/// One pull on the sequence, where `answers[i]` is what the filter says of
/// input `i`.
///
/// A pending record is handed out without touching the input. Else input
/// elements are obtained one by one until one of them yields an element: a
/// producer's error is passed on as it is, a batch that fails yields its
/// error, a batch that emits records yields the first and keeps the rest
/// pending, and a batch that emits nothing is passed over. The sequence ends
/// where the input does.
pub open spec fn pull(
    inputs: Seq<InputView>,
    answers: Seq<Answer>,
    consumed: int,
    seen: Set<Key>,
    pending: Seq<AddView>,
) -> Pulled
    decreases inputs.len() - consumed,
{
    if pending.len() > 0 {
        Pulled { item: Some(Ok(pending[0])), consumed, seen, pending: pending.drop_first() }
    } else if consumed < 0 || consumed >= inputs.len() {
        Pulled { item: None, consumed, seen, pending }
    } else {
        match inputs[consumed] {
            Err(e) => Pulled { item: Some(Err(e)), consumed: consumed + 1, seen, pending },
            Ok((rows, is_log_batch)) => match batch_outcome(
                answers[consumed],
                seen,
                rows,
                is_log_batch,
            ) {
                Err(e) => Pulled { item: Some(Err(e)), consumed: consumed + 1, seen, pending },
                Ok(live) => pull(
                    inputs,
                    answers,
                    consumed + 1,
                    batch_seen(answers[consumed], seen, rows, is_log_batch),
                    live,
                ),
            },
        }
    }
}

/// A replay in progress over a list of inputs, newest first.
pub struct LogReplay<F: DataSkippingFilter> {
    scanner: LogReplayScanner<F>,
    inputs: Vec<Result<(Batch, bool), Error>>,
    consumed: usize,
    pending: Vec<Add>,
    handed: usize,
    answers: Ghost<Seq<Answer>>,
}

impl<F: DataSkippingFilter> LogReplay<F> {
    /// The replay's invariant.
    pub closed spec fn wf(&self) -> bool {
        &&& self.scanner.wf()
        &&& self.consumed <= self.inputs@.len()
        &&& self.handed <= self.pending@.len()
        &&& self.answers@.len() == self.consumed
    }

    /// The input elements as they were handed in, newest first.
    pub closed spec fn raw_inputs(&self) -> Seq<Result<(Batch, bool), Error>> {
        self.inputs@
    }

    /// The mathematical values of the input elements.
    pub closed spec fn inputs(&self) -> Seq<InputView> {
        self.inputs@.map_values(|x: Result<(Batch, bool), Error>| input_view(x))
    }

    /// How many input elements have been obtained so far.
    pub closed spec fn consumed(&self) -> int {
        self.consumed as int
    }

    /// The records of the last batch that are still to be handed out.
    pub closed spec fn pending(&self) -> Seq<AddView> {
        add_views(self.pending@).skip(self.handed as int)
    }

    /// The keys seen so far.
    pub closed spec fn seen(&self) -> Set<Key> {
        self.scanner.seen()
    }

    /// The filter that is applied to each batch, if any.
    pub closed spec fn filter(&self) -> Option<F> {
        self.scanner.filter()
    }

    /// What the filter said of each input element obtained so far; `None`
    /// for one that it was not asked about.
    pub closed spec fn answers(&self) -> Seq<Answer> {
        self.answers@
    }

    /// A replay of `inputs` that has obtained none of them yet.
    pub fn new(inputs: Vec<Result<(Batch, bool), Error>>, filter: Option<F>) -> (r: Self)
        ensures
            r.wf(),
            r.raw_inputs() == inputs@,
            r.inputs() == inputs@.map_values(|x: Result<(Batch, bool), Error>| input_view(x)),
            r.consumed() == 0,
            r.pending() == Seq::<AddView>::empty(),
            r.seen() == Set::<Key>::empty(),
            r.filter() == filter,
            r.answers() == Seq::<Answer>::empty(),
    {
        let r = LogReplay {
            scanner: LogReplayScanner::new(filter),
            inputs,
            consumed: 0,
            pending: Vec::new(),
            handed: 0,
            answers: Ghost(Seq::empty()),
        };
        assert(r.pending() =~= Seq::<AddView>::empty());
        r
    }

    /// How many input elements have been obtained so far.
    pub fn obtained(&self) -> (r: usize)
        ensures
            r == self.consumed(),
    {
        self.consumed
    }

    /// The next element of the sequence, or `None` at its end.
    ///
    /// The element and the state after it are those of [`pull`], under the
    /// answers that the filter gave. An error does not end the sequence: the
    /// next call goes on with the next input element.
    pub fn next(&mut self) -> (r: Option<Result<Add, Error>>)
        requires
            old(self).wf(),
        ensures
            final(self).wf(),
            final(self).raw_inputs() == old(self).raw_inputs(),
            final(self).inputs() == old(self).inputs(),
            final(self).filter() == old(self).filter(),
            old(self).answers().is_prefix_of(final(self).answers()),
            final(self).answers().len() == final(self).consumed(),
            final(self).consumed() <= final(self).inputs().len(),
            forall|i: int|
                old(self).consumed() <= i < final(self).consumed() ==> answer_explained(
                    old(self).filter(),
                    old(self).raw_inputs()[i],
                    #[trigger] final(self).answers()[i],
                ),
            ({
                let pulled = pull(
                    old(self).inputs(),
                    final(self).answers(),
                    old(self).consumed(),
                    old(self).seen(),
                    old(self).pending(),
                );
                &&& item_view(r) == pulled.item
                &&& final(self).consumed() == pulled.consumed
                &&& final(self).seen() == pulled.seen
                &&& final(self).pending() == pulled.pending
            }),
    {
        let ghost inputs0 = self.inputs();
        let ghost start = self.consumed();
        let ghost seen0 = self.seen();
        let ghost pending0 = self.pending();
        loop
            invariant
                self.wf(),
                self.inputs() == inputs0,
                inputs0 == old(self).inputs(),
                start == old(self).consumed(),
                seen0 == old(self).seen(),
                pending0 == old(self).pending(),
                self.filter() == old(self).filter(),
                old(self).answers().is_prefix_of(self.answers()),
                start <= self.consumed(),
                self.raw_inputs() == old(self).raw_inputs(),
                forall|i: int|
                    start <= i < self.consumed() ==> answer_explained(
                        old(self).filter(),
                        old(self).raw_inputs()[i],
                        #[trigger] self.answers()[i],
                    ),
                forall|later: Seq<Answer>|
                    self.answers().is_prefix_of(later) ==> #[trigger] pull(
                        inputs0,
                        later,
                        start,
                        seen0,
                        pending0,
                    ) == pull(inputs0, later, self.consumed(), self.seen(), self.pending()),
            decreases self.inputs@.len() - self.consumed,
        {
            if self.handed < self.pending.len() {
                let add = self.pending[self.handed].duplicate();
                proof {
                    assert(self.pending()[0] == add@);
                    assert(add_views(self.pending@).skip(self.handed as int + 1)
                        =~= self.pending().drop_first());
                    assert(self.answers().is_prefix_of(self.answers()));
                }
                self.handed += 1;
                return Some(Ok(add));
            }
            assert(self.pending() =~= Seq::<AddView>::empty());
            assert(self.answers().is_prefix_of(self.answers()));
            if self.consumed >= self.inputs.len() {
                return None;
            }
            let ghost at = self.consumed as int;
            let ghost seen = self.scanner.seen();
            let ghost answers = self.answers@;
            assert(self.inputs()[at] == input_view(self.inputs@[at]));
            match &self.inputs[self.consumed] {
                Err(e) => {
                    let e = *e;
                    proof {
                        self.answers@ = answers.push(None);
                        assert(answers.is_prefix_of(self.answers@));
                    }
                    self.consumed += 1;
                    proof {
                        assert(pull(inputs0, self.answers(), start, seen0, pending0) == pull(
                            inputs0,
                            self.answers(),
                            at,
                            seen,
                            Seq::<AddView>::empty(),
                        ));
                    }
                    return Some(Err(e));
                },
                Ok((batch, is_log_batch)) => {
                    let outcome = self.scanner.process_batch(batch, *is_log_batch);
                    let ghost answer: Answer = choose|answer: Answer|
                        {
                            &&& filter_answers(old(self).filter(), batch, answer)
                            &&& outcome_view(outcome) == #[trigger] batch_outcome(
                                answer,
                                seen,
                                batch@,
                                *is_log_batch,
                            )
                            &&& self.scanner.seen() == batch_seen(
                                answer,
                                seen,
                                batch@,
                                *is_log_batch,
                            )
                        };
                    proof {
                        self.answers@ = answers.push(answer);
                        assert(answers.is_prefix_of(self.answers@));
                    }
                    self.consumed += 1;
                    match outcome {
                        Err(e) => {
                            proof {
                                assert(pull(inputs0, self.answers(), start, seen0, pending0)
                                    == pull(
                                    inputs0,
                                    self.answers(),
                                    at,
                                    seen,
                                    Seq::<AddView>::empty(),
                                ));
                            }
                            return Some(Err(e));
                        },
                        Ok(live) => {
                            self.pending = live;
                            self.handed = 0;
                            proof {
                                assert(self.pending() =~= add_views(live@));
                                assert forall|later: Seq<Answer>|
                                    self.answers().is_prefix_of(later) implies #[trigger] pull(
                                    inputs0,
                                    later,
                                    start,
                                    seen0,
                                    pending0,
                                ) == pull(
                                    inputs0,
                                    later,
                                    self.consumed(),
                                    self.seen(),
                                    self.pending(),
                                ) by {
                                    assert(answers.is_prefix_of(later));
                                    assert(later[at] == self.answers()[at]);
                                    assert(pull(inputs0, later, start, seen0, pending0) == pull(
                                        inputs0,
                                        later,
                                        at,
                                        seen,
                                        Seq::<AddView>::empty(),
                                    ));
                                }
                            }
                        },
                    }
                },
            }
        }
    }
}

/// Laziness: a record that is pending is handed out without obtaining any
/// input element.
pub proof fn pending_record_costs_no_input(
    inputs: Seq<InputView>,
    answers: Seq<Answer>,
    consumed: int,
    seen: Set<Key>,
    pending: Seq<AddView>,
)
    requires
        pending.len() > 0,
    ensures
        pull(inputs, answers, consumed, seen, pending).consumed == consumed,
        pull(inputs, answers, consumed, seen, pending).item == Some(
            Ok::<AddView, Error>(pending[0]),
        ),
{
}

/// Laziness: where the first batch emits a record, the first pull on a fresh
/// sequence obtains that batch and no other, and hands out its first record.
pub proof fn first_pull_obtains_one_batch(inputs: Seq<InputView>, answers: Seq<Answer>)
    requires
        inputs.len() > 0,
        answers.len() > 0,
        inputs[0] is Ok,
        batch_outcome(answers[0], Set::<Key>::empty(), inputs[0]->Ok_0.0, inputs[0]->Ok_0.1) is Ok,
        batch_outcome(
            answers[0],
            Set::<Key>::empty(),
            inputs[0]->Ok_0.0,
            inputs[0]->Ok_0.1,
        )->Ok_0.len() > 0,
    ensures
        pull(inputs, answers, 0, Set::<Key>::empty(), Seq::<AddView>::empty()).consumed == 1,
        pull(inputs, answers, 0, Set::<Key>::empty(), Seq::<AddView>::empty()).item == Some(
            Ok::<AddView, Error>(
                batch_outcome(
                    answers[0],
                    Set::<Key>::empty(),
                    inputs[0]->Ok_0.0,
                    inputs[0]->Ok_0.1,
                )->Ok_0[0],
            ),
        ),
{
    let live = batch_outcome(
        answers[0],
        Set::<Key>::empty(),
        inputs[0]->Ok_0.0,
        inputs[0]->Ok_0.1,
    )->Ok_0;
    let seen = batch_seen(answers[0], Set::<Key>::empty(), inputs[0]->Ok_0.0, inputs[0]->Ok_0.1);
    assert(pull(inputs, answers, 1, seen, live).consumed == 1);
    assert(pull(inputs, answers, 0, Set::<Key>::empty(), Seq::<AddView>::empty()) == pull(
        inputs,
        answers,
        1,
        seen,
        live,
    ));
}

/// An element that is an error costs exactly one input element and leaves
/// the keys seen as they were: the sequence goes on from the next input.
pub proof fn error_leaves_state_intact(
    inputs: Seq<InputView>,
    answers: Seq<Answer>,
    consumed: int,
    seen: Set<Key>,
)
    requires
        0 <= consumed < inputs.len(),
        inputs[consumed] is Err || batch_outcome(
            answers[consumed],
            seen,
            inputs[consumed]->Ok_0.0,
            inputs[consumed]->Ok_0.1,
        ) is Err,
    ensures
        pull(inputs, answers, consumed, seen, Seq::<AddView>::empty()).item is Some,
        pull(inputs, answers, consumed, seen, Seq::<AddView>::empty()).item->Some_0 is Err,
        pull(inputs, answers, consumed, seen, Seq::<AddView>::empty()).consumed == consumed + 1,
        pull(inputs, answers, consumed, seen, Seq::<AddView>::empty()).seen == seen,
        pull(inputs, answers, consumed, seen, Seq::<AddView>::empty()).pending.len() == 0,
{
}

/// A replay of `actions`, newest first, that yields the live additions one
/// by one.
pub fn log_replay_iter<F: DataSkippingFilter>(
    actions: Vec<Result<(Batch, bool), Error>>,
    filter: Option<F>,
) -> (r: LogReplay<F>)
    ensures
        r.wf(),
        r.inputs() == actions@.map_values(|x: Result<(Batch, bool), Error>| input_view(x)),
        r.consumed() == 0,
        r.pending() == Seq::<AddView>::empty(),
        r.seen() == Set::<Key>::empty(),
        r.filter() == filter,
        r.answers() == Seq::<Answer>::empty(),
{
    LogReplay::new(actions, filter)
}

/// The mathematical value of one element of the output.
pub open spec fn result_view(item: Result<Add, Error>) -> Result<AddView, Error> {
    match item {
        Ok(add) => Ok(add@),
        Err(e) => Err(e),
    }
}

/// The mathematical values of a list of output elements, in order.
pub open spec fn items_view(items: Seq<Result<Add, Error>>) -> Seq<Result<AddView, Error>> {
    items.map_values(|item: Result<Add, Error>| result_view(item))
}

/// The additions as output elements, in order.
pub open spec fn ok_items(adds: Seq<AddView>) -> Seq<Result<AddView, Error>> {
    adds.map_values(|a: AddView| Ok::<AddView, Error>(a))
}

/// The output elements that one input element yields when `seen` holds the
/// keys met so far: a producer's error is passed on as it is, a batch that
/// fails yields its error alone, and any other batch yields the additions
/// that it emits, in row order.
pub open spec fn step_items(answer: Answer, seen: Set<Key>, input: InputView) -> Seq<
    Result<AddView, Error>,
> {
    match input {
        Err(e) => seq![Err(e)],
        Ok((rows, is_log_batch)) => match batch_outcome(answer, seen, rows, is_log_batch) {
            Ok(live) => ok_items(live),
            Err(e) => seq![Err(e)],
        },
    }
}

/// The keys seen after one input element: an error changes nothing.
pub open spec fn step_seen(answer: Answer, seen: Set<Key>, input: InputView) -> Set<Key> {
    match input {
        Err(_) => seen,
        Ok((rows, is_log_batch)) => batch_seen(answer, seen, rows, is_log_batch),
    }
}

/// Takes one input element through the scanner and returns the output
/// elements that it yields, as [`step_items`] gives them under what the
/// filter said of the element.
pub fn replay_step<F: DataSkippingFilter>(
    scanner: &mut LogReplayScanner<F>,
    input: &Result<(Batch, bool), Error>,
) -> (r: Vec<Result<Add, Error>>)
    requires
        old(scanner).wf(),
    ensures
        final(scanner).wf(),
        final(scanner).filter() == old(scanner).filter(),
        exists|answer: Answer|
            {
                &&& answer_explained(old(scanner).filter(), *input, answer)
                &&& items_view(r@) == #[trigger] step_items(
                    answer,
                    old(scanner).seen(),
                    input_view(*input),
                )
                &&& final(scanner).seen() == step_seen(
                    answer,
                    old(scanner).seen(),
                    input_view(*input),
                )
            },
{
    let mut out: Vec<Result<Add, Error>> = Vec::new();
    let ghost seen = scanner.seen();
    match input {
        Err(e) => {
            out.push(Err(*e));
            proof {
                assert(items_view(out@) =~= step_items(None, seen, input_view(*input)));
            }
        },
        Ok((batch, is_log_batch)) => {
            let outcome = scanner.process_batch(batch, *is_log_batch);
            let ghost answer: Answer = choose|answer: Answer|
                {
                    &&& filter_answers(old(scanner).filter(), batch, answer)
                    &&& outcome_view(outcome) == #[trigger] batch_outcome(
                        answer,
                        seen,
                        batch@,
                        *is_log_batch,
                    )
                    &&& scanner.seen() == batch_seen(answer, seen, batch@, *is_log_batch)
                };
            match outcome {
                Err(e) => {
                    out.push(Err(e));
                    proof {
                        assert(items_view(out@) =~= step_items(answer, seen, input_view(*input)));
                    }
                },
                Ok(adds) => {
                    let mut i: usize = 0;
                    while i < adds.len()
                        invariant
                            i <= adds.len(),
                            out@.len() == i,
                            forall|k: int|
                                0 <= k < i ==> result_view(#[trigger] out@[k]) == Ok::<
                                    AddView,
                                    Error,
                                >(adds@[k]@),
                        decreases adds.len() - i,
                    {
                        out.push(Ok(adds[i].duplicate()));
                        i += 1;
                    }
                    proof {
                        assert(items_view(out@) =~= ok_items(add_views(adds@)));
                        assert(items_view(out@) == step_items(answer, seen, input_view(*input)));
                    }
                },
            }
        },
    }
    out
}

/// The keys seen once a fresh scanner has taken the first `n` input
/// elements, where `answers[i]` is what the filter says of input `i`.
pub open spec fn seen_through(inputs: Seq<InputView>, answers: Seq<Answer>, n: int) -> Set<Key>
    decreases n,
{
    if n <= 0 || n > inputs.len() {
        Set::empty()
    } else {
        step_seen(answers[n - 1], seen_through(inputs, answers, n - 1), inputs[n - 1])
    }
}

/// The output elements that input `k` yields to a scanner that has taken the
/// inputs before it.
pub open spec fn segment(inputs: Seq<InputView>, answers: Seq<Answer>, k: int) -> Seq<
    Result<AddView, Error>,
> {
    step_items(answers[k], seen_through(inputs, answers, k), inputs[k])
}

/// The whole output of a replay over the first `n` input elements: the
/// segments of the inputs, one after the other.
pub open spec fn replayed(inputs: Seq<InputView>, answers: Seq<Answer>, n: int) -> Seq<
    Result<AddView, Error>,
>
    decreases n,
{
    if n <= 0 || n > inputs.len() {
        Seq::empty()
    } else {
        replayed(inputs, answers, n - 1) + segment(inputs, answers, n - 1)
    }
}

/// The replay of the first `n` inputs reads the first `n` answers only.
pub proof fn lemma_replayed_reads_prefix(
    inputs: Seq<InputView>,
    a: Seq<Answer>,
    b: Seq<Answer>,
    n: int,
)
    requires
        0 <= n <= a.len(),
        n <= b.len(),
        forall|i: int| 0 <= i < n ==> a[i] == b[i],
    ensures
        seen_through(inputs, a, n) == seen_through(inputs, b, n),
        replayed(inputs, a, n) == replayed(inputs, b, n),
    decreases n,
{
    if 0 < n <= inputs.len() {
        lemma_replayed_reads_prefix(inputs, a, b, n - 1);
    }
}

/// The mathematical values of a list of input elements, in order.
pub open spec fn input_views(inputs: Seq<Result<(Batch, bool), Error>>) -> Seq<InputView> {
    inputs.map_values(|x: Result<(Batch, bool), Error>| input_view(x))
}

/// Replays all of `actions`, newest first, and returns every output element
/// in order: the segments of the inputs, one after the other.
pub fn replay_all<F: DataSkippingFilter>(
    actions: &Vec<Result<(Batch, bool), Error>>,
    filter: Option<F>,
) -> (r: Vec<Result<Add, Error>>)
    ensures
        exists|answers: Seq<Answer>|
            {
                &&& answers.len() == actions@.len()
                &&& forall|i: int|
                    0 <= i < actions@.len() ==> answer_explained(
                        filter,
                        actions@[i],
                        #[trigger] answers[i],
                    )
                &&& items_view(r@) == #[trigger] replayed(
                    input_views(actions@),
                    answers,
                    actions@.len() as int,
                )
            },
{
    let mut scanner = LogReplayScanner::new(filter);
    let mut out: Vec<Result<Add, Error>> = Vec::new();
    let ghost inputs = input_views(actions@);
    let ghost mut answers: Seq<Answer> = Seq::empty();
    let mut i: usize = 0;
    assert(items_view(out@) =~= replayed(inputs, answers, 0));
    while i < actions.len()
        invariant
            i <= actions.len(),
            inputs == input_views(actions@),
            scanner.wf(),
            scanner.filter() == filter,
            answers.len() == i,
            forall|k: int|
                0 <= k < i ==> answer_explained(filter, actions@[k], #[trigger] answers[k]),
            scanner.seen() == seen_through(inputs, answers, i as int),
            items_view(out@) == replayed(inputs, answers, i as int),
        decreases actions.len() - i,
    {
        let ghost seen = scanner.seen();
        let ghost before = out@;
        let mut items = replay_step(&mut scanner, &actions[i]);
        proof {
            let answer: Answer = choose|answer: Answer|
                {
                    &&& answer_explained(filter, actions@[i as int], answer)
                    &&& items_view(items@) == #[trigger] step_items(
                        answer,
                        seen,
                        input_view(actions@[i as int]),
                    )
                    &&& scanner.seen() == step_seen(answer, seen, input_view(actions@[i as int]))
                };
            let grown = answers.push(answer);
            lemma_replayed_reads_prefix(inputs, answers, grown, i as int);
            answers = grown;
        }
        let ghost fresh = items@;
        out.append(&mut items);
        i += 1;
        proof {
            assert(items_view(out@) =~= items_view(before) + items_view(fresh));
        }
    }
    out
}

/// The lazy sequence hands out the segments of the replay, element by
/// element: a pull with nothing pending, after the first `c` inputs, passes
/// over the inputs whose segment is empty, hands out the first element of the
/// next segment and keeps the rest of that segment pending; it ends the
/// sequence only where every segment left is empty.
pub proof fn pull_yields_next_segment(inputs: Seq<InputView>, answers: Seq<Answer>, c: int)
    requires
        0 <= c <= inputs.len(),
    ensures
        ({
            let pulled = pull(
                inputs,
                answers,
                c,
                seen_through(inputs, answers, c),
                Seq::<AddView>::empty(),
            );
            &&& c <= pulled.consumed <= inputs.len()
            &&& pulled.seen == seen_through(inputs, answers, pulled.consumed)
            &&& match pulled.item {
                None => {
                    &&& pulled.consumed == inputs.len()
                    &&& pulled.pending.len() == 0
                    &&& forall|k: int|
                        c <= k < inputs.len() ==> (#[trigger] segment(inputs, answers, k)).len()
                            == 0
                },
                Some(item) => {
                    &&& c < pulled.consumed
                    &&& segment(inputs, answers, pulled.consumed - 1).len() > 0
                    &&& segment(inputs, answers, pulled.consumed - 1)[0] == item
                    &&& ok_items(pulled.pending) == segment(
                        inputs,
                        answers,
                        pulled.consumed - 1,
                    ).skip(1)
                    &&& forall|k: int|
                        c <= k < pulled.consumed - 1 ==> (#[trigger] segment(
                            inputs,
                            answers,
                            k,
                        )).len() == 0
                },
            }
        }),
    decreases inputs.len() - c,
{
    let seen = seen_through(inputs, answers, c);
    let none = Seq::<AddView>::empty();
    let pulled = pull(inputs, answers, c, seen, none);
    if c < inputs.len() {
        let next_seen = seen_through(inputs, answers, c + 1);
        assert(next_seen == step_seen(answers[c], seen, inputs[c]));
        match inputs[c] {
            Err(e) => {
                assert(segment(inputs, answers, c) =~= seq![Err::<AddView, Error>(e)]);
                assert(ok_items(none) =~= segment(inputs, answers, c).skip(1));
                assert(pulled.consumed == c + 1);
            },
            Ok((rows, is_log_batch)) => {
                match batch_outcome(answers[c], seen, rows, is_log_batch) {
                    Err(e) => {
                        assert(segment(inputs, answers, c) =~= seq![Err::<AddView, Error>(e)]);
                        assert(ok_items(none) =~= segment(inputs, answers, c).skip(1));
                        assert(pulled.consumed == c + 1);
                    },
                    Ok(live) => {
                        assert(segment(inputs, answers, c) == ok_items(live));
                        assert(pulled == pull(inputs, answers, c + 1, next_seen, live));
                        if live.len() > 0 {
                            assert(ok_items(live.drop_first()) =~= ok_items(live).skip(1));
                            assert(pulled.consumed == c + 1);
                            assert(ok_items(live)[0] == Ok::<AddView, Error>(live[0]));
                        } else {
                            assert(live =~= none);
                            pull_yields_next_segment(inputs, answers, c + 1);
                            assert(segment(inputs, answers, c).len() == 0);
                            if pulled.item is Some {
                                assert forall|k: int| c <= k < pulled.consumed - 1 implies (
                                #[trigger] segment(inputs, answers, k)).len() == 0 by {
                                    if k > c {
                                    }
                                }
                            } else {
                                assert forall|k: int| c <= k < inputs.len() implies (
                                #[trigger] segment(inputs, answers, k)).len() == 0 by {
                                    if k > c {
                                    }
                                }
                            }
                        }
                    },
                }
            },
        }
    }
}

} // verus!
