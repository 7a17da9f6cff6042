//! The greedy reducer: a table of consolidated candidates, extended by one
//! entry for each input.

use crate::alignment::{Alignment, AlignmentMode, AlignmentView};
use crate::msa::{
    accepted, run, AlignedSequence, AlignedSequenceView, AlignedToken, MultipleSequenceAlignment,
    SequenceAlignment, SequenceMatch,
};
use crate::pairwise::{align, alignable, symbols_of_x, symbols_of_y, trace_of, Scoring};
use crate::token::{Merger, Token, TokenMergeState};
use std::marker::PhantomData;
use vstd::prelude::*;

verus! {

impl<T: View> View for SequenceMatch<T> {
    type V = SequenceMatch<T::V>;

    open spec fn view(&self) -> SequenceMatch<T::V> {
        match *self {
            SequenceMatch::Matched => SequenceMatch::Matched,
            SequenceMatch::Unmatched => SequenceMatch::Unmatched,
            SequenceMatch::Custom(item) => SequenceMatch::Custom(item@),
        }
    }
}

/// A candidate of the greedy reducer: something that carries a consolidated
/// sequence and can be built anew around a merged one.
pub trait GreedyMultipleSequenceAlignerItem<T>: View + Sized {
    /// The consolidated sequence that `item` carries.
    spec fn sequence(item: Self::V) -> AlignedSequenceView<T>;

    /// The candidate that `build` makes of `x`, `y` and their merge.
    spec fn built(x: Self::V, y: Self::V, seq: AlignedSequenceView<T>) -> Self::V;

    /// The consolidated sequence that the candidate carries.
    fn as_sequence(&self) -> (seq: &AlignedSequence<T>)
        ensures
            seq@ == Self::sequence(self@),
    ;

    /// The candidate that stands for `x` merged with `y` into `seq`.
    fn build(x: &Self, y: &Self, seq: AlignedSequence<T>) -> (item: Self)
        ensures
            item@ == Self::built(x@, y@, seq@),
    ;
}

impl<T> GreedyMultipleSequenceAlignerItem<T> for AlignedSequence<T> {
    open spec fn sequence(item: Self::V) -> AlignedSequenceView<T> {
        item
    }

    open spec fn built(x: Self::V, y: Self::V, seq: AlignedSequenceView<T>) -> Self::V {
        seq
    }

    fn as_sequence(&self) -> (seq: &AlignedSequence<T>) {
        self
    }

    fn build(x: &Self, y: &Self, seq: AlignedSequence<T>) -> (item: Self) {
        seq
    }
}

/// Decides whether a candidate of the table and a new input are aligned,
/// left apart, or replaced by a candidate of the decider's own making.
///
/// The decision depends on the content of the two candidates alone.
pub trait MatchFn<I: View> {
    /// What is decided of `a`, a candidate of the table, and `b`, the input.
    spec fn decides(&self, a: I::V, b: I::V) -> SequenceMatch<I::V>;

    fn call(&self, a: &I, b: &I) -> (decision: SequenceMatch<I>)
        ensures
            decision@ == self.decides(a@, b@),
    ;
}

/// Ranks a candidate, or rejects it.
///
/// The score depends on the content of the candidate alone.
pub trait ScoreFn<I: View> {
    /// The score of `a`, or nothing where it is rejected.
    spec fn scores(&self, a: I::V) -> Option<u128>;

    fn call(&self, a: &I) -> (score: Option<u128>)
        ensures
            score == self.scores(a@),
    ;
}

/// An entry of the candidate table: a candidate and its score.
pub struct State<I> {
    pub seq: I,
    pub score: Option<u128>,
}

impl<I: View> View for State<I> {
    type V = State<I::V>;

    open spec fn view(&self) -> State<I::V> {
        State { seq: self.seq@, score: self.score }
    }
}

/// The order of scores: a candidate without a score ranks below all others.
pub open spec fn rank(score: Option<u128>) -> int {
    match score {
        Some(s) => s as int,
        None => -1,
    }
}

/// Whether `x` and `y` can be merged along `trace` by a visitor in state
/// `visitor`: the trace fits them and no count or counter overflows.
pub open spec fn mergeable<T: Token>(
    trace: AlignmentView,
    visitor: TokenMergeState<T>,
    x: Seq<AlignedToken<T>>,
    y: Seq<AlignedToken<T>>,
) -> bool {
    &&& trace.fits(x.len() as int, y.len() as int)
    &&& accepted::<AlignedToken<T>, Merger<T>>(visitor, trace.events(x, y))
}

/// What a visitor in state `visitor` merges `x` and `y` into along `trace`.
pub open spec fn merged<T: Token>(
    trace: AlignmentView,
    visitor: TokenMergeState<T>,
    x: Seq<AlignedToken<T>>,
    y: Seq<AlignedToken<T>>,
) -> AlignedSequenceView<T> {
    run::<AlignedToken<T>, Merger<T>>(visitor, trace.events(x, y)).merged
}

/// The candidate that comes of `x` and `y` along `trace`, if they can be
/// merged.
pub open spec fn merged_candidate<T: Token, I: GreedyMultipleSequenceAlignerItem<T>>(
    trace: AlignmentView,
    visitor: TokenMergeState<T>,
    x: I::V,
    y: I::V,
) -> Option<I::V> {
    let xs = I::sequence(x).value;
    let ys = I::sequence(y).value;
    if mergeable(trace, visitor, xs, ys) {
        Some(I::built(x, y, merged(trace, visitor, xs, ys)))
    } else {
        None
    }
}

/// Merges `x` and `y` along `alignment` with a copy of `visitor`, and builds
/// the candidate that stands for the two; nothing where they cannot be
/// merged.
pub fn merge_along<T: Token, I: GreedyMultipleSequenceAlignerItem<T>>(
    alignment: &Alignment,
    visitor: &Merger<T>,
    x: &I,
    y: &I,
) -> (candidate: Option<I>)
    ensures
        candidate is Some <==> merged_candidate::<T, I>(alignment@, visitor@, x@, y@) is Some,
        candidate matches Some(item) ==> Some(item@) == merged_candidate::<T, I>(
            alignment@,
            visitor@,
            x@,
            y@,
        ),
{
    let xs = x.as_sequence().value.as_slice();
    let ys = y.as_sequence().value.as_slice();
    if visitor.can_merge(alignment, xs, ys) {
        let seq = alignment.reduce(visitor.clone(), xs, ys);
        Some(I::build(x, y, seq))
    } else {
        None
    }
}

/// The candidate that row `x` of the table yields for the input `y`: their
/// merge along a local alignment where `match_fn` has them aligned and they
/// can be, the candidate of `match_fn` where it makes one, else nothing.
pub open spec fn candidate_of<T: Token, I: GreedyMultipleSequenceAlignerItem<T>, Fm: MatchFn<I>>(
    match_fn: Fm,
    scoring: Scoring,
    visitor: TokenMergeState<T>,
    x: I::V,
    y: I::V,
) -> Option<I::V> {
    match match_fn.decides(x, y) {
        SequenceMatch::Matched => {
            let xs = I::sequence(x).value;
            let ys = I::sequence(y).value;
            if alignable(AlignmentMode::Local, xs, ys, scoring) {
                merged_candidate::<T, I>(
                    trace_of(
                        AlignmentMode::Local,
                        symbols_of_x(xs, ys),
                        symbols_of_y(ys),
                        scoring,
                    ),
                    visitor,
                    x,
                    y,
                )
            } else {
                None
            }
        },
        SequenceMatch::Unmatched => None,
        SequenceMatch::Custom(item) => Some(item),
    }
}

/// The candidate with its score, or nothing where there is none or it is
/// rejected.
pub open spec fn scored<I: View, Fs: ScoreFn<I>>(score_fn: Fs, candidate: Option<I::V>) -> Option<
    State<I::V>,
> {
    match candidate {
        Some(seq) => match score_fn.scores(seq) {
            Some(score) => Some(State { seq, score: Some(score) }),
            None => None,
        },
        None => None,
    }
}

/// Of two candidates the one that scores higher; the later one where they
/// score alike.
pub open spec fn later_best<V>(earlier: Option<State<V>>, later: Option<State<V>>) -> Option<
    State<V>,
> {
    match (earlier, later) {
        (_, None) => earlier,
        (None, _) => later,
        (Some(a), Some(b)) => if rank(b.score) >= rank(a.score) {
            later
        } else {
            earlier
        },
    }
}

/// The best of `candidates`: the one that scores highest, and of those that
/// score alike the last.
pub open spec fn last_best<V>(candidates: Seq<Option<State<V>>>) -> Option<State<V>>
    decreases candidates.len(),
{
    if candidates.len() == 0 {
        None
    } else {
        later_best(last_best(candidates.drop_last()), candidates.last())
    }
}

/// Whether `best` is one of `candidates` such that none scores higher and
/// none behind it scores as high; or nothing, where there is no candidate.
pub open spec fn is_last_best<V>(candidates: Seq<Option<State<V>>>, best: Option<State<V>>) -> bool {
    match best {
        None => forall|j: int| 0 <= j < candidates.len() ==> (#[trigger] candidates[j]) is None,
        Some(found) => exists|k: int|
            {
                &&& 0 <= k < candidates.len()
                &&& #[trigger] candidates[k] == Some(found)
                &&& forall|j: int|
                    0 <= j < candidates.len() ==> ((#[trigger] candidates[j]) matches Some(other)
                        ==> rank(other.score) <= rank(found.score))
                &&& forall|j: int|
                    k < j < candidates.len() ==> ((#[trigger] candidates[j]) matches Some(other)
                        ==> rank(other.score) < rank(found.score))
            },
    }
}

/// `last_best` picks the last of the candidates that score highest.
pub proof fn lemma_last_best<V>(candidates: Seq<Option<State<V>>>)
    ensures
        is_last_best(candidates, last_best(candidates)),
    decreases candidates.len(),
{
    if candidates.len() > 0 {
        let shorter = candidates.drop_last();
        let last = candidates.len() - 1;
        lemma_last_best(shorter);
        assert(forall|j: int| 0 <= j < shorter.len() ==> shorter[j] == candidates[j]);
        match (last_best(shorter), candidates.last()) {
            (Some(a), Some(b)) => {
                if rank(b.score) >= rank(a.score) {
                    assert(candidates[last] == Some(b));
                } else {
                    let k = choose|k: int|
                        {
                            &&& 0 <= k < shorter.len()
                            &&& #[trigger] shorter[k] == Some(a)
                            &&& forall|j: int|
                                0 <= j < shorter.len() ==> ((#[trigger] shorter[j]) matches Some(
                                    other,
                                ) ==> rank(other.score) <= rank(a.score))
                            &&& forall|j: int|
                                k < j < shorter.len() ==> ((#[trigger] shorter[j]) matches Some(
                                    other,
                                ) ==> rank(other.score) < rank(a.score))
                        };
                    assert(candidates[k] == Some(a));
                }
            },
            (Some(a), None) => {
                let k = choose|k: int|
                    {
                        &&& 0 <= k < shorter.len()
                        &&& #[trigger] shorter[k] == Some(a)
                        &&& forall|j: int|
                            0 <= j < shorter.len() ==> ((#[trigger] shorter[j]) matches Some(other)
                                ==> rank(other.score) <= rank(a.score))
                        &&& forall|j: int|
                            k < j < shorter.len() ==> ((#[trigger] shorter[j]) matches Some(other)
                                ==> rank(other.score) < rank(a.score))
                    };
                assert(candidates[k] == Some(a));
            },
            (None, Some(b)) => {
                assert(candidates[last] == Some(b));
            },
            (None, None) => {},
        }
    }
}

/// The entry for the input `y`, given the best of the candidates that the
/// table yields for it: that candidate where it scores higher than `y`
/// alone, else `y` alone. An input without a score ranks below every
/// candidate.
pub open spec fn entered<I: View, Fs: ScoreFn<I>>(score_fn: Fs, y: I::V, best: Option<State<I::V>>)
    -> State<I::V> {
    let genesis = State { seq: y, score: score_fn.scores(y) };
    match best {
        Some(candidate) => if rank(candidate.score) > rank(genesis.score) {
            candidate
        } else {
            genesis
        },
        None => genesis,
    }
}

/// The candidates that the rows of `table` yield for the input `y`, each with
/// its score, in the order of the rows.
pub open spec fn row_candidates<
    T: Token,
    I: GreedyMultipleSequenceAlignerItem<T>,
    Fm: MatchFn<I>,
    Fs: ScoreFn<I>,
>(
    match_fn: Fm,
    score_fn: Fs,
    scoring: Scoring,
    visitor: TokenMergeState<T>,
    table: Seq<State<I::V>>,
    y: I::V,
) -> Seq<Option<State<I::V>>> {
    Seq::new(
        table.len(),
        |k: int|
            scored::<I, Fs>(
                score_fn,
                candidate_of::<T, I, Fm>(match_fn, scoring, visitor, table[k].seq, y),
            ),
    )
}

/// The best of the candidates that the rows of `table` yield for the input
/// `y`; among those that score alike, the one of the last row.
pub open spec fn best_candidate<
    T: Token,
    I: GreedyMultipleSequenceAlignerItem<T>,
    Fm: MatchFn<I>,
    Fs: ScoreFn<I>,
>(
    match_fn: Fm,
    score_fn: Fs,
    scoring: Scoring,
    visitor: TokenMergeState<T>,
    table: Seq<State<I::V>>,
    y: I::V,
) -> Option<State<I::V>> {
    last_best(row_candidates::<T, I, Fm, Fs>(match_fn, score_fn, scoring, visitor, table, y))
}

/// The entry that the input `y` adds to `table`: the best candidate where it
/// scores higher than `y` alone, else `y` alone.
pub open spec fn next_state<
    T: Token,
    I: GreedyMultipleSequenceAlignerItem<T>,
    Fm: MatchFn<I>,
    Fs: ScoreFn<I>,
>(
    match_fn: Fm,
    score_fn: Fs,
    scoring: Scoring,
    visitor: TokenMergeState<T>,
    table: Seq<State<I::V>>,
    y: I::V,
) -> State<I::V> {
    entered::<I, Fs>(
        score_fn,
        y,
        best_candidate::<T, I, Fm, Fs>(match_fn, score_fn, scoring, visitor, table, y),
    )
}

/// The table after `inputs`: one entry for each of them.
pub open spec fn table_of<
    T: Token,
    I: GreedyMultipleSequenceAlignerItem<T>,
    Fm: MatchFn<I>,
    Fs: ScoreFn<I>,
>(
    match_fn: Fm,
    score_fn: Fs,
    scoring: Scoring,
    visitor: TokenMergeState<T>,
    inputs: Seq<I::V>,
) -> Seq<State<I::V>>
    decreases inputs.len(),
{
    if inputs.len() == 0 {
        Seq::empty()
    } else {
        let table = table_of::<T, I, Fm, Fs>(
            match_fn,
            score_fn,
            scoring,
            visitor,
            inputs.drop_last(),
        );
        table.push(
            next_state::<T, I, Fm, Fs>(match_fn, score_fn, scoring, visitor, table, inputs.last()),
        )
    }
}

/// The entries of `table` as candidates.
pub open spec fn entries<V>(table: Seq<State<V>>) -> Seq<Option<State<V>>> {
    Seq::new(table.len(), |k: int| Some(table[k]))
}

/// The entry of `table` that scores highest; the last one of those that
/// score alike.
pub open spec fn chosen<V>(table: Seq<State<V>>) -> Option<State<V>> {
    last_best(entries(table))
}

/// What the greedy reducer makes of `inputs`.
pub open spec fn greedy_result<
    T: Token,
    I: GreedyMultipleSequenceAlignerItem<T>,
    Fm: MatchFn<I>,
    Fs: ScoreFn<I>,
>(
    match_fn: Fm,
    score_fn: Fs,
    scoring: Scoring,
    visitor: TokenMergeState<T>,
    inputs: Seq<I::V>,
) -> Option<I::V> {
    match chosen(table_of::<T, I, Fm, Fs>(match_fn, score_fn, scoring, visitor, inputs)) {
        Some(state) => Some(state.seq),
        None => None,
    }
}

/// The content of each of `items`.
pub open spec fn views_of<I: View>(items: Seq<I>) -> Seq<I::V> {
    Seq::new(items.len(), |i: int| items[i]@)
}

/// The greedy reducer. It keeps a table with one consolidated candidate for
/// each input seen. A new input is aligned against every entry of the
/// table; the best of the merges is entered for it where that scores higher
/// than the input alone, else the input itself. In the end the entry that
/// scores highest is handed out.
#[derive(Debug)]
pub struct GreedyMultipleSequenceAligner<Fm, Fs, I> {
    pub _item: PhantomData<I>,
    pub match_fn: Fm,
    pub score_fn: Fs,
}

impl<Fm, Fs, I> GreedyMultipleSequenceAligner<Fm, Fs, I> {
    /// A reducer that asks `match_fn` which pairs to align and ranks the
    /// candidates by `score_fn`.
    pub fn new(match_fn: Fm, score_fn: Fs) -> (aligner: Self)
        ensures
            aligner.match_fn == match_fn,
            aligner.score_fn == score_fn,
    {
        Self { _item: PhantomData, match_fn, score_fn }
    }
}

impl<Fm: MatchFn<I>, Fs: ScoreFn<I>, I: View> GreedyMultipleSequenceAligner<Fm, Fs, I> {
    /// The candidate that row `x` of the table yields for the input `y`,
    /// with its score; nothing where there is none or it is rejected.
    pub fn candidate<T: Token>(&self, scoring: &Scoring, visitor: &Merger<T>, x: &I, y: &I) -> (found:
        Option<State<I>>) where I: GreedyMultipleSequenceAlignerItem<T>
        requires
            scoring.wf(),
        ensures
            found is Some <==> scored::<I, Fs>(
                self.score_fn,
                candidate_of::<T, I, Fm>(self.match_fn, *scoring, visitor@, x@, y@),
            ) is Some,
            found matches Some(state) ==> Some(state@) == scored::<I, Fs>(
                self.score_fn,
                candidate_of::<T, I, Fm>(self.match_fn, *scoring, visitor@, x@, y@),
            ),
    {
        let candidate = match self.match_fn.call(x, y) {
            SequenceMatch::Matched => {
                let xs = x.as_sequence().value.as_slice();
                let ys = y.as_sequence().value.as_slice();
                match align(AlignmentMode::Local, xs, ys, scoring) {
                    Some(alignment) => merge_along(&alignment, visitor, x, y),
                    None => None,
                }
            },
            SequenceMatch::Unmatched => None,
            SequenceMatch::Custom(item) => Some(item),
        };
        match candidate {
            Some(seq) => match self.score_fn.call(&seq) {
                Some(score) => Some(State { seq, score: Some(score) }),
                None => None,
            },
            None => None,
        }
    }

    /// The best of the candidates that the rows of `table` yield for the
    /// input `y`.
    pub fn best_candidate<T: Token>(
        &self,
        scoring: &Scoring,
        visitor: &Merger<T>,
        table: &Vec<State<I>>,
        y: &I,
    ) -> (best: Option<State<I>>) where I: GreedyMultipleSequenceAlignerItem<T>
        requires
            scoring.wf(),
        ensures
            best is Some <==> best_candidate::<T, I, Fm, Fs>(
                self.match_fn,
                self.score_fn,
                *scoring,
                visitor@,
                views_of(table@),
                y@,
            ) is Some,
            best matches Some(state) ==> Some(state@) == best_candidate::<T, I, Fm, Fs>(
                self.match_fn,
                self.score_fn,
                *scoring,
                visitor@,
                views_of(table@),
                y@,
            ),
    {
        let mut best: Option<State<I>> = None;
        let mut row: usize = 0;
        while row < table.len()
            invariant
                row <= table.len(),
                scoring.wf(),
                best is Some <==> best_candidate::<T, I, Fm, Fs>(
                    self.match_fn,
                    self.score_fn,
                    *scoring,
                    visitor@,
                    views_of(table@).take(row as int),
                    y@,
                ) is Some,
                best matches Some(state) ==> Some(state@) == best_candidate::<T, I, Fm, Fs>(
                    self.match_fn,
                    self.score_fn,
                    *scoring,
                    visitor@,
                    views_of(table@).take(row as int),
                    y@,
                ),
            decreases table.len() - row,
        {
            proof {
                let rows = views_of(table@);
                let so_far = row_candidates::<T, I, Fm, Fs>(
                    self.match_fn,
                    self.score_fn,
                    *scoring,
                    visitor@,
                    rows.take(row as int),
                    y@,
                );
                let with_row = row_candidates::<T, I, Fm, Fs>(
                    self.match_fn,
                    self.score_fn,
                    *scoring,
                    visitor@,
                    rows.take(row + 1),
                    y@,
                );
                assert(with_row.drop_last() =~= so_far);
                assert(rows.take(row + 1)[row as int] == table@[row as int]@);
            }
            let found = self.candidate(scoring, visitor, &table[row].seq, y);
            best = later_of(best, found);
            row += 1;
        }
        assert(views_of(table@).take(row as int) =~= views_of(table@));
        best
    }
}

impl<Fm: MatchFn<I>, Fs: ScoreFn<I>, I: View> GreedyMultipleSequenceAligner<Fm, Fs, I> {
    /// The entry that the input `y` adds to `table`.
    pub fn next_state<T: Token>(
        &self,
        scoring: &Scoring,
        visitor: &Merger<T>,
        table: &Vec<State<I>>,
        y: I,
    ) -> (state: State<I>) where I: GreedyMultipleSequenceAlignerItem<T>
        requires
            scoring.wf(),
        ensures
            state@ == next_state::<T, I, Fm, Fs>(
                self.match_fn,
                self.score_fn,
                *scoring,
                visitor@,
                views_of(table@),
                y@,
            ),
    {
        let best = self.best_candidate(scoring, visitor, table, &y);
        self.enter(y, best)
    }

    /// The entry for the input `y`, given the best of the candidates that
    /// the table yields for it: that candidate where it scores higher than
    /// `y` alone, else `y` alone.
    pub fn enter(&self, y: I, best: Option<State<I>>) -> (state: State<I>)
        ensures
            state@ == entered::<I, Fs>(
                self.score_fn,
                y@,
                match best {
                    Some(candidate) => Some(candidate@),
                    None => None,
                },
            ),
    {
        let score = self.score_fn.call(&y);
        match best {
            Some(candidate) => if score_at_least(&score, &candidate.score) {
                State { seq: y, score }
            } else {
                candidate
            },
            None => State { seq: y, score },
        }
    }
}

impl<
    T: Token,
    I: GreedyMultipleSequenceAlignerItem<T>,
    Fm: MatchFn<I>,
    Fs: ScoreFn<I>,
> MultipleSequenceAlignment<I, Merger<T>> for GreedyMultipleSequenceAligner<Fm, Fs, I> {
    type Output = I;

    open spec fn admits(&self, scoring: Scoring) -> bool {
        scoring.wf()
    }

    open spec fn reduced(
        &self,
        scoring: Scoring,
        visitor: TokenMergeState<T>,
        inputs: Seq<I>,
        out: Option<I>,
    ) -> bool {
        reduces_to::<T, I, Fm, Fs>(out, self.match_fn, self.score_fn, scoring, visitor, inputs)
    }

    /// Reduces `inputs` to one consolidated candidate: the entry of the
    /// table that scores highest, or nothing where there is no input.
    fn reduce_all(&self, scoring: &Scoring, visitor: Merger<T>, inputs: Vec<I>) -> (out: Option<I>) {
        let ghost all = views_of(inputs@);
        let mut table: Vec<State<I>> = Vec::new();
        for y in it: inputs.into_iter()
            invariant
                scoring.wf(),
                it.seq() == inputs@,
                all == views_of(inputs@),
                views_of(table@) == table_of::<T, I, Fm, Fs>(
                    self.match_fn,
                    self.score_fn,
                    *scoring,
                    visitor@,
                    all.take(it.index()),
                ),
        {
            proof {
                assert(all.take(it.index() + 1).drop_last() =~= all.take(it.index()));
            }
            let ghost before = views_of(table@);
            let state = self.next_state(scoring, &visitor, &table, y);
            table.push(state);
            assert(views_of(table@) =~= before.push(state@));
        }
        assert(all.take(inputs@.len() as int) =~= all);
        match choose_state(table) {
            Some(state) => Some(state.seq),
            None => None,
        }
    }
}

/// The entry of `table` that scores highest; the last one of those that
/// score alike.
pub fn choose_state<I: View>(table: Vec<State<I>>) -> (best: Option<State<I>>)
    ensures
        best is Some <==> table@.len() > 0,
        best matches Some(state) ==> Some(state@) == chosen(views_of(table@)),
{
    let ghost rows = views_of(table@);
    let mut best: Option<State<I>> = None;
    for state in it: table.into_iter()
        invariant
            it.seq() == table@,
            rows == views_of(table@),
            best is Some <==> it.index() > 0,
            best is Some <==> chosen(rows.take(it.index())) is Some,
            best matches Some(found) ==> Some(found@) == chosen(rows.take(it.index())),
    {
        proof {
            assert(entries(rows.take(it.index() + 1)).drop_last() =~= entries(
                rows.take(it.index()),
            ));
        }
        best = match best {
            Some(earlier) => if score_at_least(&state.score, &earlier.score) {
                Some(state)
            } else {
                Some(earlier)
            },
            None => Some(state),
        };
    }
    assert(rows.take(table@.len() as int) =~= rows);
    best
}

/// Of two candidates the one that scores higher; the later one where they
/// score alike.
pub fn later_of<I: View>(earlier: Option<State<I>>, later: Option<State<I>>) -> (best: Option<
    State<I>,
>)
    ensures
        best is Some <==> earlier is Some || later is Some,
        best matches Some(state) ==> Some(state@) == later_best(
            match earlier {
                Some(a) => Some(a@),
                None => None,
            },
            match later {
                Some(b) => Some(b@),
                None => None,
            },
        ),
{
    match (earlier, later) {
        (earlier, None) => earlier,
        (None, later) => later,
        (Some(a), Some(b)) => if score_at_least(&b.score, &a.score) {
            Some(b)
        } else {
            Some(a)
        },
    }
}

/// Whether `a` ranks no lower than `b`.
pub fn score_at_least(a: &Option<u128>, b: &Option<u128>) -> (r: bool)
    ensures
        r == (rank(*a) >= rank(*b)),
{
    match (a, b) {
        (_, None) => true,
        (None, Some(_)) => false,
        (Some(x), Some(y)) => *x >= *y,
    }
}

/// One input alone is handed out as it is, whatever it scores.
pub proof fn lemma_single_input<
    T: Token,
    I: GreedyMultipleSequenceAlignerItem<T>,
    Fm: MatchFn<I>,
    Fs: ScoreFn<I>,
>(match_fn: Fm, score_fn: Fs, scoring: Scoring, visitor: TokenMergeState<T>, input: I::V)
    ensures
        greedy_result::<T, I, Fm, Fs>(match_fn, score_fn, scoring, visitor, seq![input]) == Some(
            input,
        ),
{
    let inputs = seq![input];
    assert(inputs.drop_last() =~= Seq::<I::V>::empty());
    let none = table_of::<T, I, Fm, Fs>(match_fn, score_fn, scoring, visitor, inputs.drop_last());
    assert(none =~= Seq::<State<I::V>>::empty());
    assert(row_candidates::<T, I, Fm, Fs>(match_fn, score_fn, scoring, visitor, none, input)
        =~= Seq::empty());
    assert(best_candidate::<T, I, Fm, Fs>(match_fn, score_fn, scoring, visitor, none, input)
        is None);
    let genesis = next_state::<T, I, Fm, Fs>(match_fn, score_fn, scoring, visitor, none, input);
    assert(genesis.seq == input);
    let table = table_of::<T, I, Fm, Fs>(match_fn, score_fn, scoring, visitor, inputs);
    assert(inputs.last() == input);
    assert(table == none.push(genesis));
    assert(entries(table).drop_last() =~= Seq::empty());
    assert(chosen(table) == Some(table.last()));
}

/// No input gives no result.
pub proof fn lemma_no_input<
    T: Token,
    I: GreedyMultipleSequenceAlignerItem<T>,
    Fm: MatchFn<I>,
    Fs: ScoreFn<I>,
>(match_fn: Fm, score_fn: Fs, scoring: Scoring, visitor: TokenMergeState<T>)
    ensures
        greedy_result::<T, I, Fm, Fs>(match_fn, score_fn, scoring, visitor, Seq::empty()) is None,
{
}

/// Whether `out` is what `reduce_all` may hand out for `inputs`.
pub open spec fn reduces_to<
    T: Token,
    I: GreedyMultipleSequenceAlignerItem<T>,
    Fm: MatchFn<I>,
    Fs: ScoreFn<I>,
>(
    out: Option<I>,
    match_fn: Fm,
    score_fn: Fs,
    scoring: Scoring,
    visitor: TokenMergeState<T>,
    inputs: Seq<I>,
) -> bool {
    &&& out is Some <==> inputs.len() > 0
    &&& out matches Some(item) ==> Some(item@) == greedy_result::<T, I, Fm, Fs>(
        match_fn,
        score_fn,
        scoring,
        visitor,
        views_of(inputs),
    )
}

/// The result is determined by the inputs, the scores, the two functions
/// and the state of the visitor: two runs on inputs of the same content
/// hand out the same content.
pub proof fn lemma_reduce_all_is_deterministic<
    T: Token,
    I: GreedyMultipleSequenceAlignerItem<T>,
    Fm: MatchFn<I>,
    Fs: ScoreFn<I>,
>(
    first: Option<I>,
    second: Option<I>,
    match_fn: Fm,
    score_fn: Fs,
    scoring: Scoring,
    visitor: TokenMergeState<T>,
    inputs: Seq<I>,
    again: Seq<I>,
)
    requires
        views_of(inputs) == views_of(again),
        reduces_to::<T, I, Fm, Fs>(first, match_fn, score_fn, scoring, visitor, inputs),
        reduces_to::<T, I, Fm, Fs>(second, match_fn, score_fn, scoring, visitor, again),
    ensures
        first is Some <==> second is Some,
        first is Some ==> first->0@ == second->0@,
{
    assert(views_of(inputs).len() == inputs.len());
    assert(views_of(again).len() == again.len());
}

} // verus!
