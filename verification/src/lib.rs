//! Stitches overlapping, possibly noisy transcript segments into one
//! consolidated sequence.
//!
//! Successive segments, such as the hypotheses of a live speech recogniser,
//! share material with those before them. The combiner aligns each new
//! segment against the candidates consolidated so far, merges the two along
//! the alignment, and keeps the candidate that is confirmed best.
//!
//! - [`pairwise`] aligns two sequences of tokens under an affine gap model.
//! - [`alignment`] holds the trace of an alignment and the walk that it
//!   prescribes.
//! - [`msa`] holds consolidated sequences, the visitors that are driven along
//!   a trace, and the walk itself; [`token`] the visitor that merges two
//!   consolidated sequences, and [`pretty`] one that draws an alignment.
//! - [`linear`] and [`greedy`] reduce many sequences to one.
//! - [`segment`] tags sequences with intervals of time.
//! - [`StringCombiner`] puts these together with fixed scores.
//!
//! The aligner works on bytes: two sequences can be aligned where the new
//! one has no more than 255 different tokens and their lengths are within
//! the range of its 32-bit scores. A pair outside these bounds yields no
//! candidate.

use crate::greedy::{
    greedy_result, lemma_single_input, views_of, GreedyMultipleSequenceAligner,
    GreedyMultipleSequenceAlignerItem, MatchFn, ScoreFn,
};
use crate::msa::{
    fresh_tokens, total_count, AlignedSequence, AlignedSequenceView, MultipleSequenceAlignment,
    SequenceMatch,
};
use crate::pairwise::Scoring;
use crate::segment::{Segment, SegmentKey};
use crate::text::{payloads, Printable};
use crate::token::{AlignmentTokenMergeVisitor, Token, TokenMergeState};
use std::marker::PhantomData;
use vstd::prelude::*;

pub mod alignment;
pub mod greedy;
pub mod linear;
pub mod msa;
pub mod pairwise;
pub mod pretty;
pub mod segment;
pub mod text;
pub mod token;

verus! {

/// The score of a column of two tokens that are the same.
pub const MATCH_SCORE: i32 = 2;

/// The score of a column of two tokens that differ.
pub const MISMATCH_SCORE: i32 = -3;

/// Combines overlapping sequences with fixed column scores and a bound on
/// the tokens that a merge may drop on either side.
#[derive(Clone, Copy, Debug)]
pub struct StringCombiner {
    /// Whether a token of the new sequence that the alignment sets against a
    /// gap of the old one is dropped.
    pub allow_token_deletion: bool,
    /// The penalty for each token of a gap.
    pub gap_extend: i32,
    /// The penalty for opening a gap.
    pub gap_open: i32,
    /// The most tokens that a merge may drop of the old sequence.
    pub threshold_deletion_x: usize,
    /// The most tokens that a merge may drop of the new sequence.
    pub threshold_deletion_y: usize,
}

impl Default for StringCombiner {
    fn default() -> (combiner: Self)
        ensures
            combiner == (StringCombiner {
                allow_token_deletion: true,
                gap_extend: -1i32,
                gap_open: -5i32,
                threshold_deletion_x: usize::MAX,
                threshold_deletion_y: 3,
            }),
    {
        Self {
            allow_token_deletion: true,
            gap_extend: -1,
            gap_open: -5,
            threshold_deletion_x: usize::MAX,
            threshold_deletion_y: 3,
        }
    }
}

/// Has every pair aligned.
#[derive(Clone, Copy, Debug)]
pub struct AlwaysMatched;

impl<I: View> MatchFn<I> for AlwaysMatched {
    open spec fn decides(&self, a: I::V, b: I::V) -> SequenceMatch<I::V> {
        SequenceMatch::Matched
    }

    fn call(&self, a: &I, b: &I) -> (decision: SequenceMatch<I>) {
        SequenceMatch::Matched
    }
}

/// Scores a candidate by the confirmations of its tokens, and rejects it
/// where its merge dropped more tokens than the thresholds allow.
pub struct DeletionThreshold<T> {
    pub _token: PhantomData<T>,
    pub threshold_deletion_x: usize,
    pub threshold_deletion_y: usize,
}

/// The score of `seq` under the thresholds `x` and `y`.
pub open spec fn threshold_score<T>(seq: AlignedSequenceView<T>, x: usize, y: usize) -> Option<u128> {
    if seq.num_deleted_x <= x && seq.num_deleted_y <= y {
        Some(total_count(seq.value) as u128)
    } else {
        None
    }
}

impl<T: Copy, I: GreedyMultipleSequenceAlignerItem<T>> ScoreFn<I> for DeletionThreshold<T> {
    open spec fn scores(&self, a: I::V) -> Option<u128> {
        threshold_score(I::sequence(a), self.threshold_deletion_x, self.threshold_deletion_y)
    }

    fn call(&self, a: &I) -> (score: Option<u128>) {
        let seq = a.as_sequence();
        if seq.num_deleted_x <= self.threshold_deletion_x && seq.num_deleted_y
            <= self.threshold_deletion_y {
            Some(seq.total_matched())
        } else {
            None
        }
    }
}

impl StringCombiner {
    /// Whether the gap scores are penalties.
    pub open spec fn wf(self) -> bool {
        self.gap_open <= 0 && self.gap_extend <= 0
    }

    /// The scores that the combiner aligns with.
    pub open spec fn scoring(self) -> Scoring {
        Scoring {
            gap_open: self.gap_open,
            gap_extend: self.gap_extend,
            match_score: MATCH_SCORE,
            mismatch_score: MISMATCH_SCORE,
        }
    }

    /// The score function of the combiner.
    pub open spec fn score_fn<T>(self) -> DeletionThreshold<T> {
        DeletionThreshold {
            _token: PhantomData,
            threshold_deletion_x: self.threshold_deletion_x,
            threshold_deletion_y: self.threshold_deletion_y,
        }
    }

    /// What the combiner makes of `inputs` where `match_fn` decides which
    /// pairs are aligned.
    pub open spec fn combined<T: Token, I: GreedyMultipleSequenceAlignerItem<T>, F: MatchFn<I>>(
        self,
        match_fn: F,
        inputs: Seq<I::V>,
    ) -> Option<I::V> {
        greedy_result::<T, I, F, DeletionThreshold<T>>(
            match_fn,
            self.score_fn::<T>(),
            self.scoring(),
            TokenMergeState::empty(self.allow_token_deletion),
            inputs,
        )
    }

    /// Combines `inputs` by the greedy reducer, with `match_fn` to decide
    /// which pairs are aligned.
    pub fn concat_with<I, T, F>(&self, inputs: Vec<I>, match_fn: F) -> (out: Option<I>) where
        T: Token,
        I: GreedyMultipleSequenceAlignerItem<T>,
        F: MatchFn<I>,

        requires
            self.wf(),
        ensures
            out is Some <==> inputs@.len() > 0,
            out matches Some(item) ==> Some(item@) == self.combined::<T, I, F>(
                match_fn,
                views_of(inputs@),
            ),
    {
        let scoring = Scoring::new(self.gap_open, self.gap_extend, MATCH_SCORE, MISMATCH_SCORE);
        let score_fn: DeletionThreshold<T> = DeletionThreshold {
            _token: PhantomData,
            threshold_deletion_x: self.threshold_deletion_x,
            threshold_deletion_y: self.threshold_deletion_y,
        };
        let aligner = GreedyMultipleSequenceAligner::new(match_fn, score_fn);
        let visitor = AlignmentTokenMergeVisitor::new(self.allow_token_deletion);
        aligner.reduce_all(&scoring, visitor, inputs)
    }
}

/// Each of `inputs` as a sequence of fresh tokens with nothing deleted.
pub open spec fn fresh_sequences<T>(inputs: Seq<Vec<T>>) -> Seq<AlignedSequenceView<T>> {
    Seq::new(
        inputs.len(),
        |i: int|
            AlignedSequenceView {
                num_deleted_x: 0,
                num_deleted_y: 0,
                value: fresh_tokens(inputs[i]@),
            },
    )
}

impl StringCombiner {
    /// Combines `inputs`, each pair of them aligned, and shows the result as
    /// text; nothing where there is no input.
    pub fn concat_strings<T: Token + Printable>(&self, inputs: Vec<Vec<T>>) -> (out: Option<String>)
        requires
            self.wf(),
        ensures
            out is Some <==> inputs@.len() > 0,
            out matches Some(text) ==> self.combined::<T, AlignedSequence<T>, AlwaysMatched>(
                AlwaysMatched,
                fresh_sequences(inputs@),
            ) matches Some(seq) && text@ == T::printed(payloads(seq.value)),
    {
        let ghost all = fresh_sequences(inputs@);
        let mut sequences: Vec<AlignedSequence<T>> = Vec::new();
        for data in it: inputs.into_iter()
            invariant
                it.seq() == inputs@,
                all == fresh_sequences(inputs@),
                views_of(sequences@) == all.take(it.index()),
        {
            let ghost before = views_of(sequences@);
            let seq = AlignedSequence::from_iter(data);
            sequences.push(seq);
            assert(views_of(sequences@) =~= before.push(seq@));
            assert(views_of(sequences@) =~= all.take(it.index() + 1));
        }
        assert(all.take(inputs@.len() as int) =~= all);
        match self.concat_with::<AlignedSequence<T>, T, AlwaysMatched>(sequences, AlwaysMatched) {
            Some(seq) => Some(seq.to_string()),
            None => None,
        }
    }
}

/// Has two segments aligned where the first ends after the second has
/// begun. Where it does not, the two are joined as they are, under the
/// interval that spans both; where the counters of the two cannot be added
/// up, the pair is left out.
#[derive(Clone, Copy, Debug)]
pub struct OverlapMatch;

/// What [`OverlapMatch`] decides of the segments `a` and `b`.
pub open spec fn overlap_decision<T>(
    a: Segment<SegmentKey, AlignedSequenceView<T>>,
    b: Segment<SegmentKey, AlignedSequenceView<T>>,
) -> SequenceMatch<Segment<SegmentKey, AlignedSequenceView<T>>> {
    if a.key.overlaps(b.key) {
        SequenceMatch::Matched
    } else if a.value.num_deleted_x + b.value.num_deleted_x <= usize::MAX && a.value.num_deleted_y
        + b.value.num_deleted_y <= usize::MAX {
        SequenceMatch::Custom(
            Segment { key: a.key.span(b.key), value: a.value.join(b.value, Seq::empty()) },
        )
    } else {
        SequenceMatch::Unmatched
    }
}

impl<T: Copy> MatchFn<Segment<SegmentKey, AlignedSequence<T>>> for OverlapMatch {
    open spec fn decides(
        &self,
        a: Segment<SegmentKey, AlignedSequenceView<T>>,
        b: Segment<SegmentKey, AlignedSequenceView<T>>,
    ) -> SequenceMatch<Segment<SegmentKey, AlignedSequenceView<T>>> {
        overlap_decision(a, b)
    }

    fn call(
        &self,
        a: &Segment<SegmentKey, AlignedSequence<T>>,
        b: &Segment<SegmentKey, AlignedSequence<T>>,
    ) -> (decision: SequenceMatch<Segment<SegmentKey, AlignedSequence<T>>>) {
        if a.key.ends_after(&b.key) {
            SequenceMatch::Matched
        } else if a.value.num_deleted_x <= usize::MAX - b.value.num_deleted_x
            && a.value.num_deleted_y <= usize::MAX - b.value.num_deleted_y {
            SequenceMatch::Custom(
                Segment { key: a.key.spanning(&b.key), value: a.value.join(&b.value, None) },
            )
        } else {
            SequenceMatch::Unmatched
        }
    }
}

/// Each of `inputs` with its payloads as fresh tokens and nothing deleted.
pub open spec fn fresh_segments<T>(inputs: Seq<Segment<SegmentKey, Vec<T>>>) -> Seq<
    Segment<SegmentKey, AlignedSequenceView<T>>,
> {
    Seq::new(
        inputs.len(),
        |i: int|
            Segment {
                key: inputs[i].key,
                value: AlignedSequenceView {
                    num_deleted_x: 0,
                    num_deleted_y: 0,
                    value: fresh_tokens(inputs[i].value@),
                },
            },
    )
}

impl StringCombiner {
    /// Combines segments: two of them are aligned where their intervals
    /// overlap and joined where they do not. The result keeps the counts of
    /// its tokens and what its merge deleted.
    pub fn concat_segments_raw<T: Token>(&self, inputs: Vec<Segment<SegmentKey, Vec<T>>>) -> (out:
        Option<Segment<SegmentKey, AlignedSequence<T>>>)
        requires
            self.wf(),
        ensures
            out is Some <==> inputs@.len() > 0,
            out matches Some(segment) ==> Some(segment@) == self.combined::<
                T,
                Segment<SegmentKey, AlignedSequence<T>>,
                OverlapMatch,
            >(OverlapMatch, fresh_segments(inputs@)),
    {
        let ghost all = fresh_segments(inputs@);
        let mut segments: Vec<Segment<SegmentKey, AlignedSequence<T>>> = Vec::new();
        for input in it: inputs.into_iter()
            invariant
                it.seq() == inputs@,
                all == fresh_segments(inputs@),
                views_of(segments@) == all.take(it.index()),
        {
            let ghost before = views_of(segments@);
            let segment = Segment { key: input.key, value: AlignedSequence::from_iter(input.value) };
            segments.push(segment);
            assert(views_of(segments@) =~= before.push(segment@));
            assert(views_of(segments@) =~= all.take(it.index() + 1));
        }
        assert(all.take(inputs@.len() as int) =~= all);
        self.concat_with::<Segment<SegmentKey, AlignedSequence<T>>, T, OverlapMatch>(
            segments,
            OverlapMatch,
        )
    }

    /// Combines segments as `concat_segments_raw` does, and hands out the
    /// payloads of the result under its interval.
    pub fn concat_segments<T: Token>(&self, inputs: Vec<Segment<SegmentKey, Vec<T>>>) -> (out:
        Option<Segment<SegmentKey, Vec<T>>>)
        requires
            self.wf(),
        ensures
            out is Some <==> inputs@.len() > 0,
            out matches Some(segment) ==> self.combined::<
                T,
                Segment<SegmentKey, AlignedSequence<T>>,
                OverlapMatch,
            >(OverlapMatch, fresh_segments(inputs@)) matches Some(raw) && segment.key == raw.key
                && segment.value@ == payloads(raw.value.value),
    {
        match self.concat_segments_raw(inputs) {
            Some(raw) => {
                let mut value: Vec<T> = Vec::new();
                let mut i: usize = 0;
                while i < raw.value.value.len()
                    invariant
                        i <= raw.value.value.len(),
                        value@ == payloads(raw.value.value@).take(i as int),
                    decreases raw.value.value.len() - i,
                {
                    value.push(raw.value.value[i].data);
                    i += 1;
                    assert(value@ =~= payloads(raw.value.value@).take(i as int));
                }
                assert(payloads(raw.value.value@).take(i as int) =~= payloads(raw.value.value@));
                Some(Segment { key: raw.key, value })
            },
            None => None,
        }
    }
}

/// A single input comes back as it went in: its payloads as fresh tokens,
/// with nothing deleted.
pub proof fn lemma_single_string<T: Token>(combiner: StringCombiner, input: Vec<T>)
    ensures
        combiner.combined::<T, AlignedSequence<T>, AlwaysMatched>(
            AlwaysMatched,
            fresh_sequences(seq![input]),
        ) == Some(
            AlignedSequenceView { num_deleted_x: 0, num_deleted_y: 0, value: fresh_tokens(input@) },
        ),
        payloads(fresh_tokens(input@)) == input@,
{
    let only = AlignedSequenceView {
        num_deleted_x: 0,
        num_deleted_y: 0,
        value: fresh_tokens(input@),
    };
    assert(fresh_sequences(seq![input]) =~= seq![only]);
    lemma_single_input::<T, AlignedSequence<T>, AlwaysMatched, DeletionThreshold<T>>(
        AlwaysMatched,
        combiner.score_fn::<T>(),
        combiner.scoring(),
        TokenMergeState::empty(combiner.allow_token_deletion),
        only,
    );
    assert(payloads(fresh_tokens(input@)) =~= input@);
}

} // verus!
