//! The linear reducer: the sequence consolidated so far is aligned against
//! each new input in turn and rebuilt from the two.

use crate::alignment::{AlignmentEvent, AlignmentMode};
use crate::msa::{
    accepted, run, AlignmentVisitor, MultipleSequenceAlignment, SequenceAlignment,
};
use crate::pairwise::{align, alignable, symbols_of_x, symbols_of_y, trace_of, Scoring};
use crate::token::Token;
use vstd::prelude::*;
use vstd::slice::slice_to_vec;

verus! {

/// Whether a visitor of type `V` takes every event in every state.
pub open spec fn takes_all<T, V: AlignmentVisitor<T>>() -> bool {
    forall|state: V::V, event: AlignmentEvent<T>| #[trigger] V::accepts(state, event)
}

/// Whether a copy of a visitor of type `V` is in the state of the visitor that
/// was copied.
pub open spec fn copies_state<V: Clone + View>() -> bool {
    forall|visitor: V, copy: V| #[trigger] call_ensures(V::clone, (&visitor,), copy) ==> copy@ == visitor@
}

/// A visitor that takes all events takes any sequence of them.
pub proof fn lemma_takes_all<T, V: AlignmentVisitor<T>>(
    state: V::V,
    events: Seq<AlignmentEvent<T>>,
)
    requires
        takes_all::<T, V>(),
    ensures
        accepted::<T, V>(state, events),
    decreases events.len(),
{
    if events.len() > 0 {
        lemma_takes_all::<T, V>(state, events.drop_last());
    }
}

/// What a visitor in state `visitor` makes of `x`, the sequence so far, and
/// `y`, the next input, along their semiglobal alignment; nothing where the
/// two cannot be aligned or the trace does not fit them.
pub open spec fn linear_step<T: Token, V: AlignmentVisitor<T, Output = Vec<T>>>(
    scoring: Scoring,
    visitor: V::V,
    x: Seq<T>,
    y: Seq<T>,
) -> Option<Seq<T>> {
    let trace = trace_of(AlignmentMode::Semiglobal, symbols_of_x(x, y), symbols_of_y(y), scoring);
    if alignable(AlignmentMode::Semiglobal, x, y, scoring) && trace.fits(
        x.len() as int,
        y.len() as int,
    ) {
        Some(V::outcome(run::<T, V>(visitor, trace.events(x, y))))
    } else {
        None
    }
}

/// What the linear reducer makes of `inputs`: the first of them, merged
/// with each of the others in turn.
pub open spec fn linear_result<T: Token, V: AlignmentVisitor<T, Output = Vec<T>>>(
    scoring: Scoring,
    visitor: V::V,
    inputs: Seq<Seq<T>>,
) -> Option<Seq<T>>
    decreases inputs.len(),
{
    if inputs.len() == 0 {
        None
    } else if inputs.len() == 1 {
        Some(inputs[0])
    } else {
        match linear_result::<T, V>(scoring, visitor, inputs.drop_last()) {
            Some(x) => linear_step::<T, V>(scoring, visitor, x, inputs.last()),
            None => None,
        }
    }
}

/// The content of each of `inputs`.
pub open spec fn contents<T>(inputs: Seq<Vec<T>>) -> Seq<Seq<T>> {
    Seq::new(inputs.len(), |i: int| inputs[i]@)
}

/// The linear reducer.
#[derive(Clone, Copy, Debug, Default)]
pub struct LinearMultipleSequenceAligner;

impl LinearMultipleSequenceAligner {
    /// Merges `x` with `y` along their semiglobal alignment, with a copy of
    /// `visitor`.
    pub fn merge<T: Token, V: Clone + AlignmentVisitor<T, Output = Vec<T>>>(
        &self,
        scoring: &Scoring,
        visitor: &V,
        x: &[T],
        y: &[T],
    ) -> (out: Option<Vec<T>>)
        requires
            scoring.wf(),
            takes_all::<T, V>(),
            copies_state::<V>(),
        ensures
            out is Some <==> linear_step::<T, V>(*scoring, visitor@, x@, y@) is Some,
            out matches Some(merged) ==> Some(merged@) == linear_step::<T, V>(
                *scoring,
                visitor@,
                x@,
                y@,
            ),
    {
        match align(AlignmentMode::Semiglobal, x, y, scoring) {
            Some(alignment) => {
                if alignment.fits(x.len(), y.len()) {
                    let copy = visitor.clone();
                    proof {
                        lemma_takes_all::<T, V>(copy@, alignment@.events(x@, y@));
                    }
                    Some(alignment.reduce(copy, x, y))
                } else {
                    None
                }
            },
            None => None,
        }
    }
}

impl<T: Token, V: Clone + AlignmentVisitor<T, Output = Vec<T>>> MultipleSequenceAlignment<
    Vec<T>,
    V,
> for LinearMultipleSequenceAligner {
    type Output = Vec<T>;

    open spec fn admits(&self, scoring: Scoring) -> bool {
        &&& scoring.wf()
        &&& takes_all::<T, V>()
        &&& copies_state::<V>()
    }

    open spec fn reduced(
        &self,
        scoring: Scoring,
        visitor: V::V,
        inputs: Seq<Vec<T>>,
        out: Option<Vec<T>>,
    ) -> bool {
        &&& out is Some <==> linear_result::<T, V>(scoring, visitor, contents(inputs)) is Some
        &&& out matches Some(merged) ==> Some(merged@) == linear_result::<T, V>(
            scoring,
            visitor,
            contents(inputs),
        )
    }

    /// Reduces `inputs` to one sequence: nothing where there is no input or
    /// where two sequences cannot be aligned on the way.
    fn reduce_all(&self, scoring: &Scoring, visitor: V, inputs: Vec<Vec<T>>) -> (out: Option<Vec<T>>) {
        if inputs.len() == 0 {
            return None;
        }
        let ghost all = contents(inputs@);
        let mut x: Vec<T> = slice_to_vec(inputs[0].as_slice());
        assert(all.take(1) =~= seq![inputs@[0]@]);
        let mut i: usize = 1;
        while i < inputs.len()
            invariant
                1 <= i <= inputs.len(),
                scoring.wf(),
                takes_all::<T, V>(),
                copies_state::<V>(),
                all == contents(inputs@),
                Some(x@) == linear_result::<T, V>(*scoring, visitor@, all.take(i as int)),
            decreases inputs.len() - i,
        {
            proof {
                assert(all.take(i + 1).drop_last() =~= all.take(i as int));
                assert(all.take(i + 1).last() == inputs@[i as int]@);
            }
            match self.merge(scoring, &visitor, x.as_slice(), inputs[i].as_slice()) {
                Some(merged) => {
                    x = merged;
                },
                None => {
                    proof {
                        lemma_linear_fails::<T, V>(*scoring, visitor@, all, i + 1);
                    }
                    return None;
                },
            }
            i += 1;
        }
        assert(all.take(i as int) =~= all);
        Some(x)
    }
}

/// Where the linear reducer fails on a beginning of the inputs, it fails on
/// all of them.
pub proof fn lemma_linear_fails<T: Token, V: AlignmentVisitor<T, Output = Vec<T>>>(
    scoring: Scoring,
    visitor: V::V,
    inputs: Seq<Seq<T>>,
    n: int,
)
    requires
        1 <= n <= inputs.len(),
        linear_result::<T, V>(scoring, visitor, inputs.take(n)) is None,
    ensures
        linear_result::<T, V>(scoring, visitor, inputs) is None,
    decreases inputs.len(),
{
    if n == inputs.len() {
        assert(inputs.take(n) =~= inputs);
    } else {
        assert(inputs.drop_last().take(n) =~= inputs.take(n));
        lemma_linear_fails::<T, V>(scoring, visitor, inputs.drop_last(), n);
    }
}

} // verus!
