//! Consolidated sequences, the visitors that build them from an alignment,
//! and the walk along an alignment that drives a visitor.

use crate::alignment::{
    cursor_after, lemma_operation_events_len, lemma_walk_take, operation_events, operations_fit,
    skip, Alignment, AlignmentEvent, AlignmentMode, AlignmentOperation, Cursor,
};
use crate::pairwise::Scoring;
use crate::token::Token;
use vstd::prelude::*;
use vstd::slice::slice_subrange;
use vstd::std_specs::cmp::{PartialEqSpec, PartialEqSpecImpl};

verus! {

/// One token of a consolidated sequence: a payload and the number of times it
/// has been confirmed by a match.
#[derive(Clone, Copy, Debug)]
pub struct AlignedToken<T> {
    pub count: u64,
    pub data: T,
}

impl<T> AlignedToken<T> {
    /// A fresh token, confirmed once.
    pub fn new(data: T) -> (token: Self)
        ensures
            token == (AlignedToken { count: 1, data }),
    {
        Self { count: 1, data }
    }
}

/// Two aligned tokens are equal where their payloads are; the count is no
/// part of the identity.
impl<T: PartialEq> PartialEq for AlignedToken<T> {
    fn eq(&self, other: &Self) -> (r: bool) {
        self.data == other.data
    }
}

impl<T: Eq> Eq for AlignedToken<T> {

}

impl<T: PartialEq> PartialEqSpecImpl for AlignedToken<T> {
    open spec fn obeys_eq_spec() -> bool {
        T::obeys_eq_spec()
    }

    open spec fn eq_spec(&self, other: &Self) -> bool {
        self.data.eq_spec(&other.data)
    }
}

/// Two aligned tokens are the same token where their payloads are.
impl<T: Token> Token for AlignedToken<T> {
    open spec fn same(self, other: Self) -> bool {
        self.data.same(other.data)
    }

    proof fn same_symmetric(a: Self, b: Self) {
        T::same_symmetric(a.data, b.data);
    }

    proof fn same_transitive(a: Self, b: Self, c: Self) {
        T::same_transitive(a.data, b.data, c.data);
    }

    fn is_same(&self, other: &Self) -> (r: bool) {
        self.data.is_same(&other.data)
    }
}

/// The sum of the confirmation counts of `tokens`.
pub open spec fn total_count<T>(tokens: Seq<AlignedToken<T>>) -> nat
    decreases tokens.len(),
{
    if tokens.len() == 0 {
        0
    } else {
        total_count(tokens.drop_last()) + tokens.last().count as nat
    }
}

/// Each payload of `data` as a fresh token.
pub open spec fn fresh_tokens<T>(data: Seq<T>) -> Seq<AlignedToken<T>> {
    Seq::new(data.len(), |i: int| AlignedToken { count: 1, data: data[i] })
}

/// What `match_fn` decides about a pair of candidates.
#[derive(Clone, Debug)]
pub enum SequenceMatch<T> {
    /// Align the two.
    Matched,
    /// Leave the pair out.
    Unmatched,
    /// Take this candidate as it is, without aligning.
    Custom(T),
}

/// A consolidated sequence with the number of tokens that the alignment
/// which produced it dropped on either side.
#[derive(Debug)]
pub struct AlignedSequence<T> {
    pub num_deleted_x: usize,
    pub num_deleted_y: usize,
    pub value: Vec<AlignedToken<T>>,
}

/// The mathematical content of an [`AlignedSequence`].
pub struct AlignedSequenceView<T> {
    pub num_deleted_x: usize,
    pub num_deleted_y: usize,
    pub value: Seq<AlignedToken<T>>,
}

impl<T> View for AlignedSequence<T> {
    type V = AlignedSequenceView<T>;

    open spec fn view(&self) -> AlignedSequenceView<T> {
        AlignedSequenceView {
            num_deleted_x: self.num_deleted_x,
            num_deleted_y: self.num_deleted_y,
            value: self.value@,
        }
    }
}

proof fn lemma_total_count_bound<T>(tokens: Seq<AlignedToken<T>>)
    ensures
        total_count(tokens) <= tokens.len() * u64::MAX,
    decreases tokens.len(),
{
    if tokens.len() > 0 {
        lemma_total_count_bound(tokens.drop_last());
        assert(total_count(tokens) <= (tokens.len() - 1) * u64::MAX + u64::MAX);
        assert((tokens.len() - 1) * u64::MAX + u64::MAX == tokens.len() * u64::MAX)
            by (nonlinear_arith);
    }
}

impl<T: Copy> AlignedSequence<T> {
    /// A sequence of fresh tokens, with nothing deleted.
    pub fn from_iter(data: Vec<T>) -> (seq: Self)
        ensures
            seq@ == (AlignedSequenceView {
                num_deleted_x: 0,
                num_deleted_y: 0,
                value: fresh_tokens(data@),
            }),
    {
        let mut value: Vec<AlignedToken<T>> = Vec::with_capacity(data.len());
        let mut i: usize = 0;
        while i < data.len()
            invariant
                i <= data.len(),
                value@ == fresh_tokens(data@.take(i as int)),
            decreases data.len() - i,
        {
            value.push(AlignedToken::new(data[i]));
            i += 1;
            assert(value@ =~= fresh_tokens(data@.take(i as int)));
        }
        assert(data@.take(i as int) =~= data@);
        Self { num_deleted_x: 0, num_deleted_y: 0, value }
    }

    /// The sum of the confirmation counts of all tokens.
    ///
    /// The sum of at most `usize::MAX` counts of 64 bits fits in 128 bits.
    pub fn total_matched(&self) -> (total: u128)
        ensures
            total == total_count(self.value@),
    {
        let mut total: u128 = 0;
        let mut i: usize = 0;
        while i < self.value.len()
            invariant
                i <= self.value.len(),
                total == total_count(self.value@.take(i as int)),
            decreases self.value.len() - i,
        {
            proof {
                lemma_total_count_bound(self.value@.take(i as int));
                assert(i * u64::MAX + u64::MAX <= u128::MAX) by (nonlinear_arith)
                    requires
                        i <= u64::MAX,
                ;
                assert(self.value@.take(i + 1).drop_last() =~= self.value@.take(i as int));
            }
            total = total + self.value[i].count as u128;
            i += 1;
        }
        assert(self.value@.take(i as int) =~= self.value@);
        total
    }
}

/// What is told about an alignment, step by step, to build something from it.
///
/// A visitor is described by its view: `step` says what an event does to it,
/// `accepts` which events it can take in a given state, and `outcome` what it
/// hands out in the end.
pub trait AlignmentVisitor<T>: View + Sized {
    type Output: View;

    /// Whether the visitor can take `event` in `state`.
    spec fn accepts(state: Self::V, event: AlignmentEvent<T>) -> bool;

    /// The state after `event`.
    spec fn step(state: Self::V, event: AlignmentEvent<T>) -> Self::V;

    /// What `finish` hands out in `state`.
    spec fn outcome(state: Self::V) -> <Self::Output as View>::V;

    /// Tokens of x before the aligned region.
    fn visit_prefix_x(&mut self, x: &[T])
        requires
            Self::accepts(old(self)@, AlignmentEvent::PrefixX(x@)),
        ensures
            final(self)@ == Self::step(old(self)@, AlignmentEvent::PrefixX(x@)),
    ;

    /// Tokens of y before the aligned region.
    fn visit_prefix_y(&mut self, y: &[T])
        requires
            Self::accepts(old(self)@, AlignmentEvent::PrefixY(y@)),
        ensures
            final(self)@ == Self::step(old(self)@, AlignmentEvent::PrefixY(y@)),
    ;

    /// A token of x aligned with an equal token of y.
    fn visit_match(&mut self, x: &T, y: &T)
        requires
            Self::accepts(old(self)@, AlignmentEvent::Match(*x, *y)),
        ensures
            final(self)@ == Self::step(old(self)@, AlignmentEvent::Match(*x, *y)),
    ;

    /// A token of x aligned with a different token of y.
    fn visit_subst(&mut self, x: &T, y: &T)
        requires
            Self::accepts(old(self)@, AlignmentEvent::Subst(*x, *y)),
        ensures
            final(self)@ == Self::step(old(self)@, AlignmentEvent::Subst(*x, *y)),
    ;

    /// A token of y that x lacks.
    fn visit_del(&mut self, y: &T)
        requires
            Self::accepts(old(self)@, AlignmentEvent::Del(*y)),
        ensures
            final(self)@ == Self::step(old(self)@, AlignmentEvent::Del(*y)),
    ;

    /// A token of x that y lacks.
    fn visit_ins(&mut self, x: &T)
        requires
            Self::accepts(old(self)@, AlignmentEvent::Ins(*x)),
        ensures
            final(self)@ == Self::step(old(self)@, AlignmentEvent::Ins(*x)),
    ;

    /// Tokens of x that a custom trace clips. A visitor with nothing to say
    /// of clips treats them as a prefix of x.
    fn visit_xclip(&mut self, x: &[T])
        requires
            Self::accepts(old(self)@, AlignmentEvent::Xclip(x@)),
        ensures
            final(self)@ == Self::step(old(self)@, AlignmentEvent::Xclip(x@)),
    ;

    /// Tokens of y that a custom trace clips. A visitor with nothing to say
    /// of clips treats them as a prefix of y.
    fn visit_yclip(&mut self, y: &[T])
        requires
            Self::accepts(old(self)@, AlignmentEvent::Yclip(y@)),
        ensures
            final(self)@ == Self::step(old(self)@, AlignmentEvent::Yclip(y@)),
    ;

    /// Tokens of x behind the aligned region.
    fn visit_suffix_x(&mut self, x: &[T])
        requires
            Self::accepts(old(self)@, AlignmentEvent::SuffixX(x@)),
        ensures
            final(self)@ == Self::step(old(self)@, AlignmentEvent::SuffixX(x@)),
    ;

    /// Tokens of y behind the aligned region.
    fn visit_suffix_y(&mut self, y: &[T])
        requires
            Self::accepts(old(self)@, AlignmentEvent::SuffixY(y@)),
        ensures
            final(self)@ == Self::step(old(self)@, AlignmentEvent::SuffixY(y@)),
    ;

    /// Ends the visit and hands out what was built.
    fn finish(self) -> (out: Self::Output)
        ensures
            out@ == Self::outcome(self@),
    ;
}

/// The state of a visitor that began in `state` and was told `events`.
pub open spec fn run<T, V: AlignmentVisitor<T>>(
    state: V::V,
    events: Seq<AlignmentEvent<T>>,
) -> V::V
    decreases events.len(),
{
    if events.len() == 0 {
        state
    } else {
        V::step(run::<T, V>(state, events.drop_last()), events.last())
    }
}

/// Whether a visitor that begins in `state` can take each of `events` in turn.
pub open spec fn accepted<T, V: AlignmentVisitor<T>>(
    state: V::V,
    events: Seq<AlignmentEvent<T>>,
) -> bool
    decreases events.len(),
{
    events.len() == 0 || {
        &&& accepted::<T, V>(state, events.drop_last())
        &&& V::accepts(run::<T, V>(state, events.drop_last()), events.last())
    }
}

/// A visitor that takes `events` takes every beginning of them.
pub proof fn lemma_accepted_take<T, V: AlignmentVisitor<T>>(
    state: V::V,
    events: Seq<AlignmentEvent<T>>,
    n: int,
)
    requires
        accepted::<T, V>(state, events),
        0 <= n <= events.len(),
    ensures
        accepted::<T, V>(state, events.take(n)),
        n < events.len() ==> V::accepts(run::<T, V>(state, events.take(n)), events[n]),
    decreases events.len(),
{
    if n == events.len() {
        assert(events.take(n) =~= events);
    } else {
        lemma_accepted_take::<T, V>(state, events.drop_last(), n);
        if n == events.len() - 1 {
            assert(events.take(n) =~= events.drop_last());
        } else {
            assert(events.drop_last().take(n) =~= events.take(n));
        }
    }
}

/// Walks an alignment trace over the two sequences that it aligns.
pub trait SequenceAlignment<T> {
    /// Whether the trace can be walked over `x` and `y`.
    spec fn fits(&self, x: Seq<T>, y: Seq<T>) -> bool;

    /// What the walk tells its visitor, in order.
    spec fn events(&self, x: Seq<T>, y: Seq<T>) -> Seq<AlignmentEvent<T>>;

    /// Tells `visitor` every event of the walk over `x` and `y`, and hands
    /// out what it built.
    fn reduce<V: AlignmentVisitor<T>>(&self, visitor: V, x: &[T], y: &[T]) -> (out: V::Output)
        requires
            self.fits(x@, y@),
            accepted::<T, V>(visitor@, self.events(x@, y@)),
        ensures
            out@ == V::outcome(run::<T, V>(visitor@, self.events(x@, y@))),
    ;
}

impl<T> SequenceAlignment<T> for Alignment {
    open spec fn fits(&self, x: Seq<T>, y: Seq<T>) -> bool {
        self@.fits(x.len() as int, y.len() as int)
    }

    open spec fn events(&self, x: Seq<T>, y: Seq<T>) -> Seq<AlignmentEvent<T>> {
        self@.events(x, y)
    }

    fn reduce<V: AlignmentVisitor<T>>(&self, visitor: V, x: &[T], y: &[T]) -> (out: V::Output) {
        let mut visitor = visitor;
        let xn = x.len();
        let yn = y.len();
        let ghost begin = visitor@;
        let ghost start = self@.start(xn as int, yn as int);
        let ghost ops = self.operations@;
        let ghost all = self@.events(x@, y@);
        let ghost before = self@.prefix_events(x@, y@);
        let ghost walk = operation_events(ops, start, x@, y@);
        proof {
            lemma_operation_events_len(ops, start, x@, y@);
        }
        let mut x_i: usize = 0;
        let mut y_i: usize = 0;
        match self.mode {
            AlignmentMode::Custom => {
                assert(all.take(0) =~= Seq::empty());
            },
            _ => {
                x_i = if self.xstart <= xn { self.xstart } else { xn };
                y_i = if self.ystart <= yn { self.ystart } else { yn };
                proof {
                    lemma_accepted_take::<T, V>(begin, all, 0);
                    lemma_accepted_take::<T, V>(begin, all, 1);
                    assert(all.take(0) =~= Seq::empty());
                    assert(all.take(1).drop_last() =~= all.take(0));
                    assert(all.take(2).drop_last() =~= all.take(1));
                }
                visitor.visit_prefix_x(slice_subrange(x, 0, x_i));
                visitor.visit_prefix_y(slice_subrange(y, 0, y_i));
            },
        }
        let mut i: usize = 0;
        while i < self.operations.len()
            invariant
                i <= ops.len(),
                ops == self.operations@,
                xn == x@.len(),
                yn == y@.len(),
                x_i <= xn,
                y_i <= yn,
                start == self@.start(xn as int, yn as int),
                all == self@.events(x@, y@),
                before == self@.prefix_events(x@, y@),
                walk == operation_events(ops, start, x@, y@),
                walk.len() == ops.len(),
                operations_fit(ops, start, xn as int, yn as int),
                accepted::<T, V>(begin, all),
                cursor_after(ops.take(i as int), start, xn as int, yn as int) == (Cursor {
                    x: x_i as int,
                    y: y_i as int,
                }),
                visitor@ == run::<T, V>(begin, all.take(before.len() + i)),
            decreases ops.len() - i,
        {
            proof {
                let k = before.len() + i;
                lemma_walk_take(ops, start, x@, y@, i as int);
                lemma_accepted_take::<T, V>(begin, all, k);
                assert(all[k] == walk[i as int]);
                assert(all.take(k + 1).drop_last() =~= all.take(k));
            }
            match self.operations[i] {
                AlignmentOperation::Match => {
                    visitor.visit_match(&x[x_i], &y[y_i]);
                    x_i += 1;
                    y_i += 1;
                },
                AlignmentOperation::Subst => {
                    visitor.visit_subst(&x[x_i], &y[y_i]);
                    x_i += 1;
                    y_i += 1;
                },
                AlignmentOperation::Del => {
                    visitor.visit_del(&y[y_i]);
                    y_i += 1;
                },
                AlignmentOperation::Ins => {
                    visitor.visit_ins(&x[x_i]);
                    x_i += 1;
                },
                AlignmentOperation::Xclip(n) => {
                    visitor.visit_xclip(slice_subrange(x, 0, if n <= xn { n } else { xn }));
                    x_i = skip(x_i, n, xn);
                },
                AlignmentOperation::Yclip(n) => {
                    visitor.visit_yclip(slice_subrange(y, 0, if n <= yn { n } else { yn }));
                    y_i = skip(y_i, n, yn);
                },
            }
            i += 1;
        }
        proof {
            assert(ops.take(i as int) =~= ops);
        }
        match self.mode {
            AlignmentMode::Custom => {
                assert(all.take(before.len() + i) =~= all);
            },
            _ => {
                let x_to = if self.xlen <= xn { self.xlen } else { xn };
                let y_to = if self.ylen <= yn { self.ylen } else { yn };
                let x_from = if x_i <= x_to { x_i } else { x_to };
                let y_from = if y_i <= y_to { y_i } else { y_to };
                proof {
                    let k = before.len() + i;
                    lemma_accepted_take::<T, V>(begin, all, k);
                    lemma_accepted_take::<T, V>(begin, all, k + 1);
                    assert(all.take(k + 1).drop_last() =~= all.take(k));
                    assert(all.take(k + 2).drop_last() =~= all.take(k + 1));
                    assert(all.take(k + 2) =~= all);
                }
                visitor.visit_suffix_x(slice_subrange(x, x_from, x_to));
                visitor.visit_suffix_y(slice_subrange(y, y_from, y_to));
            },
        }
        visitor.finish()
    }
}

impl<T> AlignedSequenceView<T> {
    /// The two sequences one after the other, with the payloads of `sep` as
    /// fresh tokens between them; what was deleted adds up.
    pub open spec fn join(self, other: Self, sep: Seq<T>) -> Self {
        AlignedSequenceView {
            num_deleted_x: (self.num_deleted_x + other.num_deleted_x) as usize,
            num_deleted_y: (self.num_deleted_y + other.num_deleted_y) as usize,
            value: self.value + fresh_tokens(sep) + other.value,
        }
    }
}

/// Appends the tokens of `more` to `buf`.
fn append_tokens<T: Copy>(buf: &mut Vec<T>, more: &[T])
    ensures
        final(buf)@ == old(buf)@ + more@,
{
    let mut i: usize = 0;
    while i < more.len()
        invariant
            i <= more.len(),
            buf@ == old(buf)@ + more@.take(i as int),
        decreases more.len() - i,
    {
        buf.push(more[i]);
        i += 1;
        assert(buf@ =~= old(buf)@ + more@.take(i as int));
    }
    assert(more@.take(i as int) =~= more@);
}

impl<T: Copy> Clone for AlignedSequence<T> {
    fn clone(&self) -> (copy: Self)
        ensures
            copy@ == self@,
    {
        let mut value: Vec<AlignedToken<T>> = Vec::new();
        append_tokens(&mut value, self.value.as_slice());
        assert(value@ =~= self.value@);
        AlignedSequence {
            num_deleted_x: self.num_deleted_x,
            num_deleted_y: self.num_deleted_y,
            value,
        }
    }
}

impl<T: Copy> AlignedSequence<T> {
    /// This sequence followed by `other`, with the payloads of `sep`, if
    /// any, as fresh tokens between the two. The counters add up: none of
    /// them gets smaller.
    pub fn join(&self, other: &Self, sep: Option<&[T]>) -> (joined: Self)
        requires
            self.num_deleted_x + other.num_deleted_x <= usize::MAX,
            self.num_deleted_y + other.num_deleted_y <= usize::MAX,
        ensures
            joined@ == self@.join(
                other@,
                match sep {
                    Some(payloads) => payloads@,
                    None => Seq::empty(),
                },
            ),
    {
        let mut value: Vec<AlignedToken<T>> = Vec::new();
        append_tokens(&mut value, self.value.as_slice());
        match sep {
            Some(payloads) => {
                let mut i: usize = 0;
                while i < payloads.len()
                    invariant
                        i <= payloads.len(),
                        value@ == self.value@ + fresh_tokens(payloads@.take(i as int)),
                    decreases payloads.len() - i,
                {
                    value.push(AlignedToken::new(payloads[i]));
                    i += 1;
                    assert(value@ =~= self.value@ + fresh_tokens(payloads@.take(i as int)));
                }
                assert(payloads@.take(i as int) =~= payloads@);
            },
            None => {
                assert(value@ =~= self.value@ + fresh_tokens(Seq::<T>::empty()));
            },
        }
        append_tokens(&mut value, other.value.as_slice());
        AlignedSequence {
            num_deleted_x: self.num_deleted_x + other.num_deleted_x,
            num_deleted_y: self.num_deleted_y + other.num_deleted_y,
            value,
        }
    }
}

/// Merges two plain sequences along their alignment: what only one of them
/// has is kept but for the tokens of y that x lacks inside the aligned
/// region, a match keeps the token of x and a substitution that of y.
#[derive(Debug)]
pub struct AlignmentMergeVisitor<T> {
    buf: Vec<T>,
}

impl<T> View for AlignmentMergeVisitor<T> {
    type V = Seq<T>;

    closed spec fn view(&self) -> Seq<T> {
        self.buf@
    }
}

impl<T> Default for AlignmentMergeVisitor<T> {
    fn default() -> (visitor: Self)
        ensures
            visitor@ == Seq::<T>::empty(),
    {
        Self { buf: Vec::new() }
    }
}

impl<T: Copy> Clone for AlignmentMergeVisitor<T> {
    fn clone(&self) -> (copy: Self)
        ensures
            copy@ == self@,
    {
        let mut buf: Vec<T> = Vec::new();
        append_tokens(&mut buf, self.buf.as_slice());
        assert(buf@ =~= self.buf@);
        Self { buf }
    }
}

impl<T: Copy> AlignmentVisitor<T> for AlignmentMergeVisitor<T> {
    type Output = Vec<T>;

    open spec fn accepts(state: Seq<T>, event: AlignmentEvent<T>) -> bool {
        true
    }

    open spec fn step(state: Seq<T>, event: AlignmentEvent<T>) -> Seq<T> {
        match event {
            AlignmentEvent::PrefixX(tokens)
            | AlignmentEvent::PrefixY(tokens)
            | AlignmentEvent::Xclip(tokens)
            | AlignmentEvent::Yclip(tokens)
            | AlignmentEvent::SuffixX(tokens)
            | AlignmentEvent::SuffixY(tokens) => state + tokens,
            AlignmentEvent::Match(x, _) => state.push(x),
            AlignmentEvent::Subst(_, y) => state.push(y),
            AlignmentEvent::Del(_) => state,
            AlignmentEvent::Ins(x) => state.push(x),
        }
    }

    open spec fn outcome(state: Seq<T>) -> Seq<T> {
        state
    }

    fn visit_prefix_x(&mut self, x: &[T]) {
        append_tokens(&mut self.buf, x)
    }

    fn visit_prefix_y(&mut self, y: &[T]) {
        append_tokens(&mut self.buf, y)
    }

    fn visit_match(&mut self, x: &T, y: &T) {
        self.buf.push(*x)
    }

    fn visit_subst(&mut self, x: &T, y: &T) {
        self.buf.push(*y)
    }

    fn visit_del(&mut self, y: &T) {
    }

    fn visit_ins(&mut self, x: &T) {
        self.buf.push(*x)
    }

    fn visit_xclip(&mut self, x: &[T]) {
        self.visit_prefix_x(x)
    }

    fn visit_yclip(&mut self, y: &[T]) {
        self.visit_prefix_y(y)
    }

    fn visit_suffix_x(&mut self, x: &[T]) {
        self.visit_prefix_x(x)
    }

    fn visit_suffix_y(&mut self, y: &[T]) {
        self.visit_prefix_y(y)
    }

    fn finish(self) -> (out: Vec<T>) {
        self.buf
    }
}

/// Neither counter gets smaller when two sequences are joined.
pub proof fn lemma_join_keeps_counters<T>(
    a: AlignedSequenceView<T>,
    b: AlignedSequenceView<T>,
    sep: Seq<T>,
)
    requires
        a.num_deleted_x + b.num_deleted_x <= usize::MAX,
        a.num_deleted_y + b.num_deleted_y <= usize::MAX,
    ensures
        a.join(b, sep).num_deleted_x >= a.num_deleted_x,
        a.join(b, sep).num_deleted_x >= b.num_deleted_x,
        a.join(b, sep).num_deleted_y >= a.num_deleted_y,
        a.join(b, sep).num_deleted_y >= b.num_deleted_y,
{
}

/// Reduces many sequences to one.
///
/// `I` is what is reduced and `V` the visitor that merges two of them along
/// their alignment. Each reducer says of itself what it asks of its inputs
/// and what it hands out.
pub trait MultipleSequenceAlignment<I, V: View> {
    type Output;

    /// What the reducer asks of the scores and of the visitor.
    spec fn admits(&self, scoring: Scoring) -> bool;

    /// Whether `out` is what the reducer makes of `inputs`.
    spec fn reduced(
        &self,
        scoring: Scoring,
        visitor: V::V,
        inputs: Seq<I>,
        out: Option<Self::Output>,
    ) -> bool;

    /// Reduces `inputs` to one sequence, or to nothing where there is none.
    fn reduce_all(&self, scoring: &Scoring, visitor: V, inputs: Vec<I>) -> (out: Option<
        Self::Output,
    >)
        requires
            self.admits(*scoring),
        ensures
            self.reduced(*scoring, visitor@, inputs@, out),
    ;
}

} // verus!
