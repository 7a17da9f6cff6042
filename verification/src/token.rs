//! Token payloads, and the visitor that merges two consolidated sequences
//! along an alignment.

use crate::alignment::{
    cursor_after, lemma_cursor_in_range, lemma_operation_events_len, lemma_walk_take,
    operation_events, operations_fit, skip, Alignment, AlignmentEvent, AlignmentMode,
    AlignmentOperation, AlignmentView, Cursor,
};
use crate::msa::{
    accepted, lemma_accepted_take, run, AlignedSequence, AlignedSequenceView, AlignedToken,
    AlignmentVisitor,
};
use std::time::Duration;
use vstd::prelude::*;
use vstd::std_specs::cmp::PartialEqSpecImpl;

verus! {

/// A payload that can stand in a sequence to be aligned.
///
/// `same` is the identity that alignment goes by. It has to be symmetric and
/// transitive, so that tokens fall into classes that can be numbered.
pub trait Token: Copy {
    /// Whether the two payloads are the same token.
    spec fn same(self, other: Self) -> bool;

    proof fn same_symmetric(a: Self, b: Self)
        requires
            a.same(b),
        ensures
            b.same(a),
    ;

    proof fn same_transitive(a: Self, b: Self, c: Self)
        requires
            a.same(b),
            b.same(c),
        ensures
            a.same(c),
    ;

    fn is_same(&self, other: &Self) -> (r: bool)
        ensures
            r == self.same(*other),
    ;
}

impl Token for char {
    open spec fn same(self, other: Self) -> bool {
        self == other
    }

    proof fn same_symmetric(a: Self, b: Self) {
    }

    proof fn same_transitive(a: Self, b: Self, c: Self) {
    }

    fn is_same(&self, other: &Self) -> (r: bool) {
        *self == *other
    }
}

impl Token for u8 {
    open spec fn same(self, other: Self) -> bool {
        self == other
    }

    proof fn same_symmetric(a: Self, b: Self) {
    }

    proof fn same_transitive(a: Self, b: Self, c: Self) {
    }

    fn is_same(&self, other: &Self) -> (r: bool) {
        *self == *other
    }
}

/// A recognised token with the interval in which it was heard.
///
/// Only `id` identifies the token; the two times are carried along.
#[derive(Clone, Copy, Debug)]
pub struct TokenData {
    pub id: i32,
    pub t0: Duration,
    pub t1: Duration,
}

/// Two recognised tokens are equal where their ids are.
impl PartialEq for TokenData {
    fn eq(&self, other: &Self) -> (r: bool) {
        self.id == other.id
    }
}

impl Eq for TokenData {

}

impl PartialEqSpecImpl for TokenData {
    open spec fn obeys_eq_spec() -> bool {
        true
    }

    open spec fn eq_spec(&self, other: &Self) -> bool {
        self.id == other.id
    }
}

impl Token for TokenData {
    open spec fn same(self, other: Self) -> bool {
        self.id == other.id
    }

    proof fn same_symmetric(a: Self, b: Self) {
    }

    proof fn same_transitive(a: Self, b: Self, c: Self) {
    }

    fn is_same(&self, other: &Self) -> (r: bool) {
        self.id == other.id
    }
}

/// How a token came into the merged sequence.
#[derive(Clone, Copy, Debug)]
enum AlignmentTokenOp<T> {
    Prefix,
    Match,
    Subst { other: T },
    Del,
    Ins,
}

/// A token of the merge in progress.
#[derive(Clone, Copy, Debug)]
struct AlignmentToken<T> {
    data: T,
    op: AlignmentTokenOp<T>,
}

/// The tokens of `buf` that stay: all but the deleted ones.
spec fn kept<T>(buf: Seq<AlignmentToken<T>>) -> Seq<T>
    decreases buf.len(),
{
    if buf.len() == 0 {
        Seq::empty()
    } else if buf.last().op is Del {
        kept(buf.drop_last())
    } else {
        kept(buf.drop_last()).push(buf.last().data)
    }
}

proof fn lemma_kept_push<T>(buf: Seq<AlignmentToken<T>>, token: AlignmentToken<T>)
    ensures
        kept(buf.push(token)) == if token.op is Del {
            kept(buf)
        } else {
            kept(buf).push(token.data)
        },
{
    assert(buf.push(token).drop_last() =~= buf);
}

/// Merges x, the sequence consolidated so far, with y, the new one, along
/// their alignment.
///
/// x is kept where the two do not meet: what lies before the aligned region
/// stays, what lies behind it is dropped. Of y it is the other way round.
/// Inside the region a match confirms the token, and of two different tokens
/// the one confirmed more often stays, that of y where both are confirmed
/// alike: the newer evidence is trusted, but only by that margin.
#[derive(Debug)]
pub struct AlignmentTokenMergeVisitor<T> {
    buf: Vec<AlignmentToken<T>>,
    num_deleted_x: usize,
    num_deleted_y: usize,
    allow_token_deletion: bool,
}

/// The short name of the visitor that merges aligned tokens of payload `T`.
pub type Merger<T> = AlignmentTokenMergeVisitor<AlignedToken<T>>;

/// The state of a merge: what has been merged so far, and whether a token of
/// y that x lacks is dropped.
pub struct TokenMergeState<T> {
    pub allow_token_deletion: bool,
    pub merged: AlignedSequenceView<T>,
}

impl<T> View for AlignmentTokenMergeVisitor<AlignedToken<T>> {
    type V = TokenMergeState<T>;

    closed spec fn view(&self) -> TokenMergeState<T> {
        TokenMergeState {
            allow_token_deletion: self.allow_token_deletion,
            merged: AlignedSequenceView {
                num_deleted_x: self.num_deleted_x,
                num_deleted_y: self.num_deleted_y,
                value: kept(self.buf@),
            },
        }
    }
}

impl<T> TokenMergeState<T> {
    /// The state of a merge that has seen nothing yet.
    pub open spec fn empty(allow_token_deletion: bool) -> Self {
        TokenMergeState {
            allow_token_deletion,
            merged: AlignedSequenceView { num_deleted_x: 0, num_deleted_y: 0, value: Seq::empty() },
        }
    }

    /// The state with `tokens` appended.
    pub open spec fn keep(self, tokens: Seq<AlignedToken<T>>) -> Self {
        TokenMergeState {
            merged: AlignedSequenceView { value: self.merged.value + tokens, ..self.merged },
            ..self
        }
    }

    /// The state with `n` more tokens of x dropped.
    pub open spec fn drop_x(self, n: int) -> Self {
        TokenMergeState {
            merged: AlignedSequenceView {
                num_deleted_x: (self.merged.num_deleted_x + n) as usize,
                ..self.merged
            },
            ..self
        }
    }

    /// The state with `n` more tokens of y dropped.
    pub open spec fn drop_y(self, n: int) -> Self {
        TokenMergeState {
            merged: AlignedSequenceView {
                num_deleted_y: (self.merged.num_deleted_y + n) as usize,
                ..self.merged
            },
            ..self
        }
    }

    /// Whether `n` more tokens of x can be counted as dropped.
    pub open spec fn can_drop_x(self, n: int) -> bool {
        self.merged.num_deleted_x + n <= usize::MAX
    }

    /// Whether `n` more tokens of y can be counted as dropped.
    pub open spec fn can_drop_y(self, n: int) -> bool {
        self.merged.num_deleted_y + n <= usize::MAX
    }
}

/// The token that a match of `x` with `y` leaves: the payload of x, confirmed
/// once more than the more confirmed of the two.
pub open spec fn matched_token<T>(x: AlignedToken<T>, y: AlignedToken<T>) -> AlignedToken<T> {
    AlignedToken { count: (if x.count >= y.count { x.count } else { y.count } + 1) as u64, data: x.data }
}

impl<T> AlignmentTokenMergeVisitor<AlignedToken<T>> {
    /// A visitor that has seen nothing yet. Where `allow_token_deletion` is
    /// false, a token of y that x lacks is kept as if x had it.
    pub fn new(allow_token_deletion: bool) -> (visitor: Self)
        ensures
            visitor@ == TokenMergeState::<T>::empty(allow_token_deletion),
    {
        Self { buf: Vec::new(), num_deleted_x: 0, num_deleted_y: 0, allow_token_deletion }
    }
}

impl<T> Default for AlignmentTokenMergeVisitor<AlignedToken<T>> {
    fn default() -> (visitor: Self)
        ensures
            visitor@ == TokenMergeState::<T>::empty(true),
    {
        Self::new(true)
    }
}

impl<T: Copy> Clone for AlignmentTokenMergeVisitor<AlignedToken<T>> {
    fn clone(&self) -> (copy: Self)
        ensures
            copy@ == self@,
    {
        let mut buf: Vec<AlignmentToken<AlignedToken<T>>> = Vec::new();
        let mut i: usize = 0;
        while i < self.buf.len()
            invariant
                i <= self.buf.len(),
                buf@ == self.buf@.take(i as int),
            decreases self.buf.len() - i,
        {
            buf.push(self.buf[i]);
            i += 1;
            assert(buf@ =~= self.buf@.take(i as int));
        }
        assert(self.buf@.take(i as int) =~= self.buf@);
        Self {
            buf,
            num_deleted_x: self.num_deleted_x,
            num_deleted_y: self.num_deleted_y,
            allow_token_deletion: self.allow_token_deletion,
        }
    }
}

impl<T: Copy> AlignmentTokenMergeVisitor<AlignedToken<T>> {
    fn keep(&mut self, tokens: &[AlignedToken<T>], op: AlignmentTokenOp<AlignedToken<T>>)
        requires
            !(op is Del),
        ensures
            final(self)@ == old(self)@.keep(tokens@),
    {
        let mut i: usize = 0;
        while i < tokens.len()
            invariant
                i <= tokens.len(),
                !(op is Del),
                self@ == old(self)@.keep(tokens@.take(i as int)),
            decreases tokens.len() - i,
        {
            proof {
                lemma_kept_push(self.buf@, AlignmentToken { data: tokens[i as int], op });
            }
            self.buf.push(AlignmentToken { data: tokens[i], op });
            i += 1;
            assert(old(self)@.merged.value + tokens@.take(i as int) =~= (old(self)@.merged.value
                + tokens@.take(i - 1)).push(tokens[i - 1]));
        }
        assert(tokens@.take(i as int) =~= tokens@);
    }
}

impl<T: Copy> AlignmentVisitor<AlignedToken<T>> for AlignmentTokenMergeVisitor<AlignedToken<T>> {
    type Output = AlignedSequence<T>;

    open spec fn accepts(state: Self::V, event: AlignmentEvent<AlignedToken<T>>) -> bool {
        match event {
            AlignmentEvent::PrefixX(_) | AlignmentEvent::Xclip(_) => true,
            AlignmentEvent::PrefixY(ys) | AlignmentEvent::Yclip(ys) => state.can_drop_y(
                ys.len() as int,
            ),
            AlignmentEvent::Match(x, y) => x.count < u64::MAX && y.count < u64::MAX,
            AlignmentEvent::Subst(x, y) => if x.count > y.count {
                state.can_drop_y(1)
            } else {
                state.can_drop_x(1)
            },
            AlignmentEvent::Del(_) => state.allow_token_deletion ==> state.can_drop_x(1),
            AlignmentEvent::Ins(_) => true,
            AlignmentEvent::SuffixX(xs) => state.can_drop_x(xs.len() as int),
            AlignmentEvent::SuffixY(_) => true,
        }
    }

    open spec fn step(state: Self::V, event: AlignmentEvent<AlignedToken<T>>) -> Self::V {
        match event {
            AlignmentEvent::PrefixX(xs) | AlignmentEvent::Xclip(xs) => state.keep(xs),
            AlignmentEvent::PrefixY(ys) | AlignmentEvent::Yclip(ys) => state.drop_y(
                ys.len() as int,
            ),
            AlignmentEvent::Match(x, y) => state.keep(seq![matched_token(x, y)]),
            AlignmentEvent::Subst(x, y) => if x.count > y.count {
                state.drop_y(1).keep(seq![x])
            } else {
                state.drop_x(1).keep(seq![y])
            },
            AlignmentEvent::Del(y) => if state.allow_token_deletion {
                state.drop_x(1)
            } else {
                state.keep(seq![y])
            },
            AlignmentEvent::Ins(x) => state.keep(seq![x]),
            AlignmentEvent::SuffixX(xs) => state.drop_x(xs.len() as int),
            AlignmentEvent::SuffixY(ys) => state.keep(ys),
        }
    }

    open spec fn outcome(state: Self::V) -> AlignedSequenceView<T> {
        state.merged
    }

    fn visit_prefix_x(&mut self, x: &[AlignedToken<T>]) {
        self.keep(x, AlignmentTokenOp::Prefix)
    }

    fn visit_prefix_y(&mut self, y: &[AlignedToken<T>]) {
        self.num_deleted_y = self.num_deleted_y + y.len();
    }

    fn visit_match(&mut self, x: &AlignedToken<T>, y: &AlignedToken<T>) {
        let count = if x.count >= y.count { x.count } else { y.count };
        let token = AlignmentToken {
            data: AlignedToken { count: count + 1, data: x.data },
            op: AlignmentTokenOp::Match,
        };
        proof {
            lemma_kept_push(self.buf@, token);
            assert(self@.merged.value + seq![token.data] =~= self@.merged.value.push(token.data));
        }
        self.buf.push(token);
    }

    fn visit_subst(&mut self, x: &AlignedToken<T>, y: &AlignedToken<T>) {
        let token = if x.count > y.count {
            self.num_deleted_y = self.num_deleted_y + 1;
            AlignmentToken { data: *x, op: AlignmentTokenOp::Subst { other: *y } }
        } else {
            self.num_deleted_x = self.num_deleted_x + 1;
            AlignmentToken { data: *y, op: AlignmentTokenOp::Subst { other: *x } }
        };
        proof {
            lemma_kept_push(self.buf@, token);
            assert(self@.merged.value + seq![token.data] =~= self@.merged.value.push(token.data));
        }
        self.buf.push(token);
    }

    fn visit_del(&mut self, y: &AlignedToken<T>) {
        let token = if self.allow_token_deletion {
            self.num_deleted_x = self.num_deleted_x + 1;
            AlignmentToken { data: *y, op: AlignmentTokenOp::Del }
        } else {
            AlignmentToken { data: *y, op: AlignmentTokenOp::Ins }
        };
        proof {
            lemma_kept_push(self.buf@, token);
            assert(self@.merged.value + seq![token.data] =~= self@.merged.value.push(token.data));
        }
        self.buf.push(token);
    }

    fn visit_ins(&mut self, x: &AlignedToken<T>) {
        let token = AlignmentToken { data: *x, op: AlignmentTokenOp::Ins };
        proof {
            lemma_kept_push(self.buf@, token);
            assert(self@.merged.value + seq![token.data] =~= self@.merged.value.push(token.data));
        }
        self.buf.push(token);
    }

    fn visit_xclip(&mut self, x: &[AlignedToken<T>]) {
        self.visit_prefix_x(x)
    }

    fn visit_yclip(&mut self, y: &[AlignedToken<T>]) {
        self.visit_prefix_y(y)
    }

    fn visit_suffix_x(&mut self, x: &[AlignedToken<T>]) {
        self.num_deleted_x = self.num_deleted_x + x.len();
    }

    fn visit_suffix_y(&mut self, y: &[AlignedToken<T>]) {
        self.keep(y, AlignmentTokenOp::Ins)
    }

    fn finish(self) -> (out: AlignedSequence<T>) {
        let mut value: Vec<AlignedToken<T>> = Vec::new();
        let mut i: usize = 0;
        while i < self.buf.len()
            invariant
                i <= self.buf.len(),
                value@ == kept(self.buf@.take(i as int)),
            decreases self.buf.len() - i,
        {
            proof {
                assert(self.buf@.take(i + 1) =~= self.buf@.take(i as int).push(self.buf[i as int]));
                lemma_kept_push(self.buf@.take(i as int), self.buf[i as int]);
            }
            match self.buf[i].op {
                AlignmentTokenOp::Del => {},
                _ => {
                    value.push(self.buf[i].data);
                },
            }
            i += 1;
        }
        assert(self.buf@.take(i as int) =~= self.buf@);
        AlignedSequence {
            value,
            num_deleted_x: self.num_deleted_x,
            num_deleted_y: self.num_deleted_y,
        }
    }
}

impl<T: Copy> AlignmentTokenMergeVisitor<AlignedToken<T>> {
    /// Whether `alignment` can be walked over `x` and `y` with this visitor:
    /// the trace fits the two sequences, no count and no counter overflows.
    pub fn can_merge(&self, alignment: &Alignment, x: &[AlignedToken<T>], y: &[AlignedToken<T>])
        -> (ok: bool)
        ensures
            ok == (alignment@.fits(x@.len() as int, y@.len() as int) && accepted::<
                AlignedToken<T>,
                Self,
            >(self@, alignment@.events(x@, y@))),
    {
        let xn = x.len();
        let yn = y.len();
        if !alignment.fits(xn, yn) {
            return false;
        }
        let ghost begin = self@;
        let ghost start = alignment@.start(xn as int, yn as int);
        let ghost ops = alignment.operations@;
        let ghost all = alignment@.events(x@, y@);
        let ghost before = alignment@.prefix_events(x@, y@);
        let ghost walk = operation_events(ops, start, x@, y@);
        proof {
            lemma_operation_events_len(ops, start, x@, y@);
            assert(all.take(0) =~= Seq::empty());
        }
        let mut nx: usize = self.num_deleted_x;
        let mut ny: usize = self.num_deleted_y;
        let mut x_i: usize = 0;
        let mut y_i: usize = 0;
        match alignment.mode {
            AlignmentMode::Custom => {},
            _ => {
                x_i = if alignment.xstart <= xn { alignment.xstart } else { xn };
                y_i = if alignment.ystart <= yn { alignment.ystart } else { yn };
                proof {
                    assert(all.take(1).drop_last() =~= all.take(0));
                    assert(all.take(2).drop_last() =~= all.take(1));
                    if accepted::<AlignedToken<T>, Self>(begin, all) {
                        lemma_accepted_take::<AlignedToken<T>, Self>(begin, all, 1);
                    }
                    assert(all[0] == before[0]);
                    assert(all[1] == before[1]);
                    assert(all.take(1).last() == all[0]);
                    assert(all.take(2).last() == all[1]);
                    assert(run::<AlignedToken<T>, Self>(begin, all.take(0)) == begin);
                    assert(run::<AlignedToken<T>, Self>(begin, all.take(1)) == Self::step(
                        begin,
                        all[0],
                    ));
                    assert(accepted::<AlignedToken<T>, Self>(begin, all.take(0)));
                    assert(accepted::<AlignedToken<T>, Self>(begin, all.take(1)));
                }
                if y_i > usize::MAX - ny {
                    return false;
                }
                ny = ny + y_i;
                proof {
                    assert(run::<AlignedToken<T>, Self>(begin, all.take(2)) == Self::step(
                        run::<AlignedToken<T>, Self>(begin, all.take(1)),
                        all[1],
                    ));
                    assert(accepted::<AlignedToken<T>, Self>(begin, all.take(2)));
                }
            },
        }
        let mut i: usize = 0;
        while i < alignment.operations.len()
            invariant
                i <= ops.len(),
                ops == alignment.operations@,
                xn == x@.len(),
                yn == y@.len(),
                x_i <= xn,
                y_i <= yn,
                begin == self@,
                start == alignment@.start(xn as int, yn as int),
                all == alignment@.events(x@, y@),
                before == alignment@.prefix_events(x@, y@),
                walk == operation_events(ops, start, x@, y@),
                walk.len() == ops.len(),
                operations_fit(ops, start, xn as int, yn as int),
                cursor_after(ops.take(i as int), start, xn as int, yn as int) == (Cursor {
                    x: x_i as int,
                    y: y_i as int,
                }),
                accepted::<AlignedToken<T>, Self>(begin, all.take(before.len() + i)),
                run::<AlignedToken<T>, Self>(begin, all.take(before.len() + i)).allow_token_deletion
                    == self.allow_token_deletion,
                run::<AlignedToken<T>, Self>(
                    begin,
                    all.take(before.len() + i),
                ).merged.num_deleted_x == nx,
                run::<AlignedToken<T>, Self>(
                    begin,
                    all.take(before.len() + i),
                ).merged.num_deleted_y == ny,
            decreases ops.len() - i,
        {
            proof {
                let k = before.len() + i;
                lemma_walk_take(ops, start, x@, y@, i as int);
                assert(all[k] == walk[i as int]);
                assert(all.take(k + 1).drop_last() =~= all.take(k));
                if accepted::<AlignedToken<T>, Self>(begin, all) {
                    lemma_accepted_take::<AlignedToken<T>, Self>(begin, all, k);
                }
            }
            let ok = match alignment.operations[i] {
                AlignmentOperation::Match => {
                    let ok = x[x_i].count < u64::MAX && y[y_i].count < u64::MAX;
                    x_i += 1;
                    y_i += 1;
                    ok
                },
                AlignmentOperation::Subst => {
                    let ok = if x[x_i].count > y[y_i].count {
                        if ny < usize::MAX {
                            ny = ny + 1;
                            true
                        } else {
                            false
                        }
                    } else {
                        if nx < usize::MAX {
                            nx = nx + 1;
                            true
                        } else {
                            false
                        }
                    };
                    x_i += 1;
                    y_i += 1;
                    ok
                },
                AlignmentOperation::Del => {
                    y_i += 1;
                    if self.allow_token_deletion {
                        if nx < usize::MAX {
                            nx = nx + 1;
                            true
                        } else {
                            false
                        }
                    } else {
                        true
                    }
                },
                AlignmentOperation::Ins => {
                    x_i += 1;
                    true
                },
                AlignmentOperation::Xclip(n) => {
                    x_i = skip(x_i, n, xn);
                    true
                },
                AlignmentOperation::Yclip(n) => {
                    y_i = skip(y_i, n, yn);
                    let n = if n <= yn { n } else { yn };
                    if n <= usize::MAX - ny {
                        ny = ny + n;
                        true
                    } else {
                        false
                    }
                },
            };
            if !ok {
                return false;
            }
            i += 1;
        }
        proof {
            assert(ops.take(i as int) =~= ops);
        }
        match alignment.mode {
            AlignmentMode::Custom => {
                proof {
                    assert(before.len() == 0);
                    assert(all.len() == walk.len());
                    assert(all.take(before.len() + i) =~= all);
                    assert(accepted::<AlignedToken<T>, Self>(begin, all));
                }
                true
            },
            _ => {
                let x_to = if alignment.xlen <= xn { alignment.xlen } else { xn };
                let x_from = if x_i <= x_to { x_i } else { x_to };
                proof {
                    let k = before.len() + i;
                    assert(all.take(k + 1).drop_last() =~= all.take(k));
                    assert(all.take(k + 2).drop_last() =~= all.take(k + 1));
                    assert(all.take(k + 2) =~= all);
                    let after = alignment@.suffix_events(x@, y@);
                    assert(all[k] == after[0]);
                    assert(all[k + 1] == after[1]);
                    assert(all.take(k + 1).last() == all[k]);
                    assert(all.take(k + 2).last() == all[k + 1]);
                    assert(x@.subrange(x_from as int, x_to as int).len() == x_to - x_from);
                    assert(accepted::<AlignedToken<T>, Self>(begin, all) == accepted::<
                        AlignedToken<T>,
                        Self,
                    >(begin, all.take(k + 1)));
                }
                x_to - x_from <= usize::MAX - nx
            },
        }
    }
}

/// What `event` adds to the counter of x.
pub open spec fn dropped_of_x<T>(allow_token_deletion: bool, event: AlignmentEvent<AlignedToken<T>>)
    -> nat {
    match event {
        AlignmentEvent::SuffixX(xs) => xs.len(),
        AlignmentEvent::Del(_) => if allow_token_deletion {
            1
        } else {
            0
        },
        AlignmentEvent::Subst(x, y) => if x.count > y.count {
            0
        } else {
            1
        },
        _ => 0,
    }
}

/// What `event` adds to the counter of y.
pub open spec fn dropped_of_y<T>(event: AlignmentEvent<AlignedToken<T>>) -> nat {
    match event {
        AlignmentEvent::PrefixY(ys) | AlignmentEvent::Yclip(ys) => ys.len(),
        AlignmentEvent::Subst(x, y) => if x.count > y.count {
            1
        } else {
            0
        },
        _ => 0,
    }
}

/// What `events` add to the counter of x: the tokens of x behind the aligned
/// region, one for each token of y that is set against a gap of x and
/// dropped, and one for each token of x that a token of y replaces which is
/// confirmed as often or more.
pub open spec fn all_dropped_of_x<T>(
    allow_token_deletion: bool,
    events: Seq<AlignmentEvent<AlignedToken<T>>>,
) -> nat
    decreases events.len(),
{
    if events.len() == 0 {
        0
    } else {
        all_dropped_of_x(allow_token_deletion, events.drop_last()) + dropped_of_x(
            allow_token_deletion,
            events.last(),
        )
    }
}

/// What `events` add to the counter of y: the tokens of y before the aligned
/// region, and one for each token of y that a more confirmed token of x
/// replaces.
pub open spec fn all_dropped_of_y<T>(events: Seq<AlignmentEvent<AlignedToken<T>>>) -> nat
    decreases events.len(),
{
    if events.len() == 0 {
        0
    } else {
        all_dropped_of_y(events.drop_last()) + dropped_of_y(events.last())
    }
}

/// The counters of a merge grow by what the events add to them, and by
/// nothing else. So neither of them ever gets smaller.
pub proof fn lemma_deletion_accounting<T: Copy>(
    state: TokenMergeState<T>,
    events: Seq<AlignmentEvent<AlignedToken<T>>>,
)
    requires
        accepted::<AlignedToken<T>, Merger<T>>(state, events),
    ensures
        run::<AlignedToken<T>, Merger<T>>(state, events).allow_token_deletion
            == state.allow_token_deletion,
        run::<AlignedToken<T>, Merger<T>>(state, events).merged.num_deleted_x
            == state.merged.num_deleted_x + all_dropped_of_x(state.allow_token_deletion, events),
        run::<AlignedToken<T>, Merger<T>>(state, events).merged.num_deleted_y
            == state.merged.num_deleted_y + all_dropped_of_y(events),
    decreases events.len(),
{
    if events.len() > 0 {
        lemma_deletion_accounting(state, events.drop_last());
    }
}

/// A match leaves the payload of x, confirmed once more than the more
/// confirmed of the two tokens.
pub proof fn lemma_match_confirms<T: Copy>(
    state: TokenMergeState<T>,
    x: AlignedToken<T>,
    y: AlignedToken<T>,
)
    requires
        Merger::<T>::accepts(state, AlignmentEvent::Match(x, y)),
    ensures
        Merger::<T>::step(state, AlignmentEvent::Match(x, y)).merged.value
            == state.merged.value.push(
            AlignedToken {
                count: (if x.count >= y.count {
                    x.count
                } else {
                    y.count
                } + 1) as u64,
                data: x.data,
            },
        ),
        Merger::<T>::step(state, AlignmentEvent::Match(x, y)).merged.value.last().count
            == if x.count >= y.count {
            x.count + 1
        } else {
            y.count + 1
        },
{
    assert(state.merged.value + seq![matched_token(x, y)] =~= state.merged.value.push(
        matched_token(x, y),
    ));
}

/// Whether each of `tokens` has been confirmed once at least.
pub open spec fn all_confirmed<T>(tokens: Seq<AlignedToken<T>>) -> bool {
    forall|i: int| 0 <= i < tokens.len() ==> (#[trigger] tokens[i]).count >= 1
}

/// Whether each token that `event` shows has been confirmed once at least.
pub open spec fn event_confirmed<T>(event: AlignmentEvent<AlignedToken<T>>) -> bool {
    match event {
        AlignmentEvent::PrefixX(tokens)
        | AlignmentEvent::PrefixY(tokens)
        | AlignmentEvent::Xclip(tokens)
        | AlignmentEvent::Yclip(tokens)
        | AlignmentEvent::SuffixX(tokens)
        | AlignmentEvent::SuffixY(tokens) => all_confirmed(tokens),
        AlignmentEvent::Match(x, y) | AlignmentEvent::Subst(x, y) => x.count >= 1 && y.count >= 1,
        AlignmentEvent::Del(token) | AlignmentEvent::Ins(token) => token.count >= 1,
    }
}

proof fn lemma_operation_events_confirmed<T>(
    operations: Seq<AlignmentOperation>,
    start: Cursor,
    x: Seq<AlignedToken<T>>,
    y: Seq<AlignedToken<T>>,
)
    requires
        0 <= start.x <= x.len(),
        0 <= start.y <= y.len(),
        operations_fit(operations, start, x.len() as int, y.len() as int),
        all_confirmed(x),
        all_confirmed(y),
    ensures
        forall|k: int|
            0 <= k < operation_events(operations, start, x, y).len() ==> event_confirmed(
                #[trigger] operation_events(operations, start, x, y)[k],
            ),
    decreases operations.len(),
{
    if operations.len() > 0 {
        let shorter = operations.drop_last();
        lemma_operation_events_confirmed(shorter, start, x, y);
        lemma_cursor_in_range(shorter, start, x.len() as int, y.len() as int);
        let events = operation_events(operations, start, x, y);
        let at = cursor_after(shorter, start, x.len() as int, y.len() as int);
        assert(event_confirmed(operations.last().event(at, x, y)));
        assert forall|k: int| 0 <= k < events.len() implies event_confirmed(#[trigger] events[k]) by {
            if k < events.len() - 1 {
                assert(events[k] == operation_events(shorter, start, x, y)[k]);
            }
        }
    }
}

proof fn lemma_run_confirmed<T: Copy>(
    state: TokenMergeState<T>,
    events: Seq<AlignmentEvent<AlignedToken<T>>>,
)
    requires
        all_confirmed(state.merged.value),
        accepted::<AlignedToken<T>, Merger<T>>(state, events),
        forall|k: int| 0 <= k < events.len() ==> event_confirmed(#[trigger] events[k]),
    ensures
        all_confirmed(run::<AlignedToken<T>, Merger<T>>(state, events).merged.value),
    decreases events.len(),
{
    if events.len() > 0 {
        let shorter = events.drop_last();
        assert forall|k: int| 0 <= k < shorter.len() implies event_confirmed(#[trigger] shorter[k]) by {
            assert(shorter[k] == events[k]);
        }
        lemma_run_confirmed(state, shorter);
        assert(event_confirmed(events[events.len() - 1]));
    }
}

/// Where every token of x, of y and of what the visitor holds has been
/// confirmed once at least, so has every token of their merge.
pub proof fn lemma_merge_keeps_confirmed<T: Copy>(
    trace: AlignmentView,
    state: TokenMergeState<T>,
    x: Seq<AlignedToken<T>>,
    y: Seq<AlignedToken<T>>,
)
    requires
        trace.fits(x.len() as int, y.len() as int),
        accepted::<AlignedToken<T>, Merger<T>>(state, trace.events(x, y)),
        all_confirmed(state.merged.value),
        all_confirmed(x),
        all_confirmed(y),
    ensures
        all_confirmed(run::<AlignedToken<T>, Merger<T>>(state, trace.events(x, y)).merged.value),
{
    let start = trace.start(x.len() as int, y.len() as int);
    let events = trace.events(x, y);
    let before = trace.prefix_events(x, y);
    let walk = operation_events(trace.operations, start, x, y);
    let after = trace.suffix_events(x, y);
    lemma_operation_events_confirmed(trace.operations, start, x, y);
    lemma_cursor_in_range(trace.operations, start, x.len() as int, y.len() as int);
    assert forall|k: int| 0 <= k < events.len() implies event_confirmed(#[trigger] events[k]) by {
        if k < before.len() {
            assert(events[k] == before[k]);
        } else if k < before.len() + walk.len() {
            assert(events[k] == walk[k - before.len()]);
        } else {
            assert(events[k] == after[k - before.len() - walk.len()]);
        }
    }
    lemma_run_confirmed(state, events);
}

} // verus!
