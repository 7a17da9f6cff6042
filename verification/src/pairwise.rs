//! Pairwise alignment of two token sequences under an affine gap model.
//!
//! The aligner works on bytes. Tokens are numbered by their classes first, so
//! that two bytes are equal exactly where the tokens are the same.

use crate::alignment::{Alignment, AlignmentMode, AlignmentOperation, AlignmentView};
use crate::token::Token;
use bio::alignment::pairwise::{Aligner, Scoring as ByteScoring};
use bio::alignment::AlignmentOperation as ByteOperation;
use vstd::prelude::*;

verus! {

/// The number of the first of `classes` that `token` belongs to, or their
/// count where it belongs to none.
pub open spec fn class_of<T: Token>(classes: Seq<T>, token: T) -> int
    decreases classes.len(),
{
    if classes.len() == 0 {
        0
    } else {
        let first = class_of(classes.drop_last(), token);
        if first < classes.len() - 1 {
            first
        } else if classes.last().same(token) {
            classes.len() - 1
        } else {
            classes.len() as int
        }
    }
}

/// One token of each class of `tokens`, in the order in which the classes
/// first occur: a token stands for a new class where it belongs to none of
/// those before it.
pub open spec fn representatives<T: Token>(tokens: Seq<T>) -> Seq<T>
    decreases tokens.len(),
{
    if tokens.len() == 0 {
        Seq::empty()
    } else {
        let before = representatives(tokens.drop_last());
        if class_of(before, tokens.last()) < before.len() {
            before
        } else {
            before.push(tokens.last())
        }
    }
}

/// The class number of the token at `j` of `y`.
pub open spec fn class_in_y<T: Token>(y: Seq<T>, j: int) -> int {
    class_of(representatives(y.take(j)), y[j])
}

/// The class number of the token at `i` of `x` among the classes of `y`; a
/// token that `y` lacks gets the number behind the last class.
pub open spec fn class_in_x<T: Token>(x: Seq<T>, y: Seq<T>, i: int) -> int {
    class_of(representatives(y), x[i])
}

/// The bytes that stand for `y`.
pub open spec fn symbols_of_y<T: Token>(y: Seq<T>) -> Seq<u8> {
    Seq::new(y.len(), |j: int| class_in_y(y, j) as u8)
}

/// The bytes that stand for `x` when it is aligned against `y`.
pub open spec fn symbols_of_x<T: Token>(x: Seq<T>, y: Seq<T>) -> Seq<u8> {
    Seq::new(x.len(), |i: int| class_in_x(x, y, i) as u8)
}

/// The most classes that `y` can have for the pair to be aligned: one byte
/// value is kept for the tokens of x that y lacks.
pub const MAX_CLASSES: usize = 255;

/// `class_of` is the first class that holds the token.
pub proof fn lemma_class_of<T: Token>(classes: Seq<T>, token: T)
    ensures
        0 <= class_of(classes, token) <= classes.len(),
        class_of(classes, token) < classes.len() ==> classes[class_of(classes, token)].same(token),
        forall|k: int| 0 <= k < class_of(classes, token) ==> !(#[trigger] classes[k]).same(token),
    decreases classes.len(),
{
    if classes.len() > 0 {
        lemma_class_of(classes.drop_last(), token);
        assert forall|k: int| 0 <= k < class_of(classes, token) implies !(#[trigger] classes[k]).same(
            token,
        ) by {
            if k < classes.len() - 1 {
                assert(classes.drop_last()[k] == classes[k]);
            }
        }
    }
}

/// A number with the properties of `class_of` is `class_of`.
pub proof fn lemma_class_of_is<T: Token>(classes: Seq<T>, token: T, c: int)
    requires
        0 <= c <= classes.len(),
        c < classes.len() ==> classes[c].same(token),
        forall|k: int| 0 <= k < c ==> !(#[trigger] classes[k]).same(token),
    ensures
        class_of(classes, token) == c,
{
    lemma_class_of(classes, token);
    let d = class_of(classes, token);
    if d < c {
        assert(!classes[d].same(token));
    } else if c < d {
        assert(!classes[c].same(token));
    }
}

/// The classes of a beginning of `tokens` are the first classes of `tokens`.
pub proof fn lemma_representatives_take<T: Token>(tokens: Seq<T>, n: int)
    requires
        0 <= n <= tokens.len(),
    ensures
        representatives(tokens.take(n)).len() <= representatives(tokens).len(),
        representatives(tokens.take(n)) == representatives(tokens).take(
            representatives(tokens.take(n)).len() as int,
        ),
    decreases tokens.len(),
{
    if n == tokens.len() {
        assert(tokens.take(n) =~= tokens);
        assert(representatives(tokens).take(representatives(tokens).len() as int)
            =~= representatives(tokens));
    } else {
        lemma_representatives_take(tokens.drop_last(), n);
        assert(tokens.drop_last().take(n) =~= tokens.take(n));
        let before = representatives(tokens.drop_last());
        let part = representatives(tokens.take(n));
        assert(representatives(tokens).take(part.len() as int) =~= before.take(part.len() as int));
    }
}

/// Two tokens get the same number exactly where they are the same token.
pub proof fn lemma_classes_agree<T: Token>(x: Seq<T>, y: Seq<T>, i: int, j: int)
    requires
        0 <= i < x.len(),
        0 <= j < y.len(),
    ensures
        class_in_x(x, y, i) == class_in_y(y, j) <==> x[i].same(y[j]),
        0 <= class_in_y(y, j) < representatives(y).len(),
        0 <= class_in_x(x, y, i) <= representatives(y).len(),
{
    let all = representatives(y);
    let before = representatives(y.take(j));
    let c = class_in_y(y, j);
    let d = class_in_x(x, y, i);
    lemma_class_of(before, y[j]);
    lemma_class_of(all, x[i]);
    lemma_representatives_take(y, j + 1);
    assert(y.take(j + 1).drop_last() =~= y.take(j));
    let with_j = representatives(y.take(j + 1));
    assert(c < with_j.len());
    assert(all[c] == with_j[c]);
    assert forall|k: int| 0 <= k < c implies !(#[trigger] all[k]).same(y[j]) by {
        assert(all[k] == with_j[k]);
        assert(with_j[k] == before[k]);
    }
    if x[i].same(y[j]) {
        T::same_symmetric(x[i], y[j]);
        if c < before.len() {
            assert(all[c] == before[c]);
            T::same_transitive(all[c], y[j], x[i]);
        }
        assert forall|k: int| 0 <= k < c implies !(#[trigger] all[k]).same(x[i]) by {
            if all[k].same(x[i]) {
                T::same_transitive(all[k], x[i], y[j]);
            }
        }
        lemma_class_of_is(all, x[i], c);
    }
    if d == c {
        T::same_symmetric(all[c], x[i]);
        if c < before.len() {
            assert(all[c] == before[c]);
            T::same_transitive(x[i], all[c], y[j]);
        }
    }
}

/// Where the classes of `y` can be numbered by bytes, the byte of a token of
/// `x` and that of a token of `y` are equal exactly where the two are the
/// same token. The aligner, which tells matches from mismatches by the
/// bytes, so sees the columns as the tokens have them.
pub proof fn lemma_symbols_agree<T: Token>(x: Seq<T>, y: Seq<T>, i: int, j: int)
    requires
        0 <= i < x.len(),
        0 <= j < y.len(),
        representatives(y).len() <= MAX_CLASSES,
    ensures
        symbols_of_x(x, y)[i] == symbols_of_y(y)[j] <==> x[i].same(y[j]),
{
    lemma_classes_agree(x, y, i, j);
}

/// The number of the first of `classes` that `token` belongs to.
fn find_class<T: Token>(classes: &Vec<T>, token: &T) -> (c: usize)
    ensures
        c == class_of(classes@, *token),
{
    let mut k: usize = 0;
    while k < classes.len()
        invariant
            k <= classes.len(),
            forall|m: int| 0 <= m < k ==> !(#[trigger] classes@[m]).same(*token),
        decreases classes.len() - k,
    {
        if classes[k].is_same(token) {
            proof {
                lemma_class_of_is(classes@, *token, k as int);
            }
            return k;
        }
        k += 1;
    }
    proof {
        lemma_class_of_is(classes@, *token, k as int);
    }
    k
}

/// The bytes that stand for `x` and for `y` when x is aligned against y, or
/// nothing where `y` has more classes than a byte can number.
pub fn encode<T: Token>(x: &[T], y: &[T]) -> (symbols: Option<(Vec<u8>, Vec<u8>)>)
    ensures
        symbols is Some <==> representatives(y@).len() <= MAX_CLASSES,
        symbols matches Some((sx, sy)) ==> sx@ == symbols_of_x(x@, y@) && sy@ == symbols_of_y(y@),
{
    let mut classes: Vec<T> = Vec::new();
    let mut sy: Vec<u8> = Vec::new();
    let mut j: usize = 0;
    while j < y.len()
        invariant
            j <= y.len(),
            classes@ == representatives(y@.take(j as int)),
            classes.len() <= MAX_CLASSES,
            sy@ == symbols_of_y(y@).take(j as int),
        decreases y.len() - j,
    {
        let c = find_class(&classes, &y[j]);
        proof {
            lemma_class_of(classes@, y@[j as int]);
            assert(y@.take(j + 1).drop_last() =~= y@.take(j as int));
            lemma_representatives_take(y@, j + 1);
        }
        if c == classes.len() {
            if classes.len() == MAX_CLASSES {
                return None;
            }
            classes.push(y[j]);
        }
        sy.push(c as u8);
        j += 1;
        assert(sy@ =~= symbols_of_y(y@).take(j as int));
    }
    assert(y@.take(j as int) =~= y@);
    assert(symbols_of_y(y@).take(j as int) =~= symbols_of_y(y@));
    let mut sx: Vec<u8> = Vec::new();
    let mut i: usize = 0;
    while i < x.len()
        invariant
            i <= x.len(),
            classes@ == representatives(y@),
            classes.len() <= MAX_CLASSES,
            sx@ == symbols_of_x(x@, y@).take(i as int),
        decreases x.len() - i,
    {
        let c = find_class(&classes, &x[i]);
        proof {
            lemma_class_of(classes@, x@[i as int]);
        }
        sx.push(c as u8);
        i += 1;
        assert(sx@ =~= symbols_of_x(x@, y@).take(i as int));
    }
    assert(symbols_of_x(x@, y@).take(i as int) =~= symbols_of_x(x@, y@));
    Some((sx, sy))
}

/// The scores of an affine gap model: a gap of `k` tokens costs
/// `gap_open + k * gap_extend`, a column of two tokens scores `match_score`
/// where they are the same token and `mismatch_score` where they are not.
#[derive(Clone, Copy, Debug)]
pub struct Scoring {
    pub gap_open: i32,
    pub gap_extend: i32,
    pub match_score: i32,
    pub mismatch_score: i32,
}

/// The largest product of a score and a sequence length plus two for which
/// the sums of the aligner stay inside 32 bits.
pub const MAX_SCORE_RANGE: u64 = 0x2000_0000;

pub open spec fn max_int(a: int, b: int) -> int {
    if a >= b {
        a
    } else {
        b
    }
}

pub open spec fn abs_int(a: int) -> int {
    if a >= 0 {
        a
    } else {
        -a
    }
}

/// The score `a` with its sign left aside.
fn abs_score(a: i32) -> (r: u64)
    ensures
        r == abs_int(a as int),
{
    if a >= 0 {
        a as u64
    } else {
        (-(a as i64)) as u64
    }
}

impl Scoring {
    /// Whether the penalties are no rewards and the reward is no penalty.
    pub open spec fn wf(self) -> bool {
        &&& self.gap_open <= 0
        &&& self.gap_extend <= 0
        &&& self.match_score >= 0
        &&& self.mismatch_score <= 0
    }

    /// The largest of the four scores, signs left aside.
    pub open spec fn magnitude(self) -> int {
        max_int(
            max_int(abs_int(self.gap_open as int), abs_int(self.gap_extend as int)),
            max_int(abs_int(self.match_score as int), abs_int(self.mismatch_score as int)),
        )
    }

    /// Whether sequences of `xn` and `yn` tokens are within the bounds of the
    /// aligner under these scores.
    ///
    /// The aligner adds scores in 32 bits and takes -858 993 459 for the
    /// score of what cannot be aligned. Where the largest score times the
    /// longer length plus two is at most 2^29, each sum that it forms lies
    /// between twice that floor and 2^30. Its table has a cell of
    /// two bytes for each pair of positions, and no more than `isize::MAX`
    /// bytes can be laid out.
    pub open spec fn admits(self, xn: int, yn: int) -> bool {
        &&& max_int(xn, yn) + 2 <= MAX_SCORE_RANGE
        &&& self.magnitude() * (max_int(xn, yn) + 2) <= MAX_SCORE_RANGE
        &&& (xn + 1) * (yn + 1) <= usize::MAX / 4
    }

    /// The scores of the affine gap model.
    pub fn new(gap_open: i32, gap_extend: i32, match_score: i32, mismatch_score: i32) -> (scoring:
        Self)
        ensures
            scoring == (Scoring { gap_open, gap_extend, match_score, mismatch_score }),
    {
        Scoring { gap_open, gap_extend, match_score, mismatch_score }
    }

    /// Whether the scores are well formed.
    pub fn is_wf(&self) -> (wf: bool)
        ensures
            wf == self.wf(),
    {
        self.gap_open <= 0 && self.gap_extend <= 0 && self.match_score >= 0 && self.mismatch_score
            <= 0
    }

    /// Whether sequences of `xn` and `yn` tokens can be aligned under these
    /// scores.
    pub fn can_align(&self, xn: usize, yn: usize) -> (admitted: bool)
        ensures
            admitted == self.admits(xn as int, yn as int),
    {
        let longest: usize = if xn >= yn { xn } else { yn };
        if longest > 0x1FFF_FFFE {
            return false;
        }
        let span: u64 = longest as u64 + 2;
        let gap_open: u64 = abs_score(self.gap_open);
        let gap_extend: u64 = abs_score(self.gap_extend);
        let match_score: u64 = abs_score(self.match_score);
        let mismatch_score: u64 = abs_score(self.mismatch_score);
        let gap: u64 = if gap_open >= gap_extend { gap_open } else { gap_extend };
        let column: u64 = if match_score >= mismatch_score { match_score } else { mismatch_score };
        let magnitude: u64 = if gap >= column { gap } else { column };
        assert(magnitude == self.magnitude());
        assert(magnitude * span <= 0x8000_0000 * 0x2000_0000) by (nonlinear_arith)
            requires
                magnitude <= 0x8000_0000,
                span <= 0x2000_0000,
        ;
        if magnitude * span > MAX_SCORE_RANGE {
            return false;
        }
        assert((xn + 1) * (yn + 1) <= 0x2000_0000 * 0x2000_0000) by (nonlinear_arith)
            requires
                xn + 1 <= 0x2000_0000,
                yn + 1 <= 0x2000_0000,
        ;
        let cells: u64 = (xn as u64 + 1) * (yn as u64 + 1);
        cells <= (usize::MAX / 4) as u64
    }
}

/// The trace that the aligner finds for a global alignment of the bytes `x`
/// against `y`.
pub uninterp spec fn global_trace(x: Seq<u8>, y: Seq<u8>, scoring: Scoring) -> AlignmentView;

/// The trace that the aligner finds for a semiglobal alignment of the bytes
/// `x` against `y`: all of x against a part of y.
pub uninterp spec fn semiglobal_trace(x: Seq<u8>, y: Seq<u8>, scoring: Scoring) -> AlignmentView;

/// The trace that the aligner finds for a local alignment of the bytes `x`
/// against `y`: a part of x against a part of y.
pub uninterp spec fn local_trace(x: Seq<u8>, y: Seq<u8>, scoring: Scoring) -> AlignmentView;

/// Calls `bio::alignment::pairwise::Aligner::global` on an aligner made by
/// `Scoring::from_scores` and `Aligner::with_capacity_and_scoring` of the
/// same module, so that two equal bytes match and two different ones do not.
///
/// Nothing is claimed of the trace but that it is the one the aligner finds
/// for these bytes and scores; its operations are taken over variant by
/// variant. The aligner is called only with scores of the signs that it
/// asserts, and within the bounds of [`Scoring::admits`].
#[verifier::external_body]
fn align_global(x: &[u8], y: &[u8], scoring: &Scoring) -> (alignment: Alignment)
    requires
        scoring.wf(),
        scoring.admits(x@.len() as int, y@.len() as int),
    ensures
        alignment@ == global_trace(x@, y@, *scoring),
{
    let scores = ByteScoring::from_scores(
        scoring.gap_open, scoring.gap_extend, scoring.match_score, scoring.mismatch_score,
    );
    let found = Aligner::with_capacity_and_scoring(x.len(), y.len(), scores).global(x, y);
    let operations = found.operations.iter().map(|operation| match operation {
        ByteOperation::Match => AlignmentOperation::Match,
        ByteOperation::Subst => AlignmentOperation::Subst,
        ByteOperation::Del => AlignmentOperation::Del,
        ByteOperation::Ins => AlignmentOperation::Ins,
        ByteOperation::Xclip(n) => AlignmentOperation::Xclip(*n),
        ByteOperation::Yclip(n) => AlignmentOperation::Yclip(*n),
    }).collect();
    let (xstart, ystart) = (found.xstart, found.ystart);
    Alignment { xstart, ystart, xlen: found.xlen, ylen: found.ylen, mode: AlignmentMode::Global, operations }
}

/// Calls `bio::alignment::pairwise::Aligner::semiglobal` on an aligner made by
/// `Scoring::from_scores` and `Aligner::with_capacity_and_scoring` of the
/// same module, so that two equal bytes match and two different ones do not.
///
/// Nothing is claimed of the trace but that it is the one the aligner finds
/// for these bytes and scores; its operations are taken over variant by
/// variant. The aligner is called only with scores of the signs that it
/// asserts, and within the bounds of [`Scoring::admits`].
#[verifier::external_body]
fn align_semiglobal(x: &[u8], y: &[u8], scoring: &Scoring) -> (alignment: Alignment)
    requires
        scoring.wf(),
        scoring.admits(x@.len() as int, y@.len() as int),
    ensures
        alignment@ == semiglobal_trace(x@, y@, *scoring),
{
    let scores = ByteScoring::from_scores(
        scoring.gap_open, scoring.gap_extend, scoring.match_score, scoring.mismatch_score,
    );
    let found = Aligner::with_capacity_and_scoring(x.len(), y.len(), scores).semiglobal(x, y);
    let operations = found.operations.iter().map(|operation| match operation {
        ByteOperation::Match => AlignmentOperation::Match,
        ByteOperation::Subst => AlignmentOperation::Subst,
        ByteOperation::Del => AlignmentOperation::Del,
        ByteOperation::Ins => AlignmentOperation::Ins,
        ByteOperation::Xclip(n) => AlignmentOperation::Xclip(*n),
        ByteOperation::Yclip(n) => AlignmentOperation::Yclip(*n),
    }).collect();
    let (xstart, ystart) = (found.xstart, found.ystart);
    Alignment { xstart, ystart, xlen: found.xlen, ylen: found.ylen, mode: AlignmentMode::Semiglobal, operations }
}

/// Calls `bio::alignment::pairwise::Aligner::local` on an aligner made by
/// `Scoring::from_scores` and `Aligner::with_capacity_and_scoring` of the
/// same module, so that two equal bytes match and two different ones do not.
///
/// Nothing is claimed of the trace but that it is the one the aligner finds
/// for these bytes and scores; its operations are taken over variant by
/// variant. The aligner is called only with scores of the signs that it
/// asserts, and within the bounds of [`Scoring::admits`].
#[verifier::external_body]
fn align_local(x: &[u8], y: &[u8], scoring: &Scoring) -> (alignment: Alignment)
    requires
        scoring.wf(),
        scoring.admits(x@.len() as int, y@.len() as int),
    ensures
        alignment@ == local_trace(x@, y@, *scoring),
{
    let scores = ByteScoring::from_scores(
        scoring.gap_open, scoring.gap_extend, scoring.match_score, scoring.mismatch_score,
    );
    let found = Aligner::with_capacity_and_scoring(x.len(), y.len(), scores).local(x, y);
    let operations = found.operations.iter().map(|operation| match operation {
        ByteOperation::Match => AlignmentOperation::Match,
        ByteOperation::Subst => AlignmentOperation::Subst,
        ByteOperation::Del => AlignmentOperation::Del,
        ByteOperation::Ins => AlignmentOperation::Ins,
        ByteOperation::Xclip(n) => AlignmentOperation::Xclip(*n),
        ByteOperation::Yclip(n) => AlignmentOperation::Yclip(*n),
    }).collect();
    let (xstart, ystart) = (found.xstart, found.ystart);
    Alignment { xstart, ystart, xlen: found.xlen, ylen: found.ylen, mode: AlignmentMode::Local, operations }
}

/// The trace that the aligner finds in `mode` for the bytes `x` against `y`.
pub open spec fn trace_of(mode: AlignmentMode, x: Seq<u8>, y: Seq<u8>, scoring: Scoring)
    -> AlignmentView {
    match mode {
        AlignmentMode::Global => global_trace(x, y, scoring),
        AlignmentMode::Semiglobal => semiglobal_trace(x, y, scoring),
        _ => local_trace(x, y, scoring),
    }
}

/// Whether `x` can be aligned against `y` in `mode`: the mode is one that
/// the aligner offers, the classes of y can be numbered by bytes, and the
/// scores admit the two lengths.
pub open spec fn alignable<T: Token>(mode: AlignmentMode, x: Seq<T>, y: Seq<T>, scoring: Scoring)
    -> bool {
    &&& mode != AlignmentMode::Custom
    &&& representatives(y).len() <= MAX_CLASSES
    &&& scoring.admits(x.len() as int, y.len() as int)
}

/// Aligns `x` against `y` in `mode`: the trace that the aligner finds for the
/// bytes that stand for the two sequences, or nothing where they cannot be
/// aligned. A custom trace is for the caller to build.
pub fn align<T: Token>(mode: AlignmentMode, x: &[T], y: &[T], scoring: &Scoring) -> (alignment:
    Option<Alignment>)
    requires
        scoring.wf(),
    ensures
        alignment is Some <==> alignable(mode, x@, y@, *scoring),
        alignment matches Some(found) ==> found@ == trace_of(
            mode,
            symbols_of_x(x@, y@),
            symbols_of_y(y@),
            *scoring,
        ),
{
    if !scoring.can_align(x.len(), y.len()) {
        return None;
    }
    match mode {
        AlignmentMode::Custom => None,
        _ => match encode(x, y) {
            None => None,
            Some((sx, sy)) => Some(
                match mode {
                    AlignmentMode::Global => align_global(sx.as_slice(), sy.as_slice(), scoring),
                    AlignmentMode::Semiglobal => align_semiglobal(
                        sx.as_slice(),
                        sy.as_slice(),
                        scoring,
                    ),
                    _ => align_local(sx.as_slice(), sy.as_slice(), scoring),
                },
            ),
        },
    }
}

} // verus!
