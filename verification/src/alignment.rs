//! Alignment traces: what a pairwise alignment says, and the walk that it
//! prescribes over the two sequences.

use vstd::prelude::*;

verus! {

/// How the ends of the two sequences are treated by an alignment.
#[derive(Clone, Copy, Debug, PartialEq, Eq, Structural)]
pub enum AlignmentMode {
    Local,
    Semiglobal,
    Global,
    Custom,
}

/// One step of an alignment.
///
/// `Match` and `Subst` take one token from both sequences, `Del` takes one
/// from y only and `Ins` one from x only. `Xclip` and `Yclip` skip that many
/// tokens of x or of y; they occur in custom traces only.
#[derive(Clone, Copy, Debug, PartialEq, Eq, Structural)]
pub enum AlignmentOperation {
    Match,
    Subst,
    Del,
    Ins,
    Xclip(usize),
    Yclip(usize),
}

/// The trace of one pairwise alignment of x against y.
#[derive(Debug)]
pub struct Alignment {
    /// Where the aligned region begins in x.
    pub xstart: usize,
    /// Where the aligned region begins in y.
    pub ystart: usize,
    /// The length of x.
    pub xlen: usize,
    /// The length of y.
    pub ylen: usize,
    pub mode: AlignmentMode,
    pub operations: Vec<AlignmentOperation>,
}

/// The mathematical content of an [`Alignment`].
pub struct AlignmentView {
    pub xstart: usize,
    pub ystart: usize,
    pub xlen: usize,
    pub ylen: usize,
    pub mode: AlignmentMode,
    pub operations: Seq<AlignmentOperation>,
}

impl View for Alignment {
    type V = AlignmentView;

    open spec fn view(&self) -> AlignmentView {
        AlignmentView {
            xstart: self.xstart,
            ystart: self.ystart,
            xlen: self.xlen,
            ylen: self.ylen,
            mode: self.mode,
            operations: self.operations@,
        }
    }
}

/// A position in x and one in y.
pub struct Cursor {
    pub x: int,
    pub y: int,
}

/// What a walk along a trace tells its visitor.
pub enum AlignmentEvent<T> {
    PrefixX(Seq<T>),
    PrefixY(Seq<T>),
    Match(T, T),
    Subst(T, T),
    Del(T),
    Ins(T),
    Xclip(Seq<T>),
    Yclip(Seq<T>),
    SuffixX(Seq<T>),
    SuffixY(Seq<T>),
}

pub open spec fn min_int(a: int, b: int) -> int {
    if a <= b {
        a
    } else {
        b
    }
}

impl AlignmentOperation {
    /// Whether the tokens that this operation reads exist at `at`.
    pub open spec fn fits(self, at: Cursor, xn: int, yn: int) -> bool {
        match self {
            AlignmentOperation::Match | AlignmentOperation::Subst => at.x < xn && at.y < yn,
            AlignmentOperation::Del => at.y < yn,
            AlignmentOperation::Ins => at.x < xn,
            AlignmentOperation::Xclip(_) | AlignmentOperation::Yclip(_) => true,
        }
    }

    /// Where the walk stands after this operation. A clip is cut down to the
    /// length of its sequence, and never leaves it.
    pub open spec fn advance(self, at: Cursor, xn: int, yn: int) -> Cursor {
        match self {
            AlignmentOperation::Match | AlignmentOperation::Subst => Cursor {
                x: at.x + 1,
                y: at.y + 1,
            },
            AlignmentOperation::Del => Cursor { x: at.x, y: at.y + 1 },
            AlignmentOperation::Ins => Cursor { x: at.x + 1, y: at.y },
            AlignmentOperation::Xclip(n) => Cursor {
                x: min_int(at.x + min_int(n as int, xn), xn),
                y: at.y,
            },
            AlignmentOperation::Yclip(n) => Cursor {
                x: at.x,
                y: min_int(at.y + min_int(n as int, yn), yn),
            },
        }
    }

    /// What this operation tells the visitor at `at`. A clip shows the first
    /// tokens of its sequence, as many as it skips.
    pub open spec fn event<T>(self, at: Cursor, x: Seq<T>, y: Seq<T>) -> AlignmentEvent<T> {
        match self {
            AlignmentOperation::Match => AlignmentEvent::Match(x[at.x], y[at.y]),
            AlignmentOperation::Subst => AlignmentEvent::Subst(x[at.x], y[at.y]),
            AlignmentOperation::Del => AlignmentEvent::Del(y[at.y]),
            AlignmentOperation::Ins => AlignmentEvent::Ins(x[at.x]),
            AlignmentOperation::Xclip(n) => AlignmentEvent::Xclip(
                x.take(min_int(n as int, x.len() as int)),
            ),
            AlignmentOperation::Yclip(n) => AlignmentEvent::Yclip(
                y.take(min_int(n as int, y.len() as int)),
            ),
        }
    }
}

/// Where a walk that starts at `start` stands after `operations`.
pub open spec fn cursor_after(
    operations: Seq<AlignmentOperation>,
    start: Cursor,
    xn: int,
    yn: int,
) -> Cursor
    decreases operations.len(),
{
    if operations.len() == 0 {
        start
    } else {
        operations.last().advance(cursor_after(operations.drop_last(), start, xn, yn), xn, yn)
    }
}

/// Whether every operation finds the tokens that it reads.
pub open spec fn operations_fit(
    operations: Seq<AlignmentOperation>,
    start: Cursor,
    xn: int,
    yn: int,
) -> bool
    decreases operations.len(),
{
    operations.len() == 0 || {
        &&& operations_fit(operations.drop_last(), start, xn, yn)
        &&& operations.last().fits(cursor_after(operations.drop_last(), start, xn, yn), xn, yn)
    }
}

/// The events of `operations`, in order.
pub open spec fn operation_events<T>(
    operations: Seq<AlignmentOperation>,
    start: Cursor,
    x: Seq<T>,
    y: Seq<T>,
) -> Seq<AlignmentEvent<T>>
    decreases operations.len(),
{
    if operations.len() == 0 {
        Seq::empty()
    } else {
        operation_events(operations.drop_last(), start, x, y).push(
            operations.last().event(
                cursor_after(operations.drop_last(), start, x.len() as int, y.len() as int),
                x,
                y,
            ),
        )
    }
}

impl AlignmentView {
    /// Where the walk over sequences of `xn` and `yn` tokens begins: at the
    /// origin for a custom trace, else at the start of the aligned region.
    pub open spec fn start(self, xn: int, yn: int) -> Cursor {
        if self.mode == AlignmentMode::Custom {
            Cursor { x: 0, y: 0 }
        } else {
            Cursor { x: min_int(self.xstart as int, xn), y: min_int(self.ystart as int, yn) }
        }
    }

    /// Where the walk ends.
    pub open spec fn end(self, xn: int, yn: int) -> Cursor {
        cursor_after(self.operations, self.start(xn, yn), xn, yn)
    }

    /// Whether the trace can be walked over sequences of `xn` and `yn`
    /// tokens: each operation finds its tokens.
    pub open spec fn fits(self, xn: int, yn: int) -> bool {
        operations_fit(self.operations, self.start(xn, yn), xn, yn)
    }

    /// What lies before the aligned region. A custom trace has no implicit
    /// prefix.
    pub open spec fn prefix_events<T>(self, x: Seq<T>, y: Seq<T>) -> Seq<AlignmentEvent<T>> {
        if self.mode == AlignmentMode::Custom {
            Seq::empty()
        } else {
            let start = self.start(x.len() as int, y.len() as int);
            seq![AlignmentEvent::PrefixX(x.take(start.x)), AlignmentEvent::PrefixY(y.take(start.y))]
        }
    }

    /// What lies behind the aligned region, up to the lengths that the trace
    /// records. A custom trace has no implicit suffix.
    pub open spec fn suffix_events<T>(self, x: Seq<T>, y: Seq<T>) -> Seq<AlignmentEvent<T>> {
        if self.mode == AlignmentMode::Custom {
            Seq::empty()
        } else {
            let end = self.end(x.len() as int, y.len() as int);
            let x_to = min_int(self.xlen as int, x.len() as int);
            let y_to = min_int(self.ylen as int, y.len() as int);
            seq![
                AlignmentEvent::SuffixX(x.subrange(min_int(end.x, x_to), x_to)),
                AlignmentEvent::SuffixY(y.subrange(min_int(end.y, y_to), y_to)),
            ]
        }
    }

    /// Everything that a walk along the trace tells its visitor, in order.
    pub open spec fn events<T>(self, x: Seq<T>, y: Seq<T>) -> Seq<AlignmentEvent<T>> {
        self.prefix_events(x, y) + operation_events(
            self.operations,
            self.start(x.len() as int, y.len() as int),
            x,
            y,
        ) + self.suffix_events(x, y)
    }
}

/// A walk never leaves the two sequences.
pub proof fn lemma_cursor_in_range(
    operations: Seq<AlignmentOperation>,
    start: Cursor,
    xn: int,
    yn: int,
)
    requires
        0 <= start.x <= xn,
        0 <= start.y <= yn,
        operations_fit(operations, start, xn, yn),
    ensures
        0 <= cursor_after(operations, start, xn, yn).x <= xn,
        0 <= cursor_after(operations, start, xn, yn).y <= yn,
    decreases operations.len(),
{
    if operations.len() > 0 {
        lemma_cursor_in_range(operations.drop_last(), start, xn, yn);
    }
}

/// There is one event for each operation.
pub proof fn lemma_operation_events_len<T>(
    operations: Seq<AlignmentOperation>,
    start: Cursor,
    x: Seq<T>,
    y: Seq<T>,
)
    ensures
        operation_events(operations, start, x, y).len() == operations.len(),
    decreases operations.len(),
{
    if operations.len() > 0 {
        lemma_operation_events_len(operations.drop_last(), start, x, y);
    }
}

/// The walk over the first `n` operations is the beginning of the whole walk.
pub proof fn lemma_walk_take<T>(
    operations: Seq<AlignmentOperation>,
    start: Cursor,
    x: Seq<T>,
    y: Seq<T>,
    n: int,
)
    requires
        0 <= n <= operations.len(),
    ensures
        operation_events(operations.take(n), start, x, y) == operation_events(
            operations,
            start,
            x,
            y,
        ).take(n),
        operations_fit(operations, start, x.len() as int, y.len() as int) ==> operations_fit(
            operations.take(n),
            start,
            x.len() as int,
            y.len() as int,
        ),
        n < operations.len() ==> {
            let at = cursor_after(operations.take(n), start, x.len() as int, y.len() as int);
            &&& operation_events(operations, start, x, y)[n] == operations[n].event(at, x, y)
            &&& cursor_after(operations.take(n + 1), start, x.len() as int, y.len() as int)
                == operations[n].advance(at, x.len() as int, y.len() as int)
            &&& operations_fit(operations, start, x.len() as int, y.len() as int)
                ==> operations[n].fits(at, x.len() as int, y.len() as int)
        },
    decreases operations.len(),
{
    lemma_operation_events_len(operations, start, x, y);
    if n == operations.len() {
        assert(operations.take(n) =~= operations);
        assert(operation_events(operations, start, x, y).take(n) =~= operation_events(
            operations,
            start,
            x,
            y,
        ));
    } else {
        let shorter = operations.drop_last();
        lemma_operation_events_len(shorter, start, x, y);
        lemma_walk_take(shorter, start, x, y, n);
        assert(shorter.take(n) =~= operations.take(n));
        assert(operation_events(shorter, start, x, y).take(n) =~= operation_events(
            operations,
            start,
            x,
            y,
        ).take(n));
        if n == operations.len() - 1 {
            assert(operations.take(n) =~= shorter);
            assert(operations.take(n + 1) =~= operations);
        } else {
            assert(shorter.take(n + 1) =~= operations.take(n + 1));
        }
    }
}

impl Alignment {
    /// Whether the trace can be walked over sequences of `xn` and `yn`
    /// tokens.
    pub fn fits(&self, xn: usize, yn: usize) -> (fit: bool)
        ensures
            fit == self@.fits(xn as int, yn as int),
    {
        let ghost start = self@.start(xn as int, yn as int);
        let ghost ops = self.operations@;
        let mut x_i: usize = 0;
        let mut y_i: usize = 0;
        match self.mode {
            AlignmentMode::Custom => {},
            _ => {
                x_i = if self.xstart <= xn { self.xstart } else { xn };
                y_i = if self.ystart <= yn { self.ystart } else { yn };
            },
        }
        let mut i: usize = 0;
        while i < self.operations.len()
            invariant
                i <= ops.len(),
                ops == self.operations@,
                x_i <= xn,
                y_i <= yn,
                start == self@.start(xn as int, yn as int),
                operations_fit(ops.take(i as int), start, xn as int, yn as int),
                cursor_after(ops.take(i as int), start, xn as int, yn as int) == (Cursor {
                    x: x_i as int,
                    y: y_i as int,
                }),
            decreases ops.len() - i,
        {
            proof {
                assert(ops.take(i + 1).drop_last() =~= ops.take(i as int));
                assert(ops.take(i + 1).last() == ops[i as int]);
            }
            let fit = match self.operations[i] {
                AlignmentOperation::Match | AlignmentOperation::Subst => {
                    if x_i < xn && y_i < yn {
                        x_i += 1;
                        y_i += 1;
                        true
                    } else {
                        false
                    }
                },
                AlignmentOperation::Del => {
                    if y_i < yn {
                        y_i += 1;
                        true
                    } else {
                        false
                    }
                },
                AlignmentOperation::Ins => {
                    if x_i < xn {
                        x_i += 1;
                        true
                    } else {
                        false
                    }
                },
                AlignmentOperation::Xclip(n) => {
                    x_i = skip(x_i, n, xn);
                    true
                },
                AlignmentOperation::Yclip(n) => {
                    y_i = skip(y_i, n, yn);
                    true
                },
            };
            if !fit {
                proof {
                    if operations_fit(ops, start, xn as int, yn as int) {
                        lemma_fit_take(ops, start, xn as int, yn as int, i + 1);
                    }
                }
                return false;
            }
            i += 1;
        }
        assert(ops.take(i as int) =~= ops);
        true
    }
}

/// Operations that fit still fit when the last of them are left out.
pub proof fn lemma_fit_take(
    operations: Seq<AlignmentOperation>,
    start: Cursor,
    xn: int,
    yn: int,
    n: int,
)
    requires
        0 <= n <= operations.len(),
        operations_fit(operations, start, xn, yn),
    ensures
        operations_fit(operations.take(n), start, xn, yn),
    decreases operations.len(),
{
    if n == operations.len() {
        assert(operations.take(n) =~= operations);
    } else {
        lemma_fit_take(operations.drop_last(), start, xn, yn, n);
        assert(operations.drop_last().take(n) =~= operations.take(n));
    }
}

/// The position `n` tokens behind `at` in a sequence of `len` tokens, where a
/// clip is cut down to the sequence and never leaves it.
pub fn skip(at: usize, n: usize, len: usize) -> (to: usize)
    requires
        at <= len,
    ensures
        to == min_int(at + min_int(n as int, len as int), len as int),
{
    let n = if n <= len { n } else { len };
    if n >= len - at {
        len
    } else {
        at + n
    }
}

} // verus!
