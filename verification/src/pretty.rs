//! A visitor that draws an alignment of two byte sequences in three rows.

use crate::alignment::AlignmentEvent;
use crate::msa::AlignmentVisitor;
use crate::text::{push_char, push_text, text_of_bytes, utf8_lossy};
use vstd::prelude::*;

verus! {

/// One column of a drawing.
#[derive(Clone, Copy, Debug)]
struct PrettyColumn {
    x: u8,
    middle: u8,
    y: u8,
}

/// Draws an alignment of bytes in three rows: x above, y below, and between
/// them a mark for each column. The drawing is cut into blocks of `ncol`
/// columns.
#[derive(Clone, Debug)]
pub struct AlignmentPrettyVisitor {
    ncol: usize,
    columns: Vec<PrettyColumn>,
}

/// The three rows of a drawing and the width of its blocks.
pub struct PrettyRows {
    pub ncol: usize,
    pub x: Seq<u8>,
    pub middle: Seq<u8>,
    pub y: Seq<u8>,
}

impl PrettyRows {
    /// The rows with one more column.
    pub open spec fn column(self, x: u8, middle: u8, y: u8) -> Self {
        PrettyRows {
            ncol: self.ncol,
            x: self.x.push(x),
            middle: self.middle.push(middle),
            y: self.y.push(y),
        }
    }

    /// The rows with a column for each of `bytes`, which belong to x alone.
    pub open spec fn only_x(self, bytes: Seq<u8>) -> Self {
        PrettyRows {
            ncol: self.ncol,
            x: self.x + bytes,
            middle: self.middle + Seq::new(bytes.len(), |i: int| BLANK),
            y: self.y + Seq::new(bytes.len(), |i: int| BLANK),
        }
    }

    /// The rows with a column for each of `bytes`, which belong to y alone.
    pub open spec fn only_y(self, bytes: Seq<u8>) -> Self {
        PrettyRows {
            ncol: self.ncol,
            x: self.x + Seq::new(bytes.len(), |i: int| BLANK),
            middle: self.middle + Seq::new(bytes.len(), |i: int| BLANK),
            y: self.y + bytes,
        }
    }

    /// The end of the block that begins at column `from`.
    pub open spec fn block_end(self, from: int) -> int {
        if from + self.ncol <= self.x.len() {
            from + self.ncol
        } else {
            self.x.len() as int
        }
    }

    /// The block that begins at column `from`: the three rows, each on a
    /// line of its own, and two empty lines.
    pub open spec fn block(self, from: int) -> Seq<char> {
        let to = self.block_end(from);
        utf8_lossy(self.x.subrange(from, to)).push('\n') + utf8_lossy(
            self.middle.subrange(from, to),
        ).push('\n') + utf8_lossy(self.y.subrange(from, to)).push('\n') + seq!['\n', '\n']
    }

    /// The blocks from column `from` on.
    pub open spec fn blocks(self, from: int) -> Seq<char>
        decreases self.x.len() - from,
    {
        if from < 0 || from >= self.x.len() || self.ncol == 0 {
            Seq::empty()
        } else {
            self.block(from) + self.blocks(self.block_end(from))
        }
    }

    /// Whether the three rows have a column in common each, and a block has
    /// a column at least.
    pub open spec fn wf(self) -> bool {
        &&& self.ncol > 0
        &&& self.x.len() == self.middle.len()
        &&& self.x.len() == self.y.len()
    }
}

/// The rows that `columns` make up.
spec fn rows_of(ncol: usize, columns: Seq<PrettyColumn>) -> PrettyRows {
    PrettyRows {
        ncol,
        x: Seq::new(columns.len(), |i: int| columns[i].x),
        middle: Seq::new(columns.len(), |i: int| columns[i].middle),
        y: Seq::new(columns.len(), |i: int| columns[i].y),
    }
}

impl View for AlignmentPrettyVisitor {
    type V = PrettyRows;

    closed spec fn view(&self) -> PrettyRows {
        rows_of(self.ncol, self.columns@)
    }
}

/// The byte that marks two equal bytes.
pub const MARK_MATCH: u8 = 0x7c;

/// The byte that marks two different bytes.
pub const MARK_SUBST: u8 = 0x5c;

/// The byte that marks a byte of y that x lacks.
pub const MARK_DEL: u8 = 0x78;

/// The byte that marks a byte of x that y lacks.
pub const MARK_INS: u8 = 0x2b;

/// The byte that stands where a sequence has a gap.
pub const GAP: u8 = 0x2d;

/// The byte that stands where a sequence is not aligned.
pub const BLANK: u8 = 0x20;

impl AlignmentPrettyVisitor {
    /// A visitor that has drawn nothing yet and cuts its drawing into blocks
    /// of `ncol` columns.
    pub fn new(ncol: usize) -> (visitor: Self)
        requires
            ncol > 0,
        ensures
            visitor@ == (PrettyRows {
                ncol,
                x: Seq::empty(),
                middle: Seq::empty(),
                y: Seq::empty(),
            }),
            visitor@.wf(),
    {
        let visitor = Self { ncol, columns: Vec::new() };
        assert(visitor@.x =~= Seq::empty());
        assert(visitor@.middle =~= Seq::empty());
        assert(visitor@.y =~= Seq::empty());
        visitor
    }

    fn column(&mut self, x: u8, middle: u8, y: u8)
        ensures
            final(self)@ == old(self)@.column(x, middle, y),
    {
        self.columns.push(PrettyColumn { x, middle, y });
        assert(self@.x =~= old(self)@.x.push(x));
        assert(self@.middle =~= old(self)@.middle.push(middle));
        assert(self@.y =~= old(self)@.y.push(y));
    }

    fn only_x(&mut self, bytes: &[u8])
        ensures
            final(self)@ == old(self)@.only_x(bytes@),
    {
        let mut i: usize = 0;
        while i < bytes.len()
            invariant
                i <= bytes.len(),
                self@ == old(self)@.only_x(bytes@.take(i as int)),
            decreases bytes.len() - i,
        {
            let ghost before = self@;
            self.column(bytes[i], BLANK, BLANK);
            i += 1;
            proof {
                let now = old(self)@.only_x(bytes@.take(i as int));
                assert(bytes@.take(i as int) =~= bytes@.take(i - 1).push(bytes@[i - 1]));
                assert(self@.x =~= now.x);
                assert(self@.middle =~= now.middle);
                assert(self@.y =~= now.y);
            }
        }
        assert(bytes@.take(i as int) =~= bytes@);
    }

    fn only_y(&mut self, bytes: &[u8])
        ensures
            final(self)@ == old(self)@.only_y(bytes@),
    {
        let mut i: usize = 0;
        while i < bytes.len()
            invariant
                i <= bytes.len(),
                self@ == old(self)@.only_y(bytes@.take(i as int)),
            decreases bytes.len() - i,
        {
            self.column(BLANK, BLANK, bytes[i]);
            i += 1;
            proof {
                let now = old(self)@.only_y(bytes@.take(i as int));
                assert(bytes@.take(i as int) =~= bytes@.take(i - 1).push(bytes@[i - 1]));
                assert(self@.x =~= now.x);
                assert(self@.middle =~= now.middle);
                assert(self@.y =~= now.y);
            }
        }
        assert(bytes@.take(i as int) =~= bytes@);
    }
}

/// The part of a row of `columns` from `from` to `to`.
fn row_x(columns: &Vec<PrettyColumn>, from: usize, to: usize) -> (row: Vec<u8>)
    requires
        from <= to <= columns.len(),
    ensures
        row@ == rows_of(0, columns@).x.subrange(from as int, to as int),
{
    let mut row: Vec<u8> = Vec::new();
    let mut i: usize = from;
    while i < to
        invariant
            from <= i <= to <= columns.len(),
            row@ == rows_of(0, columns@).x.subrange(from as int, i as int),
        decreases to - i,
    {
        row.push(columns[i].x);
        i += 1;
        assert(row@ =~= rows_of(0, columns@).x.subrange(from as int, i as int));
    }
    row
}

fn row_middle(columns: &Vec<PrettyColumn>, from: usize, to: usize) -> (row: Vec<u8>)
    requires
        from <= to <= columns.len(),
    ensures
        row@ == rows_of(0, columns@).middle.subrange(from as int, to as int),
{
    let mut row: Vec<u8> = Vec::new();
    let mut i: usize = from;
    while i < to
        invariant
            from <= i <= to <= columns.len(),
            row@ == rows_of(0, columns@).middle.subrange(from as int, i as int),
        decreases to - i,
    {
        row.push(columns[i].middle);
        i += 1;
        assert(row@ =~= rows_of(0, columns@).middle.subrange(from as int, i as int));
    }
    row
}

fn row_y(columns: &Vec<PrettyColumn>, from: usize, to: usize) -> (row: Vec<u8>)
    requires
        from <= to <= columns.len(),
    ensures
        row@ == rows_of(0, columns@).y.subrange(from as int, to as int),
{
    let mut row: Vec<u8> = Vec::new();
    let mut i: usize = from;
    while i < to
        invariant
            from <= i <= to <= columns.len(),
            row@ == rows_of(0, columns@).y.subrange(from as int, i as int),
        decreases to - i,
    {
        row.push(columns[i].y);
        i += 1;
        assert(row@ =~= rows_of(0, columns@).y.subrange(from as int, i as int));
    }
    row
}

/// Appends the text of `row` and the end of its line.
fn push_row(text: &mut String, row: &Vec<u8>)
    ensures
        final(text)@ == old(text)@ + utf8_lossy(row@).push('\n'),
{
    let line = text_of_bytes(row.as_slice());
    push_text(text, line.as_str());
    push_char(text, '\n');
    assert(text@ =~= old(text)@ + utf8_lossy(row@).push('\n'));
}

impl AlignmentVisitor<u8> for AlignmentPrettyVisitor {
    type Output = String;

    open spec fn accepts(state: PrettyRows, event: AlignmentEvent<u8>) -> bool {
        true
    }

    open spec fn step(state: PrettyRows, event: AlignmentEvent<u8>) -> PrettyRows {
        match event {
            AlignmentEvent::PrefixX(bytes)
            | AlignmentEvent::Xclip(bytes)
            | AlignmentEvent::SuffixX(bytes) => state.only_x(bytes),
            AlignmentEvent::PrefixY(bytes)
            | AlignmentEvent::Yclip(bytes)
            | AlignmentEvent::SuffixY(bytes) => state.only_y(bytes),
            AlignmentEvent::Match(x, y) => state.column(x, MARK_MATCH, y),
            AlignmentEvent::Subst(x, y) => state.column(x, MARK_SUBST, y),
            AlignmentEvent::Del(y) => state.column(GAP, MARK_DEL, y),
            AlignmentEvent::Ins(x) => state.column(x, MARK_INS, GAP),
        }
    }

    open spec fn outcome(state: PrettyRows) -> Seq<char> {
        state.blocks(0)
    }

    fn visit_prefix_x(&mut self, x: &[u8]) {
        self.only_x(x)
    }

    fn visit_prefix_y(&mut self, y: &[u8]) {
        self.only_y(y)
    }

    fn visit_match(&mut self, x: &u8, y: &u8) {
        self.column(*x, MARK_MATCH, *y)
    }

    fn visit_subst(&mut self, x: &u8, y: &u8) {
        self.column(*x, MARK_SUBST, *y)
    }

    fn visit_del(&mut self, y: &u8) {
        self.column(GAP, MARK_DEL, *y)
    }

    fn visit_ins(&mut self, x: &u8) {
        self.column(*x, MARK_INS, GAP)
    }

    fn visit_xclip(&mut self, x: &[u8]) {
        self.only_x(x)
    }

    fn visit_yclip(&mut self, y: &[u8]) {
        self.only_y(y)
    }

    fn visit_suffix_x(&mut self, x: &[u8]) {
        self.only_x(x)
    }

    fn visit_suffix_y(&mut self, y: &[u8]) {
        self.only_y(y)
    }

    fn finish(self) -> (out: String) {
        let mut text = String::new();
        let len = self.columns.len();
        if self.ncol == 0 {
            return text;
        }
        let mut idx: usize = 0;
        while idx < len
            invariant
                idx <= len,
                len == self.columns.len(),
                self.ncol > 0,
                text@ + self@.blocks(idx as int) == self@.blocks(0),
            decreases len - idx,
        {
            let end = if self.ncol >= len - idx { len } else { idx + self.ncol };
            let ghost before = text@;
            let x = row_x(&self.columns, idx, end);
            let middle = row_middle(&self.columns, idx, end);
            let y = row_y(&self.columns, idx, end);
            push_row(&mut text, &x);
            push_row(&mut text, &middle);
            push_row(&mut text, &y);
            push_char(&mut text, '\n');
            push_char(&mut text, '\n');
            proof {
                assert(end == self@.block_end(idx as int));
                assert(text@ =~= before + self@.block(idx as int));
                assert(before + self@.block(idx as int) + self@.blocks(end as int) =~= before + (
                self@.block(idx as int) + self@.blocks(end as int)));
            }
            idx = end;
        }
        assert(text@ =~= text@ + self@.blocks(idx as int));
        text
    }
}

} // verus!
