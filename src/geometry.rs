//! Points, document shape, and the visible window of a viewport.
use vstd::prelude::*;

verus! {

/// A position in the composite document: a row and a column within it.
#[derive(Clone, Copy, Debug, PartialEq, Eq, Structural)]
pub struct Point {
    pub row: u32,
    pub column: u32,
}

/// The shape of the composite document: the length of each of its lines,
/// the line break excluded. A document always has at least one line.
#[derive(Debug)]
pub struct DocumentShape {
    pub line_lens: Vec<u32>,
}

/// Sum over the first `n` lines of their length plus one line break each.
pub open spec fn rows_prefix(lens: Seq<u32>, n: nat) -> int
    decreases n,
{
    if n == 0 || n > lens.len() {
        0
    } else {
        rows_prefix(lens, (n - 1) as nat) + lens[n - 1] + 1
    }
}

pub proof fn lemma_rows_prefix_mono(lens: Seq<u32>, a: nat, b: nat)
    requires
        a <= b <= lens.len(),
    ensures
        rows_prefix(lens, a) + (b - a) <= rows_prefix(lens, b),
    decreases b - a,
{
    if a < b {
        lemma_rows_prefix_mono(lens, a, (b - 1) as nat);
    }
}

/// A number of visible lines as the fraction `numer / denom`.
#[derive(Clone, Copy, Debug, PartialEq, Eq, Structural)]
pub struct VisibleLines {
    pub numer: u32,
    pub denom: u32,
}

/// The number of rows used when the visible line count is unknown.
pub const DEFAULT_VISIBLE_ROWS: u32 = 40;

/// The visible line count rounded up to whole rows, or the default.
pub open spec fn spec_visible_rows(lines: Option<VisibleLines>) -> int {
    match lines {
        Some(l) => (l.numer + l.denom - 1) / (l.denom as int),
        None => DEFAULT_VISIBLE_ROWS as int,
    }
}

/// The rows of a window, from its first point to its last.
#[derive(Clone, Copy, Debug, PartialEq, Eq, Structural)]
pub struct VisibleWindow {
    pub start: Point,
    pub end: Point,
}

pub open spec fn point_le(a: Point, b: Point) -> bool {
    a.row < b.row || (a.row == b.row && a.column <= b.column)
}

impl DocumentShape {
    pub open spec fn wf(&self) -> bool {
        &&& 1 <= self.line_lens@.len() <= u32::MAX as int + 1
        &&& rows_prefix(self.line_lens@, self.line_lens@.len()) <= usize::MAX as int + 1
    }

    pub open spec fn max_row(&self) -> int {
        self.line_lens@.len() - 1
    }

    /// A point is valid when its row exists and its column is within the line.
    pub open spec fn is_valid(&self, p: Point) -> bool {
        p.row < self.line_lens@.len() && p.column <= self.line_lens@[p.row as int]
    }

    /// The valid point nearest to `(row, column)`, biased to the left.
    pub open spec fn spec_clip(&self, row: int, column: int) -> Point {
        if row > self.max_row() {
            Point { row: self.max_row() as u32, column: self.line_lens@[self.max_row()] }
        } else if column > self.line_lens@[row] {
            Point { row: row as u32, column: self.line_lens@[row] }
        } else {
            Point { row: row as u32, column: column as u32 }
        }
    }

    /// The offset of a point: the lines before it, with their breaks, and its column.
    pub open spec fn spec_offset(&self, p: Point) -> int {
        rows_prefix(self.line_lens@, p.row as nat) + p.column
    }

    /// The length of the document in offsets.
    pub open spec fn spec_len(&self) -> int {
        rows_prefix(self.line_lens@, self.line_lens@.len()) - 1
    }

    /// The end of the window that starts at `start` and spans `rows` rows:
    /// `start` moved down by `rows` rows to column zero (or `start` itself
    /// when `rows` is zero), clipped to the document.
    pub open spec fn spec_window_end(&self, start: Point, rows: int) -> Point {
        if rows == 0 {
            self.spec_clip(start.row as int, start.column as int)
        } else {
            self.spec_clip(start.row + rows, 0)
        }
    }

    /// Clips a point that may lie past the document to the nearest valid
    /// one, biased to the left.
    pub fn clip_point(&self, row: u64, column: u64) -> (r: Point)
        requires
            self.wf(),
        ensures
            r == self.spec_clip(row as int, column as int),
            self.is_valid(r),
    {
        let last: usize = self.line_lens.len() - 1;
        if row > last as u64 {
            Point { row: last as u32, column: self.line_lens[last] }
        } else {
            let len = self.line_lens[row as usize];
            if column > len as u64 {
                Point { row: row as u32, column: len }
            } else {
                Point { row: row as u32, column: column as u32 }
            }
        }
    }

    /// The offset of a valid point.
    pub fn point_to_offset(&self, p: Point) -> (r: usize)
        requires
            self.wf(),
            self.is_valid(p),
        ensures
            r as int == self.spec_offset(p),
            r as int <= self.spec_len(),
    {
        proof {
            lemma_rows_prefix_mono(self.line_lens@, (p.row + 1) as nat, self.line_lens@.len());
        }
        let mut acc: usize = 0;
        let mut i: usize = 0;
        while i < p.row as usize
            invariant
                self.wf(),
                self.is_valid(p),
                i <= p.row,
                acc as int == rows_prefix(self.line_lens@, i as nat),
                rows_prefix(self.line_lens@, (p.row + 1) as nat) <= usize::MAX as int + 1,
            decreases p.row - i,
        {
            proof {
                lemma_rows_prefix_mono(self.line_lens@, (i + 1) as nat, (p.row + 1) as nat);
            }
            acc = acc + self.line_lens[i] as usize + 1;
            i = i + 1;
        }
        acc + p.column as usize
    }

    /// The last point of the document.
    pub fn end_point(&self) -> (r: Point)
        requires
            self.wf(),
        ensures
            self.is_valid(r),
            r.row == self.max_row(),
            r.column == self.line_lens@[self.max_row()],
            self.spec_offset(r) == self.spec_len(),
    {
        let last: usize = self.line_lens.len() - 1;
        Point { row: last as u32, column: self.line_lens[last] }
    }

    /// The length of the document in offsets.
    pub fn len(&self) -> (r: usize)
        requires
            self.wf(),
        ensures
            r as int == self.spec_len(),
    {
        let e = self.end_point();
        self.point_to_offset(e)
    }
}

/// The visible line count rounded up, or the default when it is unknown.
pub fn visible_rows(lines: Option<VisibleLines>) -> (r: u32)
    requires
        lines matches Some(l) ==> l.denom > 0,
    ensures
        r as int == spec_visible_rows(lines),
{
    match lines {
        Some(l) => {
            let n: u64 = l.numer as u64 + l.denom as u64 - 1;
            let q: u64 = n / (l.denom as u64);
            assert(q <= l.numer) by (nonlinear_arith)
                requires
                    q as int == (n as int) / (l.denom as int),
                    n as int == l.numer + l.denom - 1,
                    l.denom > 0,
            ;
            q as u32
        },
        None => DEFAULT_VISIBLE_ROWS,
    }
}

/// The window that a viewport scrolled to `anchor` shows: it starts at the
/// anchor and ends the rounded-up visible line count below it, clipped.
pub fn visible_window(doc: &DocumentShape, anchor: Point, lines: Option<VisibleLines>) -> (r:
    VisibleWindow)
    requires
        doc.wf(),
        doc.is_valid(anchor),
        lines matches Some(l) ==> l.denom > 0,
    ensures
        r.start == anchor,
        r.end == doc.spec_window_end(anchor, spec_visible_rows(lines)),
        doc.is_valid(r.start),
        doc.is_valid(r.end),
        point_le(r.start, r.end),
{
    let rows = visible_rows(lines);
    let end = if rows == 0 {
        doc.clip_point(anchor.row as u64, anchor.column as u64)
    } else {
        doc.clip_point(anchor.row as u64 + rows as u64, 0)
    };
    VisibleWindow { start: anchor, end }
}

/// The window never reaches past the start or the end of the document,
/// whatever the anchor and the visible line count.
pub proof fn lemma_window_within_document(
    doc: &DocumentShape,
    anchor: Point,
    lines: Option<VisibleLines>,
)
    requires
        doc.wf(),
        doc.is_valid(anchor),
        lines matches Some(l) ==> l.denom > 0,
    ensures
        ({
            let end = doc.spec_window_end(anchor, spec_visible_rows(lines));
            &&& doc.is_valid(end)
            &&& 0 <= doc.spec_offset(anchor) <= doc.spec_offset(end) <= doc.spec_len()
        }),
{
    let end = doc.spec_window_end(anchor, spec_visible_rows(lines));
    let lens = doc.line_lens@;
    lemma_rows_prefix_mono(lens, (end.row + 1) as nat, lens.len());
    lemma_rows_prefix_mono(lens, 0, anchor.row as nat);
    if anchor.row < end.row {
        lemma_rows_prefix_mono(lens, (anchor.row + 1) as nat, end.row as nat);
    }
}

} // verus!
