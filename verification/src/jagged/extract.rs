//! Ranges of positions, and removing what a range covers.
//!
//! A range is given by two bounds. It is first normalised to an inclusive
//! pair of positions, then clamped to what the array holds; what is left
//! decides which parts of rows and which whole rows are taken.
use crate::index::{Index2, Pos};
use crate::jagged::{lemma_lengths_fit, Jagged};
use crate::model::{joined, last_col, last_row};
use std::ops::Range;
use vstd::prelude::*;

verus! {

/// One end of a range of positions.
#[derive(Debug, Clone, Copy, PartialEq, Eq, Structural)]
pub enum IndexBound {
    /// The range reaches the position and holds it.
    Included(Index2),
    /// The range reaches the position and leaves it out.
    Excluded(Index2),
    /// The range has no limit on this side.
    Unbounded,
}

/// The first position of a range with the given start bound: the bound
/// itself, the column after an excluded one, the origin where unbounded.
pub open spec fn range_start(start: IndexBound) -> Pos {
    match start {
        IndexBound::Included(v) => v@,
        IndexBound::Excluded(v) => Pos { row: v.row as int, col: v.col + 1 },
        IndexBound::Unbounded => Pos { row: 0, col: 0 },
    }
}

/// The last position of a range with the given end bound. An excluded
/// origin selects nothing; an excluded column zero stands for the last
/// column of the row before; an unbounded end is the last position of the
/// array.
pub open spec fn range_end<T>(rows: Seq<Seq<T>>, end: IndexBound) -> Option<Pos> {
    match end {
        IndexBound::Included(v) => Some(v@),
        IndexBound::Excluded(v) => if v.row == 0 && v.col == 0 {
            None
        } else if v.col == 0 {
            Some(Pos { row: v.row - 1, col: last_col(rows, v.row - 1) })
        } else {
            Some(Pos { row: v.row as int, col: v.col - 1 })
        },
        IndexBound::Unbounded => Some(
            Pos { row: last_row(rows), col: last_col(rows, last_row(rows)) },
        ),
    }
}

/// A range of positions clamped to an array: both ends address existing
/// rows and columns within them, and each flag tells whether its end had to
/// be moved to get there.
pub struct Span {
    pub start: Pos,
    pub end: Pos,
    pub start_clamped: bool,
    pub end_clamped: bool,
}

impl Span {
    /// Whether the range begins inside its first row, so that the row is
    /// split and its head stays.
    pub open spec fn splits_start(self) -> bool {
        !self.start_clamped && self.start.col > 0
    }

    /// Whether the span lies in `rows`: both ends address existing rows and
    /// columns up to the last of their row, the start does not come after
    /// the end, and a clamped end sits on the last column of its row.
    pub open spec fn fits<T>(self, rows: Seq<Seq<T>>) -> bool {
        &&& 0 <= self.start.row <= self.end.row < rows.len()
        &&& 0 <= self.start.col <= last_col(rows, self.start.row)
        &&& 0 <= self.end.col <= last_col(rows, self.end.row)
        &&& self.start.le(self.end)
        &&& !(self.start == self.end && self.start_clamped)
        &&& self.start_clamped ==> self.start.col == last_col(rows, self.start.row)
        &&& self.end_clamped ==> self.end.col == last_col(rows, self.end.row)
    }

    /// Whether the range ends before the last column of its last row, so
    /// that the row is split and its tail stays.
    pub open spec fn splits_end<T>(self, rows: Seq<Seq<T>>) -> bool {
        self.end.col < last_col(rows, self.end.row)
    }
}

/// Clamps the inclusive range from `start` to `end` to `rows`. A start
/// column past its row's last column becomes that column, an end past the
/// array or past its row's last column becomes the nearest position that
/// exists. There is no span where the array is empty, where the start row
/// does not exist, where the clamped start lies after the clamped end, or
/// where both coincide and the start was clamped.
pub open spec fn clamp_span<T>(rows: Seq<Seq<T>>, start: Pos, end: Pos) -> Option<Span> {
    if rows.len() == 0 || start.row > last_row(rows) || start.row < 0 {
        None
    } else {
        let start_clamped = start.col > last_col(rows, start.row);
        let s = Pos {
            row: start.row,
            col: if start_clamped {
                last_col(rows, start.row)
            } else {
                start.col
            },
        };
        let end_row = if end.row > last_row(rows) {
            last_row(rows)
        } else {
            end.row
        };
        let end_clamped = end.row > last_row(rows) || end.col > last_col(rows, end_row);
        let e = Pos {
            row: end_row,
            col: if end_clamped {
                last_col(rows, end_row)
            } else {
                end.col
            },
        };
        if e.lt(s) || (s == e && start_clamped) {
            None
        } else {
            Some(Span { start: s, end: e, start_clamped, end_clamped })
        }
    }
}

/// The span that a pair of bounds selects in `rows`, if any.
pub open spec fn selected_span<T>(rows: Seq<Seq<T>>, start: IndexBound, end: IndexBound) -> Option<
    Span,
> {
    match range_end(rows, end) {
        Some(e) => clamp_span(rows, range_start(start), e),
        None => None,
    }
}

/// What extracting a span hands out.
///
/// Within one row: the whole row where neither side splits it, else the
/// elements from the start column to the end column. Over several rows: an
/// empty row where the start was clamped, the tail of the first row where
/// the start splits it, the whole rows in between, and the head of the last
/// row where the end splits it.
pub open spec fn extracted<T>(rows: Seq<Seq<T>>, span: Span) -> Seq<Seq<T>> {
    let s = span.start;
    let e = span.end;
    if s.row == e.row {
        if !span.splits_start() && !span.splits_end(rows) {
            seq![rows[s.row]]
        } else {
            seq![rows[s.row].subrange(s.col, e.col + 1)]
        }
    } else {
        let lead = if span.start_clamped {
            seq![Seq::<T>::empty()]
        } else {
            Seq::empty()
        };
        let head = if span.splits_start() {
            seq![rows[s.row].skip(s.col)]
        } else {
            Seq::empty()
        };
        let from = if span.splits_start() || span.start_clamped {
            s.row + 1
        } else {
            s.row
        };
        let tail = if span.splits_end(rows) {
            seq![rows[e.row].take(e.col + 1)]
        } else {
            Seq::empty()
        };
        let until = if span.splits_end(rows) {
            e.row
        } else {
            e.row + 1
        };
        lead + head + rows.subrange(from, until) + tail
    }
}

/// What extracting a span leaves behind.
///
/// Within one row: the rows without that row where neither side splits it;
/// else the row without the elements taken, fused with the row after it
/// where the end was clamped. Over several rows: the rows before the first,
/// what stays of the first row, what stays of the last row and the rows
/// after it; where anything stays of the first row it is fused with what
/// follows it.
pub open spec fn remaining<T>(rows: Seq<Seq<T>>, span: Span) -> Seq<Seq<T>> {
    let s = span.start;
    let e = span.end;
    if s.row == e.row {
        if !span.splits_start() && !span.splits_end(rows) {
            rows.remove(s.row)
        } else {
            let cut = rows.update(s.row, rows[s.row].take(s.col) + rows[s.row].skip(e.col + 1));
            if span.end_clamped {
                joined(cut, s.row)
            } else {
                cut
            }
        }
    } else {
        if span.splits_start() || span.start_clamped {
            joined(rows.take(s.row).push(head_kept(rows, span)) + rest_kept(rows, span), s.row)
        } else {
            rows.take(s.row) + rest_kept(rows, span)
        }
    }
}

/// What extracting the range between two bounds hands out, and what it
/// leaves behind: nothing and all the rows where the bounds select no
/// span.
pub open spec fn extraction<T>(rows: Seq<Seq<T>>, start: IndexBound, end: IndexBound) -> (
    Seq<Seq<T>>,
    Seq<Seq<T>>,
) {
    match selected_span(rows, start, end) {
        Some(span) => (extracted(rows, span), remaining(rows, span)),
        None => (Seq::empty(), rows),
    }
}

/// What stays of the first row of a span over several rows, where anything
/// stays of it.
pub open spec fn head_kept<T>(rows: Seq<Seq<T>>, span: Span) -> Seq<T> {
    if span.splits_start() {
        rows[span.start.row].take(span.start.col)
    } else {
        rows[span.start.row]
    }
}

/// What stays from the last row of a span over several rows onward.
pub open spec fn rest_kept<T>(rows: Seq<Seq<T>>, span: Span) -> Seq<Seq<T>> {
    let tail = if span.splits_end(rows) {
        seq![rows[span.end.row].skip(span.end.col + 1)]
    } else {
        Seq::empty()
    };
    tail + rows.skip(span.end.row + 1)
}

/// A span as the machine holds it.
pub(crate) struct Clamped {
    pub(crate) start: Index2,
    pub(crate) end: Index2,
    pub(crate) start_clamped: bool,
    pub(crate) end_clamped: bool,
}

impl Clamped {
    /// The span that the machine's values stand for.
    pub(crate) open spec fn span(self) -> Span {
        Span {
            start: self.start@,
            end: self.end@,
            start_clamped: self.start_clamped,
            end_clamped: self.end_clamped,
        }
    }
}

/// The rows of a span over several rows, once the parts taken are gone and
/// before the first row is fused with what follows it.
proof fn lemma_unjoined<T>(rows: Seq<Seq<T>>, span: Span, cut: Seq<Seq<T>>, now: Seq<Seq<T>>)
    requires
        span.fits(rows),
        span.start.row < span.end.row,
        cut.len() == rows.len(),
        forall|i: int| 0 <= i < rows.len() && i != span.start.row ==> cut[i] == rows[i],
        cut[span.start.row] == head_kept(rows, span),
        ({
            let from = if span.splits_start() || span.start_clamped {
                span.start.row + 1
            } else {
                span.start.row
            };
            let until = if span.splits_end(rows) {
                span.end.row
            } else {
                span.end.row + 1
            };
            &&& now.len() == from + rows.len() - until
            &&& forall|i: int|
                0 <= i < now.len() && !(span.splits_end(rows) && i == from) ==> now[i] == (
                cut.take(from) + cut.skip(until))[i]
            &&& span.splits_end(rows) ==> now[from] == rows[span.end.row].skip(span.end.col + 1)
        }),
    ensures
        span.splits_start() || span.start_clamped ==> now == rows.take(span.start.row).push(
            head_kept(rows, span),
        ) + rest_kept(rows, span),
        !(span.splits_start() || span.start_clamped) ==> now == rows.take(span.start.row)
            + rest_kept(rows, span),
{
    let rest = rest_kept(rows, span);
    if span.splits_start() || span.start_clamped {
        assert(now =~= rows.take(span.start.row).push(head_kept(rows, span)) + rest);
    } else {
        assert(now =~= rows.take(span.start.row) + rest);
    }
}

/// Takes the elements `from..to` out of a row and returns them in order.
fn take_columns<T>(row: &mut Vec<T>, from: usize, to: usize) -> (taken: Vec<T>)
    requires
        from <= to <= old(row)@.len(),
    ensures
        taken@ == old(row)@.subrange(from as int, to as int),
        final(row)@ == old(row)@.take(from as int) + old(row)@.skip(to as int),
{
    let mut taken = row.split_off(from);
    let mut rest = taken.split_off(to - from);
    row.append(&mut rest);
    taken
}

impl<T> Jagged<T> {
    /// Normalises a pair of bounds to an inclusive pair of positions, or
    /// `None` where the bounds select nothing at all. A start column that
    /// would pass the largest machine integer stays at it.
    pub fn range_bounds(&self, start: IndexBound, end: IndexBound) -> (bounds: Option<
        (Index2, Index2),
    >)
        ensures
            match bounds {
                Some((s, e)) => {
                    &&& range_end(self@, end) == Some(e@)
                    &&& s.row == range_start(start).row
                    &&& s.col == if range_start(start).col > usize::MAX {
                        usize::MAX as int
                    } else {
                        range_start(start).col
                    }
                },
                None => range_end(self@, end) is None,
            },
    {
        let s = match start {
            IndexBound::Included(v) => Index2::new(v.row, v.col),
            IndexBound::Excluded(v) => if v.col == usize::MAX {
                Index2::new(v.row, v.col)
            } else {
                Index2::new(v.row, v.col + 1)
            },
            IndexBound::Unbounded => Index2::new(0, 0),
        };
        let e = match end {
            IndexBound::Included(v) => Index2::new(v.row, v.col),
            IndexBound::Excluded(v) => if v.row == 0 && v.col == 0 {
                return None;
            } else if v.col == 0 {
                Index2::new(v.row - 1, self.last_col_index(v.row - 1))
            } else {
                Index2::new(v.row, v.col - 1)
            },
            IndexBound::Unbounded => {
                let last_row = self.last_row_index();
                Index2::new(last_row, self.last_col_index(last_row))
            },
        };
        Some((s, e))
    }

    /// Extracts a range of rows and returns a newly allocated `Jagged<T>`.
    #[must_use]
    pub fn extract_rows(&mut self, range: Range<usize>) -> (drained: Self)
        requires
            range.start <= range.end <= old(self)@.len(),
        ensures
            drained@ == old(self)@.subrange(range.start as int, range.end as int),
            final(self)@ == old(self)@.take(range.start as int) + old(self)@.skip(
                range.end as int,
            ),
    {
        let mut taken = self.data.split_off(range.start);
        let mut rest = taken.split_off(range.end - range.start);
        self.data.append(&mut rest);
        Jagged::new(taken)
    }

    /// Clamps the inclusive range from `start` to `end` to the array, or
    /// returns `None` where nothing is left of it.
    pub(crate) fn clamp(&self, start: IndexBound, end: IndexBound) -> (clamped: Option<Clamped>)
        ensures
            match clamped {
                Some(c) => selected_span(self@, start, end) == Some(c.span()) && c.span().fits(self@),
                None => selected_span(self@, start, end) is None,
            },
    {
        proof {
            lemma_lengths_fit(self);
        }
        if self.is_empty() {
            return None;
        }
        let (mut s, mut e) = match self.range_bounds(start, end) {
            Some(bounds) => bounds,
            None => {
                return None;
            },
        };
        let last_row = self.last_row_index();
        if s.row > last_row {
            return None;
        }
        let mut start_clamped = false;
        let max_start_col = self.last_col_index(s.row);
        if s.col > max_start_col {
            s.col = max_start_col;
            start_clamped = true;
        }
        let mut end_clamped = false;
        if e.row > last_row {
            e.row = last_row;
            e.col = self.last_col_index(e.row);
            end_clamped = true;
        } else {
            let max_end_col = self.last_col_index(e.row);
            if e.col > max_end_col {
                e.col = max_end_col;
                end_clamped = true;
            }
        }
        if s.row > e.row || (s.row == e.row && s.col > e.col) || (s.row == e.row && s.col
            == e.col && start_clamped) {
            return None;
        }
        Some(Clamped { start: s, end: e, start_clamped, end_clamped })
    }

    /// Extracts a span that lies within one row.
    fn extract_within_row(&mut self, c: Clamped) -> (drained: Self)
        requires
            c.span().fits(old(self)@),
            c.start.row == c.end.row,
        ensures
            drained@ == extracted(old(self)@, c.span()),
            final(self)@ == remaining(old(self)@, c.span()),
    {
        proof {
            lemma_lengths_fit(self);
        }
        let s = c.start;
        let e = c.end;
        let split_start = s.col != 0 && !c.start_clamped;
        let split_end = e.col < self.last_col_index(e.row);
        let mut drained = Jagged::<T>::default();
        if !split_start && !split_end {
            // The whole row.
            let mut row = self.extract_rows(s.row..s.row + 1);
            drained.append(&mut row);
        } else {
            // A part of the row. Where the end was clamped, the row's line
            // break goes too.
            let taken = take_columns(&mut self.data[s.row], s.col, e.col + 1);
            drained.push(taken);
            if c.end_clamped {
                self.join_lines(s.row);
            }
        }
        drained
    }

    /// Extracts a span that covers several rows: the tail of the first,
    /// whole rows, the head of the last.
    fn extract_across_rows(&mut self, c: Clamped) -> (drained: Self)
        requires
            c.span().fits(old(self)@),
            c.start.row < c.end.row,
        ensures
            drained@ == extracted(old(self)@, c.span()),
            final(self)@ == remaining(old(self)@, c.span()),
    {
        proof {
            lemma_lengths_fit(self);
        }
        let ghost rows = self@;
        let s = c.start;
        let e = c.end;
        let split_start = s.col != 0 && !c.start_clamped;
        let split_end = e.col < self.last_col_index(e.row);
        let extract_from = if split_start || c.start_clamped {
            s.row + 1
        } else {
            s.row
        };
        let extract_until = if split_end {
            e.row
        } else {
            e.row + 1
        };
        let mut drained = Jagged::<T>::default();
        if c.start_clamped {
            drained.push(Vec::<T>::new());
        }
        if split_start {
            let n = self.data[s.row].len();
            let taken = take_columns(&mut self.data[s.row], s.col, n);
            drained.push(taken);
        }
        let ghost cut = self@;
        proof {
            assert(cut.len() == rows.len());
            assert(forall|i: int| 0 <= i < rows.len() && i != s.row ==> cut[i] == rows[i]);
            assert(cut[s.row as int] =~= head_kept(rows, c.span()));
        }
        let mut drained_rows = self.extract_rows(extract_from..extract_until);
        proof {
            assert(drained_rows@ =~= rows.subrange(extract_from as int, extract_until as int));
        }
        drained.append(&mut drained_rows);
        let ghost kept = self@;
        proof {
            assert(kept =~= cut.take(extract_from as int) + cut.skip(extract_until as int));
            assert(self.data@.len() == kept.len());
            if split_end {
                assert(kept[extract_from as int] == cut[e.row as int]);
                assert(self.data@[extract_from as int]@ == kept[extract_from as int]);
            }
        }
        if split_end {
            let taken = take_columns(&mut self.data[extract_from], 0, e.col + 1);
            drained.push(taken);
        }
        proof {
            assert(drained@ =~= extracted(rows, c.span()));
            let now = self@;
            assert(now.len() == kept.len());
            assert(forall|i: int|
                0 <= i < kept.len() && !(split_end && i == extract_from) ==> now[i] == kept[i]);
            if split_end {
                assert(now[extract_from as int] =~= rows[e.row as int].skip(e.col + 1));
            }
            lemma_unjoined(rows, c.span(), cut, now);
        }
        if split_start || c.start_clamped {
            self.join_lines(s.row);
        }
        drained
    }

    /// Extracts the range between two bounds and returns it as a newly
    /// allocated `Jagged<T>`.
    ///
    /// Returns empty data, and leaves the array as it is, if the range is
    /// incorrectly ordered, selects nothing, or starts beyond the last row.
    /// Columns beyond the end of a row are clamped to the row.
    ///
    /// See [`Jagged::copy_range`], if you do not want to remove the range
    /// from the array.
    #[must_use]
    pub fn extract(&mut self, start: IndexBound, end: IndexBound) -> (drained: Self)
        ensures
            (drained@, final(self)@) == extraction(old(self)@, start, end),
    {
        match self.clamp(start, end) {
            Some(c) => if c.start.row == c.end.row {
                self.extract_within_row(c)
            } else {
                self.extract_across_rows(c)
            },
            None => Jagged::default(),
        }
    }
}

} // verus!
