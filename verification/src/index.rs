//! Positions in a jagged array and their row-major order.
use crate::jagged::Jagged;
use std::cmp::Ordering;
use vstd::prelude::*;
use vstd::std_specs::cmp::PartialOrdSpec;

verus! {

/// The mathematical position that an [`Index2`] stands for: a row and a
/// column, both unbounded integers.
pub struct Pos {
    pub row: int,
    pub col: int,
}

impl Pos {
    /// Row-major order: the row decides, and within one row the column.
    pub open spec fn lt(self, other: Pos) -> bool {
        self.row < other.row || (self.row == other.row && self.col < other.col)
    }

    /// Row-major order, equality included.
    pub open spec fn le(self, other: Pos) -> bool {
        self.lt(other) || self == other
    }

    /// Whether the position addresses nothing in `rows`: its row does not
    /// exist, or its column is neither zero nor inside the row.
    pub open spec fn out_of_bounds<T>(self, rows: Seq<Seq<T>>) -> bool {
        self.row < 0 || self.col < 0 || self.row >= rows.len() || (self.col != 0 && self.col
            >= rows[self.row].len())
    }
}

/// An index representing a specific position in a 2d jagged array.
#[derive(Debug, Clone, Copy, PartialEq, Eq, Structural)]
pub struct Index2 {
    /// The row index.
    pub row: usize,
    /// The column index.
    pub col: usize,
}

impl View for Index2 {
    type V = Pos;

    open spec fn view(&self) -> Pos {
        Pos { row: self.row as int, col: self.col as int }
    }
}

impl Index2 {
    /// Create a new [`Index2`] with the given row and column indices.
    #[must_use]
    pub fn new(row: usize, col: usize) -> (index: Self)
        ensures
            index.row == row,
            index.col == col,
    {
        Index2 { row, col }
    }

    /// Whether the index is out of bounds of `jagged`. Column zero of an
    /// existing row is always in bounds, also where that row is empty.
    #[must_use]
    pub fn out_of_bounds<T>(&self, jagged: &Jagged<T>) -> (out: bool)
        ensures
            out == self@.out_of_bounds(jagged@),
    {
        match jagged.len_col(self.row) {
            Some(len) => self.col != 0 && self.col >= len,
            None => true,
        }
    }
}

impl Default for Index2 {
    fn default() -> (index: Self)
        ensures
            index.row == 0,
            index.col == 0,
    {
        Index2 { row: 0, col: 0 }
    }
}

impl PartialOrd for Index2 {
    fn partial_cmp(&self, other: &Self) -> (r: Option<Ordering>) {
        if self.row < other.row {
            Some(Ordering::Less)
        } else if self.row > other.row {
            Some(Ordering::Greater)
        } else if self.col < other.col {
            Some(Ordering::Less)
        } else if self.col > other.col {
            Some(Ordering::Greater)
        } else {
            Some(Ordering::Equal)
        }
    }
}

impl vstd::std_specs::cmp::PartialOrdSpecImpl for Index2 {
    open spec fn obeys_partial_cmp_spec() -> bool {
        true
    }

    open spec fn partial_cmp_spec(&self, other: &Self) -> Option<Ordering> {
        if self.row < other.row {
            Some(Ordering::Less)
        } else if self.row > other.row {
            Some(Ordering::Greater)
        } else if self.col < other.col {
            Some(Ordering::Less)
        } else if self.col > other.col {
            Some(Ordering::Greater)
        } else {
            Some(Ordering::Equal)
        }
    }
}

/// The order of positions is total and row-major: a position is less than
/// another exactly if it comes before it by row, then by column, and two
/// positions compare equal exactly if they are the same.
pub proof fn lemma_order_is_row_major(a: Index2, b: Index2)
    ensures
        a.partial_cmp_spec(&b) == Some(Ordering::Less) <==> a@.lt(b@),
        a.partial_cmp_spec(&b) == Some(Ordering::Equal) <==> a == b,
        a.partial_cmp_spec(&b) == Some(Ordering::Greater) <==> b@.lt(a@),
{
}

/// An index representing a specific row in a jagged array.
pub struct RowIndex(pub(crate) usize);

impl RowIndex {
    /// Create a new [`RowIndex`].
    #[must_use]
    pub fn new(index: usize) -> (row: Self)
        ensures
            row.row() == index,
    {
        RowIndex(index)
    }

    /// The row that the index names.
    pub closed spec fn row(self) -> int {
        self.0 as int
    }

    /// The row that the index names, as a machine integer.
    pub(crate) fn value(&self) -> (row: usize)
        ensures
            row == self.row(),
    {
        self.0
    }
}

} // verus!
