//! The mathematical model of a jagged array: a sequence of rows, each a
//! sequence of elements, addressed by positions with integer coordinates.
use crate::index::Pos;
use vstd::prelude::*;

verus! {

/// The index of the last row, zero where there is none.
pub open spec fn last_row<T>(rows: Seq<Seq<T>>) -> int {
    if rows.len() == 0 {
        0
    } else {
        rows.len() - 1
    }
}

/// The index of the last column of row `row`, zero where the row is empty
/// or does not exist.
pub open spec fn last_col<T>(rows: Seq<Seq<T>>, row: int) -> int {
    if 0 <= row < rows.len() && rows[row].len() > 0 {
        rows[row].len() - 1
    } else {
        0
    }
}

/// The element at a position, if there is one.
pub open spec fn element<T>(rows: Seq<Seq<T>>, p: Pos) -> Option<T> {
    if 0 <= p.row < rows.len() && 0 <= p.col < rows[p.row].len() {
        Some(rows[p.row][p.col])
    } else {
        None
    }
}

/// The element at a position, borrowed, if there is one.
pub open spec fn element_ref<'a, T>(rows: Seq<Seq<T>>, p: Pos) -> Option<&'a T> {
    if 0 <= p.row < rows.len() && 0 <= p.col < rows[p.row].len() {
        Some(&rows[p.row][p.col])
    } else {
        None
    }
}

/// The position that follows `p` in row-major order: the next column of the
/// same row, or column zero of the next row once the row's last column is
/// reached or passed. There is none after the last column of the last row,
/// nor from a row that does not exist.
pub open spec fn succ<T>(rows: Seq<Seq<T>>, p: Pos) -> Option<Pos> {
    if !(0 <= p.row < rows.len()) {
        None
    } else if p.col >= last_col(rows, p.row) {
        if p.row == rows.len() - 1 {
            None
        } else {
            Some(Pos { row: p.row + 1, col: 0 })
        }
    } else {
        Some(Pos { row: p.row, col: p.col + 1 })
    }
}

/// The position that precedes `p` in row-major order: the previous column
/// of the same row where that column holds an element, or the last column
/// of the previous row from column zero of an existing row. There is none
/// before column zero of the first row.
pub open spec fn pred<T>(rows: Seq<Seq<T>>, p: Pos) -> Option<Pos> {
    if p.col == 0 {
        if 0 < p.row < rows.len() {
            Some(Pos { row: p.row - 1, col: last_col(rows, p.row - 1) })
        } else {
            None
        }
    } else if 0 <= p.row < rows.len() && 0 < p.col <= rows[p.row].len() {
        Some(Pos { row: p.row, col: p.col - 1 })
    } else {
        None
    }
}

/// The positions that stepping forward from `p` visits, in order: the
/// successor of `p`, its successor, and so on to the last position.
pub open spec fn following<T>(rows: Seq<Seq<T>>, p: Pos) -> Seq<Pos>
    decreases
        rows.len() - p.row,
        (if 0 <= p.row < rows.len() {
            rows[p.row].len() - p.col
        } else {
            0
        }),
{
    match succ(rows, p) {
        Some(q) => seq![q] + following(rows, q),
        None => Seq::empty(),
    }
}

/// The positions that stepping backward from `p` visits, in order: the
/// predecessor of `p`, its predecessor, and so on to the first position.
pub open spec fn preceding<T>(rows: Seq<Seq<T>>, p: Pos) -> Seq<Pos>
    decreases p.row, p.col,
{
    match pred(rows, p) {
        Some(q) => seq![q] + preceding(rows, q),
        None => Seq::empty(),
    }
}

/// Whether `steps[k]` is the first of `steps` whose value `f` accepts: `f`
/// may answer `true` on it and answered `false` on every step before it.
pub open spec fn first_accepted<T, F: Fn(Option<&T>) -> bool>(
    rows: Seq<Seq<T>>,
    steps: Seq<Pos>,
    f: F,
    k: int,
) -> bool {
    &&& 0 <= k < steps.len()
    &&& call_ensures(f, (element_ref(rows, steps[k]),), true)
    &&& forall|j: int|
        0 <= j < k ==> call_ensures(f, (element_ref(rows, #[trigger] steps[j]),), false)
}

/// Whether `f` answered `false` on the value of every one of `steps`.
pub open spec fn none_accepted<T, F: Fn(Option<&T>) -> bool>(
    rows: Seq<Seq<T>>,
    steps: Seq<Pos>,
    f: F,
) -> bool {
    forall|j: int|
        0 <= j < steps.len() ==> call_ensures(f, (element_ref(rows, #[trigger] steps[j]),), false)
}

/// The rows after rows `row` and `row + 1` have been fused into one; the
/// rows unchanged where there is no row `row + 1`.
pub open spec fn joined<T>(rows: Seq<Seq<T>>, row: int) -> Seq<Seq<T>> {
    if 0 <= row && row + 1 < rows.len() {
        rows.remove(row + 1).update(row, rows[row] + rows[row + 1])
    } else {
        rows
    }
}

/// The rows of `a` followed by the rows of `b`, with the last row of `a`
/// and the first row of `b` fused into one.
pub open spec fn merged<T>(a: Seq<Seq<T>>, b: Seq<Seq<T>>) -> Seq<Seq<T>> {
    if b.len() == 0 {
        a
    } else if a.len() == 0 {
        b
    } else {
        a.drop_last().push(a.last() + b.first()) + b.drop_first()
    }
}

/// The rows cut off at a position: the row of the position keeps its first
/// `col` elements and every later row is dropped.
pub open spec fn truncated<T>(rows: Seq<Seq<T>>, p: Pos) -> Seq<Seq<T>> {
    if 0 <= p.row < rows.len() {
        let row = rows[p.row];
        rows.take(p.row).push(
            if 0 <= p.col <= row.len() {
                row.take(p.col)
            } else {
                row
            },
        )
    } else {
        rows
    }
}

/// Whether the rows can be split at a position: at column zero the row may
/// be one past the last, elsewhere the column lies within an existing row.
pub open spec fn splittable<T>(rows: Seq<Seq<T>>, p: Pos) -> bool {
    if p.col == 0 {
        0 <= p.row <= rows.len()
    } else {
        0 <= p.row < rows.len() && 0 < p.col <= rows[p.row].len()
    }
}

/// What comes strictly before a position.
pub open spec fn split_head<T>(rows: Seq<Seq<T>>, p: Pos) -> Seq<Seq<T>> {
    if p.col == 0 {
        rows.take(p.row)
    } else {
        rows.take(p.row).push(rows[p.row].take(p.col))
    }
}

/// What comes from a position onward.
pub open spec fn split_tail<T>(rows: Seq<Seq<T>>, p: Pos) -> Seq<Seq<T>> {
    if p.col == 0 {
        rows.skip(p.row)
    } else {
        seq![rows[p.row].skip(p.col)] + rows.skip(p.row + 1)
    }
}

/// All rows concatenated into one sequence, with `separator`, where there
/// is one, between consecutive rows and never after the last.
pub open spec fn flat<T>(rows: Seq<Seq<T>>, separator: Option<T>) -> Seq<T>
    decreases rows.len(),
{
    if rows.len() == 0 {
        Seq::empty()
    } else if rows.len() == 1 {
        rows[0]
    } else {
        flat(rows.drop_last(), separator) + match separator {
            Some(s) => seq![s],
            None => Seq::empty(),
        } + rows.last()
    }
}

/// Whether `copy` holds, element by element, clones of `source`.
pub open spec fn cloned_seq<T: Clone>(source: Seq<T>, copy: Seq<T>) -> bool {
    &&& copy.len() == source.len()
    &&& forall|i: int| 0 <= i < source.len() ==> cloned::<T>(#[trigger] source[i], copy[i])
}

/// Whether `copy` holds, row by row and element by element, clones of
/// `source`.
pub open spec fn cloned_rows<T: Clone>(source: Seq<Seq<T>>, copy: Seq<Seq<T>>) -> bool {
    &&& copy.len() == source.len()
    &&& forall|i: int| 0 <= i < source.len() ==> cloned_seq(#[trigger] source[i], copy[i])
}

/// Whether cloning a `T` always yields an equal value.
pub open spec fn clone_is_exact<T: Clone>() -> bool {
    forall|a: T, b: T| cloned::<T>(a, b) ==> a == b
}

} // verus!
