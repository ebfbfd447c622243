//! What a walk over a jagged array covers: the rows between two positions,
//! and that regrouping what a forward walk yields gives those rows.
use crate::index::{Index2, Pos};
use crate::jagged::iter::{regrouped, yields, Cursor};
use crate::model::{element, element_ref, last_col, last_row, succ};
use vstd::prelude::*;

verus! {

/// The number of elements of its row that a walk has yielded once it has
/// yielded the position `p`.
pub open spec fn reach<T>(rows: Seq<Seq<T>>, p: Pos) -> int {
    if rows[p.row].len() == 0 {
        0
    } else {
        p.col + 1
    }
}

/// The rows from position `from` to position `to`, both included: the
/// first row from the start column on, whole rows in between, the last row
/// up to the end column.
pub open spec fn rows_between<T>(rows: Seq<Seq<T>>, from: Pos, to: Pos) -> Seq<Seq<T>> {
    if from.row == to.row {
        seq![rows[from.row].subrange(from.col, reach(rows, to))]
    } else {
        seq![rows[from.row].skip(from.col)] + rows.subrange(from.row + 1, to.row)
            + seq![rows[to.row].take(reach(rows, to))]
    }
}

/// The last position of the array.
pub open spec fn last_position<T>(rows: Seq<Seq<T>>) -> Pos {
    Pos { row: last_row(rows), col: last_col(rows, last_row(rows)) }
}

/// The position with which a forward walk from `from` ends: the end
/// position where the walk comes by it, else the last position of the
/// array.
pub open spec fn walk_end<T>(rows: Seq<Seq<T>>, from: Pos, end: Option<Pos>) -> Pos {
    match end {
        Some(e) => if !e.out_of_bounds(rows) && from.le(e) {
            e
        } else {
            last_position(rows)
        },
        None => last_position(rows),
    }
}

/// The rows that a forward walk from `from` with the given end position
/// covers: none where `from` is out of bounds.
pub open spec fn walked<T>(rows: Seq<Seq<T>>, from: Pos, end: Option<Pos>) -> Seq<Seq<T>> {
    if from.out_of_bounds(rows) {
        Seq::empty()
    } else {
        rows_between(rows, from, walk_end(rows, from, end))
    }
}

/// A forward walk that has not ended and stands on a position in bounds
/// yields that position first, then each time the successor of the
/// position before, all of them in bounds, and last the position that
/// `walk_end` names.
pub proof fn lemma_forward_chain<T>(c: Cursor<T>)
    requires
        !c.stopped,
        !c.at.out_of_bounds(c.rows),
    ensures
        c.forward().len() > 0,
        c.forward()[0] == c.at,
        c.forward().last() == walk_end(c.rows, c.at, c.end),
        forall|i: int| 0 <= i < c.forward().len() ==> !(#[trigger] c.forward()[i]).out_of_bounds(c.rows),
        forall|i: int|
            0 <= i < c.forward().len() - 1 ==> succ(c.rows, #[trigger] c.forward()[i]) == Some(
                c.forward()[i + 1],
            ),
    decreases
        c.rows.len() - c.at.row,
        (if 0 <= c.at.row < c.rows.len() {
            c.rows[c.at.row].len() - c.at.col
        } else {
            0
        }),
{
    let next = c.advance().unwrap();
    let walk = c.forward();
    assert(walk == seq![c.at] + next.forward());
    if next.stopped {
        assert(next.forward() =~= Seq::empty());
        assert(walk =~= seq![c.at]);
    } else {
        lemma_forward_chain(next);
        let rest = next.forward();
        assert(walk.last() == rest.last());
        assert forall|i: int| 0 <= i < walk.len() implies !(#[trigger] walk[i]).out_of_bounds(
            c.rows,
        ) by {
            if i > 0 {
                assert(walk[i] == rest[i - 1]);
            }
        }
        assert forall|i: int| 0 <= i < walk.len() - 1 implies succ(c.rows, #[trigger] walk[i])
            == Some(walk[i + 1]) by {
            if i > 0 {
                assert(walk[i] == rest[i - 1]);
                assert(walk[i + 1] == rest[i]);
            } else {
                assert(walk[1] == rest[0]);
            }
        }
    }
}

/// The rows up to a position, extended by the step to its successor: where
/// the successor lies in the same row, the last row gains the element
/// there; else a new row begins, with the element at the successor where
/// there is one.
pub open spec fn stepped<T>(rows: Seq<Seq<T>>, before: Seq<Seq<T>>, p: Pos, to: Pos) -> Seq<Seq<T>> {
    let opened = if to.row == p.row {
        before
    } else {
        before.push(Seq::empty())
    };
    match element(rows, to) {
        Some(v) => opened.update(opened.len() - 1, opened.last().push(v)),
        None => opened,
    }
}

/// The rows from one position to the successor of another are the rows up
/// to that other position, extended by one step.
proof fn lemma_rows_between_step<T>(rows: Seq<Seq<T>>, from: Pos, p: Pos, to: Pos)
    requires
        !from.out_of_bounds(rows),
        !p.out_of_bounds(rows),
        from.le(p),
        succ(rows, p) == Some(to),
    ensures
        rows_between(rows, from, to) == stepped(rows, rows_between(rows, from, p), p, to),
{
    let before = rows_between(rows, from, p);
    let after = rows_between(rows, from, to);
    let target = stepped(rows, before, p, to);
    assert(after.len() == target.len());
    assert forall|i: int| 0 <= i < after.len() implies after[i] =~= target[i] by {}
    assert(after =~= target);
}

/// Regrouping what a chain of successive positions yields gives the rows
/// from the first position to the last.
pub proof fn lemma_regrouped_chain<T>(
    rows: Seq<Seq<T>>,
    walk: Seq<Pos>,
    items: Seq<(Option<&T>, Index2)>,
)
    requires
        walk.len() > 0,
        yields(rows, walk, items),
        forall|i: int| 0 <= i < walk.len() ==> !(#[trigger] walk[i]).out_of_bounds(rows),
        forall|i: int|
            0 <= i < walk.len() - 1 ==> succ(rows, #[trigger] walk[i]) == Some(walk[i + 1]),
    ensures
        regrouped(items) == rows_between(rows, walk[0], walk.last()),
    decreases walk.len(),
{
    let n = walk.len() as int;
    let from = walk[0];
    let to = walk.last();
    assert(items.last().1@ == to);
    if n == 1 {
        assert(regrouped(items.drop_last()) =~= Seq::empty());
        assert(regrouped(items) =~~= rows_between(rows, from, to));
    } else {
        let before = walk.drop_last();
        let p = before.last();
        assert(p == walk[n - 2]);
        assert(succ(rows, p) == Some(to));
        assert(yields(rows, before, items.drop_last())) by {
            assert forall|i: int| 0 <= i < n - 1 implies (#[trigger] items.drop_last()[i]).1@
                == before[i] && items.drop_last()[i].0 == element_ref(
                rows,
                before[i],
            ) by {
                assert(items.drop_last()[i] == items[i]);
                assert(before[i] == walk[i]);
            }
        }
        assert forall|i: int| 0 <= i < before.len() implies !(#[trigger] before[i]).out_of_bounds(
            rows,
        ) by {
            assert(before[i] == walk[i]);
        }
        assert forall|i: int| 0 <= i < before.len() - 1 implies succ(rows, #[trigger] before[i])
            == Some(before[i + 1]) by {
            assert(before[i] == walk[i]);
            assert(before[i + 1] == walk[i + 1]);
        }
        lemma_regrouped_chain(rows, before, items.drop_last());
        lemma_chain_order(rows, before);
        lemma_rows_between_step(rows, from, p, to);
        assert(items[n - 2].1@ == p);
        assert(before[0] == from);
        assert(regrouped(items) == stepped(rows, regrouped(items.drop_last()), p, to));
    }
}

/// Along a chain of successive positions no position comes before the
/// first.
pub proof fn lemma_chain_order<T>(rows: Seq<Seq<T>>, walk: Seq<Pos>)
    requires
        walk.len() > 0,
        forall|i: int| 0 <= i < walk.len() ==> !(#[trigger] walk[i]).out_of_bounds(rows),
        forall|i: int|
            0 <= i < walk.len() - 1 ==> succ(rows, #[trigger] walk[i]) == Some(walk[i + 1]),
    ensures
        walk[0].le(walk.last()),
    decreases walk.len(),
{
    if walk.len() > 1 {
        let before = walk.drop_last();
        assert forall|i: int| 0 <= i < before.len() implies !(#[trigger] before[i]).out_of_bounds(
            rows,
        ) by {
            assert(before[i] == walk[i]);
        }
        assert forall|i: int| 0 <= i < before.len() - 1 implies succ(rows, #[trigger] before[i])
            == Some(before[i + 1]) by {
            assert(before[i] == walk[i]);
            assert(before[i + 1] == walk[i + 1]);
        }
        lemma_chain_order(rows, before);
        assert(before.last() == walk[walk.len() - 2]);
        assert(succ(rows, before.last()) == Some(walk.last()));
    }
}

/// Regrouping what a forward walk yields gives the rows that the walk
/// covers.
pub proof fn lemma_regrouped_walk<T>(c: Cursor<T>, items: Seq<(Option<&T>, Index2)>)
    requires
        !c.stopped,
        yields(c.rows, c.forward(), items),
    ensures
        regrouped(items) == walked(c.rows, c.at, c.end),
{
    if c.at.out_of_bounds(c.rows) {
        assert(c.forward() =~= Seq::empty());
        assert(regrouped(items) =~= Seq::empty());
    } else {
        lemma_forward_chain(c);
        lemma_regrouped_chain(c.rows, c.forward(), items);
    }
}

} // verus!
