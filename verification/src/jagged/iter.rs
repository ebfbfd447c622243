//! A cursor that walks a jagged array position by position, forward or
//! backward, and the rebuilding of an array from what a walk yields.
use crate::index::{Index2, Pos};
use crate::jagged::Jagged;
use crate::model::{
    cloned_rows, cloned_seq, clone_is_exact, element_ref, following, preceding, pred, succ,
};
use vstd::prelude::*;
use vstd::std_specs::iter::IteratorSpec;

verus! {

/// The state of a walk over a jagged array: the rows walked over, the
/// position that the next step yields, the position after which the walk
/// ends, if any, and whether the walk has ended.
pub struct Cursor<T> {
    pub rows: Seq<Seq<T>>,
    pub at: Pos,
    pub end: Option<Pos>,
    pub stopped: bool,
}

impl<T> Cursor<T> {
    /// The state after one step forward, or `None` where the walk yields
    /// nothing more: it has ended, or its position is out of bounds. A step
    /// yields the position `at` and moves to its successor. The walk ends
    /// with the step that yields the end position, or the last position of
    /// the array.
    pub open spec fn advance(self) -> Option<Cursor<T>> {
        if self.stopped || self.at.out_of_bounds(self.rows) {
            None
        } else {
            Some(
                Cursor {
                    rows: self.rows,
                    at: match succ(self.rows, self.at) {
                        Some(q) => q,
                        None => self.at,
                    },
                    end: self.end,
                    stopped: succ(self.rows, self.at) is None || self.end == Some(self.at),
                },
            )
        }
    }

    /// The state after one step backward, or `None` where the walk has
    /// ended. A step yields the position `at` and moves to its predecessor.
    /// The walk ends with the step that yields the end position, or a
    /// position without predecessor.
    pub open spec fn retreat(self) -> Option<Cursor<T>> {
        if self.stopped {
            None
        } else {
            Some(
                Cursor {
                    rows: self.rows,
                    at: match pred(self.rows, self.at) {
                        Some(q) => q,
                        None => self.at,
                    },
                    end: self.end,
                    stopped: pred(self.rows, self.at) is None || self.end == Some(self.at),
                },
            )
        }
    }

    /// The positions that walking forward from this state yields, in order.
    pub open spec fn forward(self) -> Seq<Pos>
        decreases
            (if self.stopped {
                0int
            } else {
                1int
            }),
            self.rows.len() - self.at.row,
            (if 0 <= self.at.row < self.rows.len() {
                self.rows[self.at.row].len() - self.at.col
            } else {
                0
            }),
    {
        match self.advance() {
            Some(next) => seq![self.at] + next.forward(),
            None => Seq::empty(),
        }
    }

    /// The positions that walking backward from this state yields, in
    /// order; none from a position with a negative coordinate.
    pub open spec fn backward(self) -> Seq<Pos>
        decreases
            (if self.stopped {
                0int
            } else {
                1int
            }),
            self.at.row,
            self.at.col,
    {
        if self.at.row < 0 || self.at.col < 0 {
            Seq::empty()
        } else {
            match self.retreat() {
                Some(next) => seq![self.at] + next.backward(),
                None => Seq::empty(),
            }
        }
    }
}

/// A forward walk without end position, from a position in bounds, yields
/// that position and then every position that follows it.
pub proof fn lemma_forward_is_following<T>(c: Cursor<T>)
    requires
        !c.stopped,
        c.end is None,
        !c.at.out_of_bounds(c.rows),
    ensures
        c.forward() == seq![c.at] + following(c.rows, c.at),
    decreases
        c.rows.len() - c.at.row,
        (if 0 <= c.at.row < c.rows.len() {
            c.rows[c.at.row].len() - c.at.col
        } else {
            0
        }),
{
    let next = c.advance().unwrap();
    if next.stopped {
        assert(next.forward() =~= Seq::empty());
    } else {
        lemma_forward_is_following(next);
    }
    assert(c.forward() =~= seq![c.at] + following(c.rows, c.at));
}

/// A backward walk without end position yields the position it starts
/// from and then every position that precedes it.
pub proof fn lemma_backward_is_preceding<T>(c: Cursor<T>)
    requires
        !c.stopped,
        c.end is None,
        c.at.row >= 0,
        c.at.col >= 0,
    ensures
        c.backward() == seq![c.at] + preceding(c.rows, c.at),
    decreases c.at.row, c.at.col,
{
    let next = c.retreat().unwrap();
    if next.stopped {
        assert(next.backward() =~= Seq::empty());
    } else {
        lemma_backward_is_preceding(next);
    }
    assert(c.backward() =~= seq![c.at] + preceding(c.rows, c.at));
}

/// Whether `items` holds, in order, the given positions of `rows`, each
/// with the element found there.
pub open spec fn yields<T>(
    rows: Seq<Seq<T>>,
    positions: Seq<Pos>,
    items: Seq<(Option<&T>, Index2)>,
) -> bool {
    &&& items.len() == positions.len()
    &&& forall|i: int|
        0 <= i < items.len() ==> (#[trigger] items[i]).1@ == positions[i] && items[i].0
            == element_ref(rows, positions[i])
}

/// The rows that a sequence of items stands for: an item opens a new row
/// where it is the first or where its row differs from that of the item
/// before it, and an item that holds an element adds it to the last row.
pub open spec fn regrouped<T>(items: Seq<(Option<&T>, Index2)>) -> Seq<Seq<T>>
    decreases items.len(),
{
    if items.len() == 0 {
        Seq::empty()
    } else {
        let before = regrouped(items.drop_last());
        let opened = if items.len() == 1 || items[items.len() - 2].1.row != items.last().1.row {
            before.push(Seq::empty())
        } else {
            before
        };
        match items.last().0 {
            Some(v) => opened.update(opened.len() - 1, opened.last().push(*v)),
            None => opened,
        }
    }
}

/// A regrouped sequence of items has a row as soon as it has an item.
pub proof fn lemma_regrouped_nonempty<T>(items: Seq<(Option<&T>, Index2)>)
    ensures
        items.len() > 0 ==> regrouped(items).len() > 0,
    decreases items.len(),
{
    if items.len() > 1 {
        lemma_regrouped_nonempty(items.drop_last());
    }
}

/// An iterator over the positions of a jagged array, each with the element
/// found there.
pub struct JaggedIterator<'a, T> {
    pub(super) data: &'a Jagged<T>,
    pub(super) row: usize,
    pub(super) col: usize,
    pub(super) end: Option<Index2>,
    pub(super) stop: bool,
}

impl<'a, T> View for JaggedIterator<'a, T> {
    type V = Cursor<T>;

    closed spec fn view(&self) -> Cursor<T> {
        Cursor {
            rows: self.data@,
            at: Pos { row: self.row as int, col: self.col as int },
            end: match self.end {
                Some(e) => Some(e@),
                None => None,
            },
            stopped: self.stop,
        }
    }
}

impl<'a, T> JaggedIterator<'a, T> {
    /// Instantiates a new [`JaggedIterator`] that starts at the first
    /// position and has no end position.
    #[must_use]
    pub fn new(data: &'a Jagged<T>) -> (iter: Self)
        ensures
            iter@ == (Cursor { rows: data@, at: Pos { row: 0, col: 0 }, end: None, stopped: false }),
    {
        Self { data, row: 0, col: 0, end: None, stop: false }
    }

    /// A [`JaggedIterator`] that starts from a given position. It has no
    /// end position.
    #[must_use]
    pub fn from(self, index: Index2) -> (iter: Self)
        ensures
            iter@ == (Cursor { rows: self@.rows, at: index@, end: None, stopped: self@.stopped }),
    {
        Self { data: self.data, row: index.row, col: index.col, end: None, stop: self.stop }
    }

    /// A [`JaggedIterator`] that ends at a given position. A column past
    /// the length of its row counts as that length, or zero where the row
    /// does not exist.
    #[must_use]
    pub fn to(self, index: Index2) -> (iter: Self)
        ensures
            iter@ == (Cursor {
                rows: self@.rows,
                at: self@.at,
                end: Some(
                    Pos {
                        row: index.row as int,
                        col: if index.row < self@.rows.len() {
                            if index.col < self@.rows[index.row as int].len() {
                                index.col as int
                            } else {
                                self@.rows[index.row as int].len() as int
                            }
                        } else {
                            0
                        },
                    },
                ),
                stopped: self@.stopped,
            }),
    {
        let limit = match self.data.len_col(index.row) {
            Some(n) => n,
            None => 0,
        };
        let col = if index.col < limit {
            index.col
        } else {
            limit
        };
        Self {
            data: self.data,
            row: self.row,
            col: self.col,
            end: Some(Index2::new(index.row, col)),
            stop: self.stop,
        }
    }

    /// Whether the position that the next step yields is the end position.
    fn at_end(&self) -> (hit: bool)
        ensures
            hit == (self@.end == Some(self@.at)),
    {
        match self.end {
            Some(e) => e.row == self.row && e.col == self.col,
            None => false,
        }
    }

    /// Takes one step forward: yields the current position with the
    /// element found there, or `None` where the walk yields nothing more.
    pub fn next(&mut self) -> (item: Option<(Option<&'a T>, Index2)>)
        ensures
            match item {
                Some((value, p)) => {
                    &&& old(self)@.advance() == Some(final(self)@)
                    &&& p@ == old(self)@.at
                    &&& value == element_ref(old(self)@.rows, p@)
                },
                None => old(self)@.advance() is None && final(self)@ == old(self)@,
            },
    {
        let current_index = Index2::new(self.row, self.col);
        if self.stop || current_index.out_of_bounds(self.data) {
            return None;
        }
        let hit = self.at_end();
        match self.data.next(current_index) {
            Some((_, index)) => {
                self.row = index.row;
                self.col = index.col;
            },
            None => {
                self.stop = true;
            },
        }
        if hit {
            self.stop = true;
        }
        Some((self.data.get(current_index), current_index))
    }

    /// Takes one step backward: yields the current position with the
    /// element found there, or `None` where the walk has ended.
    pub fn next_back(&mut self) -> (item: Option<(Option<&'a T>, Index2)>)
        ensures
            match item {
                Some((value, p)) => {
                    &&& old(self)@.retreat() == Some(final(self)@)
                    &&& p@ == old(self)@.at
                    &&& value == element_ref(old(self)@.rows, p@)
                },
                None => old(self)@.retreat() is None && final(self)@ == old(self)@,
            },
    {
        if self.stop {
            return None;
        }
        let current_index = Index2::new(self.row, self.col);
        let hit = self.at_end();
        match self.data.prev(current_index) {
            Some((_, index)) => {
                self.row = index.row;
                self.col = index.col;
            },
            None => {
                self.stop = true;
            },
        }
        if hit {
            self.stop = true;
        }
        Some((self.data.get(current_index), current_index))
    }

    /// Walks forward to the end and returns everything that the walk
    /// yields, in order.
    pub fn items(self) -> (items: Vec<(Option<&'a T>, Index2)>)
        ensures
            yields(self@.rows, self@.forward(), items@),
    {
        let mut iter = self;
        let mut items: Vec<(Option<&'a T>, Index2)> = Vec::new();
        let ghost all = self@.forward();
        loop
            invariant
                iter@.rows == self@.rows,
                items@.len() <= all.len(),
                all == self@.forward(),
                all.skip(items@.len() as int) == iter@.forward(),
                yields(self@.rows, all.take(items@.len() as int), items@),
            decreases all.len() - items@.len(),
        {
            let ghost n = items@.len() as int;
            match iter.next() {
                Some(item) => {
                    items.push(item);
                    proof {
                        assert(all.skip(n)[0] == item.1@);
                        assert(all.skip(n + 1) =~= all.skip(n).skip(1));
                        assert(all.skip(n).skip(1) =~= iter@.forward());
                    }
                },
                None => {
                    proof {
                        assert(all.skip(n).len() == 0);
                        assert(all.take(n) =~= all);
                    }
                    return items;
                },
            }
        }
    }

    /// Walks backward to the end and returns everything that the walk
    /// yields, in order.
    pub fn items_rev(self) -> (items: Vec<(Option<&'a T>, Index2)>)
        ensures
            yields(self@.rows, self@.backward(), items@),
    {
        let mut iter = self;
        let mut items: Vec<(Option<&'a T>, Index2)> = Vec::new();
        let ghost all = self@.backward();
        loop
            invariant
                iter@.rows == self@.rows,
                iter@.at.row >= 0,
                iter@.at.col >= 0,
                items@.len() <= all.len(),
                all == self@.backward(),
                all.skip(items@.len() as int) == iter@.backward(),
                yields(self@.rows, all.take(items@.len() as int), items@),
            decreases all.len() - items@.len(),
        {
            let ghost n = items@.len() as int;
            match iter.next_back() {
                Some(item) => {
                    items.push(item);
                    proof {
                        assert(all.skip(n)[0] == item.1@);
                        assert(all.skip(n + 1) =~= all.skip(n).skip(1));
                        assert(all.skip(n).skip(1) =~= iter@.backward());
                    }
                },
                None => {
                    proof {
                        assert(all.skip(n).len() == 0);
                        assert(all.take(n) =~= all);
                    }
                    return items;
                },
            }
        }
    }
}

impl<T> Jagged<T> {
    /// Returns an iterator that yields the elements of a jagged array
    /// along with their positions, starting at the first position.
    #[must_use]
    pub fn iter(&self) -> (iter: JaggedIterator<'_, T>)
        ensures
            iter@ == (Cursor { rows: self@, at: Pos { row: 0, col: 0 }, end: None, stopped: false }),
    {
        JaggedIterator::new(self)
    }

    /// Returns an iterator over the rows of the jagged array, which yields
    /// every row in order.
    pub fn iter_row(&self) -> (iter: core::slice::Iter<'_, Vec<T>>)
        ensures
            iter.remaining().len() == self@.len(),
            forall|i: int| 0 <= i < self@.len() ==> (#[trigger] iter.remaining()[i])@ == self@[i],
    {
        self.data.iter()
    }
}

impl<T: Clone> Jagged<T> {
    /// Collects the items of a walk into a new jagged array: a new row
    /// begins with the first item and wherever the row index changes, and
    /// each element that an item holds is cloned into the current row.
    pub fn from_iter(items: Vec<(Option<&T>, Index2)>) -> (result: Self)
        ensures
            cloned_rows(regrouped(items@), result@),
            clone_is_exact::<T>() ==> result@ == regrouped(items@),
    {
        let mut result: Jagged<T> = Jagged::default();
        let mut current_row: usize = 0;
        let n = items.len();
        let mut i: usize = 0;
        while i < n
            invariant
                n == items@.len(),
                i <= n,
                cloned_rows(regrouped(items@.take(i as int)), result@),
                i > 0 ==> current_row == items@[i - 1].1.row,
            decreases n - i,
        {
            let (value, index) = items[i];
            proof {
                assert(items@.take(i + 1).drop_last() =~= items@.take(i as int));
                lemma_regrouped_nonempty(items@.take(i as int));
            }
            if result.is_empty() || index.row != current_row {
                current_row = index.row;
                result.push(Vec::<T>::new());
            }
            if let Some(v) = value {
                result.push(v.clone());
            }
            i += 1;
        }
        proof {
            assert(items@.take(n as int) =~= items@);
            if clone_is_exact::<T>() {
                let target = regrouped(items@);
                assert forall|r: int| 0 <= r < target.len() implies target[r] =~= result@[r] by {
                    assert(cloned_seq(target[r], result@[r]));
                }
                assert(result@ =~= target);
            }
        }
        result
    }
}

} // verus!
