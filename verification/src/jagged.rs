//! The [`Jagged`] container and its structural operations.
pub mod copy;
pub mod extract;
mod helper;
pub mod iter;
pub mod lines;
pub mod match_indices;
mod step;
pub mod walk;

use crate::index::Index2;
use crate::model::{
    cloned_seq, clone_is_exact, flat, joined, merged, split_head, split_tail, splittable,
    truncated,
};
use crate::traits::{JaggedIndex, JaggedRemove, JaggedSlice};
use vstd::prelude::*;

verus! {

/// The rows that a vector of vectors holds, each as a sequence.
pub open spec fn rows_of<T>(data: Seq<Vec<T>>) -> Seq<Seq<T>> {
    Seq::new(data.len(), |i: int| data[i]@)
}

/// A generic container for working with an object, where each element is
/// organized into lines (rows).
///
/// The [`Jagged`] struct wraps a vector of vectors, where the outer vector
/// represents rows and the inner vectors represent the elements within each
/// row. Its view is the sequence of its rows.
#[derive(Debug, PartialEq, Eq, Clone)]
pub struct Jagged<T> {
    pub(crate) data: Vec<Vec<T>>,
}

impl<T> View for Jagged<T> {
    type V = Seq<Seq<T>>;

    closed spec fn view(&self) -> Seq<Seq<T>> {
        rows_of(self.data@)
    }
}

/// The view of a jagged array is the sequence of its rows.
pub(crate) broadcast proof fn lemma_view<T>(jagged: &Jagged<T>)
    ensures
        #[trigger] jagged.view() == rows_of(jagged.data@),
{
}

/// The number of rows of a jagged array, and the length of each row, fit a
/// machine integer.
pub proof fn lemma_lengths_fit<T>(jagged: &Jagged<T>)
    ensures
        jagged@.len() <= usize::MAX,
        forall|i: int| 0 <= i < jagged@.len() ==> (#[trigger] jagged@[i]).len() <= usize::MAX,
{
    assert(jagged.data.len() == jagged.data@.len());
    assert forall|i: int| 0 <= i < jagged@.len() implies (#[trigger] jagged@[i]).len()
        <= usize::MAX by {
        let row = jagged.data@[i];
        assert(row.len() == row@.len());
    }
}

impl<T> Default for Jagged<T> {
    fn default() -> (jagged: Self)
        ensures
            jagged@ == Seq::<Seq<T>>::empty(),
    {
        Jagged { data: Vec::new() }
    }
}

impl<T> Jagged<T> {
    /// Instantiates a new [`Jagged`] object that holds the given rows.
    #[must_use]
    pub fn new(data: Vec<Vec<T>>) -> (jagged: Self)
        ensures
            jagged@ == rows_of(data@),
    {
        Jagged { data }
    }

    /// Clears the jagged array, removing all rows.
    pub fn clear(&mut self)
        ensures
            final(self)@ == Seq::<Seq<T>>::empty(),
    {
        self.data.clear();
    }

    /// Appends to the back of the array: a single element onto the last
    /// row (nothing where there is no row), a whole row as a new row.
    pub fn push<U>(&mut self, slice: U) where U: JaggedSlice<T>
        ensures
            final(self)@ == slice.pushed(old(self)@),
    {
        slice.push_into(self);
    }

    /// Inserts at `index`, shifting all that comes after it: a single
    /// element at a position (nothing where the row does not exist), a whole
    /// row at a row index.
    pub fn insert<I, U>(&mut self, index: I, slice: U) where
        I: JaggedIndex<T>,
        U: JaggedSlice<T, Index = I>,

        requires
            slice.insertable(index, old(self)@),
        ensures
            final(self)@ == slice.inserted(index, old(self)@),
    {
        slice.insert_into(index, self);
    }

    /// Removes and returns what `index` addresses: the element at a
    /// position, or the whole row at a row index.
    pub fn remove<I>(&mut self, index: I) -> (out: I::Output) where I: JaggedRemove<T>
        requires
            index.removable(old(self)@),
        ensures
            index.taken(old(self)@, out),
            final(self)@ == index.removed(old(self)@),
    {
        index.remove(self)
    }

    /// Moves all the rows of `other` into `self`, leaving `other` empty.
    ///
    /// Use [`Self::merge`] if the arrays should be fused at tail and head
    /// instead.
    pub fn append(&mut self, other: &mut Self)
        ensures
            final(self)@ == old(self)@ + old(other)@,
            final(other)@ == Seq::<Seq<T>>::empty(),
    {
        self.data.append(&mut other.data);
    }

    /// Moves all the rows of `other` into `self`, leaving `other` empty.
    ///
    /// Similar to [`Self::append`] but fuses the last row of `self` with
    /// the first row of `other`.
    pub fn merge(&mut self, other: &mut Self)
        ensures
            final(self)@ == merged(old(self)@, old(other)@),
            final(other)@ == Seq::<Seq<T>>::empty(),
    {
        if other.data.is_empty() {
            return ;
        }
        let n = self.data.len();
        if n > 0 {
            let mut first = other.data.remove(0);
            self.data[n - 1].append(&mut first);
        }
        self.data.append(&mut other.data);
    }

    /// Joins two consecutive rows together: row `row_index` takes the
    /// elements of row `row_index + 1`, which is removed. Does nothing where
    /// there is no row `row_index + 1`.
    pub fn join_lines(&mut self, row_index: usize)
        ensures
            final(self)@ == joined(old(self)@, row_index as int),
    {
        let n = self.data.len();
        if row_index >= n || row_index + 1 >= n {
            return ;
        }
        let mut row = self.data.remove(row_index + 1);
        self.data[row_index].append(&mut row);
    }

    /// Truncate lines up to the specified position.
    pub fn truncate(&mut self, index: Index2)
        ensures
            final(self)@ == truncated(old(self)@, index@),
    {
        if index.row < self.data.len() {
            self.data[index.row].truncate(index.col);
            self.data.truncate(index.row + 1);
        }
    }

    /// Splits a `Jagged` array into two at the given index.
    ///
    /// Returns a newly allocated `Jagged` containing the elements from `at`
    /// onward. After the call, `self` is left containing the elements
    /// before `at`.
    #[must_use]
    pub fn split_off(&mut self, at: Index2) -> (tail: Self)
        requires
            splittable(old(self)@, at@),
        ensures
            final(self)@ == split_head(old(self)@, at@),
            tail@ == split_tail(old(self)@, at@),
    {
        if at.col == 0 {
            Self::new(self.data.split_off(at.row))
        } else {
            proof {
                lemma_lengths_fit(self);
            }
            let next = at.row + 1;
            let rest = self.data[at.row].split_off(at.col);
            let mut tail = self.data.split_off(next);
            tail.insert(0, rest);
            Self::new(tail)
        }
    }

    /// Returns `true` if the object contains no rows.
    #[must_use]
    pub fn is_empty(&self) -> (empty: bool)
        ensures
            empty == (self@.len() == 0),
    {
        self.data.is_empty()
    }

    /// Returns `true` if a specific row contains no elements.
    /// Returns None if the row is out of bounds.
    #[must_use]
    pub fn is_empty_row(&self, row: usize) -> (empty: Option<bool>)
        ensures
            empty == if row < self@.len() {
                Some(self@[row as int].len() == 0)
            } else {
                None
            },
    {
        match self.len_col(row) {
            Some(n) => Some(n == 0),
            None => None,
        }
    }

    /// Get the number of rows.
    #[must_use]
    pub fn len(&self) -> (n: usize)
        ensures
            n == self@.len(),
    {
        self.data.len()
    }

    /// Get the number of columns of a given row, which must exist.
    #[must_use]
    pub fn len_col_unchecked(&self, row: usize) -> (n: usize)
        requires
            row < self@.len(),
        ensures
            n == self@[row as int].len(),
    {
        self.data[row].len()
    }

    /// Get the number of columns of a given row.
    /// Returns None if the row is out of bounds.
    pub fn len_col(&self, row: usize) -> (n: Option<usize>)
        ensures
            match n {
                Some(n) => row < self@.len() && n == self@[row as int].len(),
                None => row >= self@.len(),
            },
    {
        if row < self.data.len() {
            Some(self.data[row].len())
        } else {
            None
        }
    }

    /// Get a reference to what `index` addresses: the element at a
    /// position, or the row at a row index. Returns `None` if the index is
    /// out of range.
    #[must_use]
    pub fn get<I>(&self, index: I) -> (out: Option<&I::Output>) where I: JaggedIndex<T>
        ensures
            match out {
                Some(v) => index.in_range(self@) && index.points_to(self@, *v),
                None => !index.in_range(self@),
            },
    {
        index.get(self)
    }

    /// Get a mutable reference to what `index` addresses. Returns `None` if
    /// the index is out of range. Whatever the caller writes through the
    /// reference replaces what the index addresses and nothing else.
    #[must_use]
    pub fn get_mut<I>(&mut self, index: I) -> (out: Option<&mut I::Output>) where
        I: JaggedIndex<T>,

        ensures
            match out {
                Some(v) => index.in_range(old(self)@) && index.points_to(old(self)@, *v)
                    && final(self)@ == index.replaced(old(self)@, *final(v)),
                None => !index.in_range(old(self)@) && final(self)@ == old(self)@,
            },
    {
        index.get_mut(self)
    }
}

impl<T: Clone> Jagged<T> {
    /// Flattens the jagged array into a single vector with optional line
    /// breaks.
    ///
    /// Each row is concatenated into the result in order. If provided, the
    /// `line_break` element is inserted between rows.
    pub fn flatten(&self, line_break: &Option<T>) -> (flattened: Vec<T>)
        ensures
            cloned_seq(flat(self@, *line_break), flattened@),
            clone_is_exact::<T>() ==> flattened@ == flat(self@, *line_break),
    {
        let mut flattened: Vec<T> = Vec::new();
        let n = self.data.len();
        let mut i: usize = 0;
        while i < n
            invariant
                n == self.data.len(),
                i <= n,
                cloned_seq(flat(self@.take(i as int), *line_break), flattened@),
            decreases n - i,
        {
            let ghost before = flattened@;
            if i > 0 {
                if let Some(item) = line_break.clone() {
                    flattened.push(item);
                }
            }
            flattened.extend_from_slice(self.data[i].as_slice());
            proof {
                let rows = self@.take(i as int + 1);
                assert(rows.drop_last() == self@.take(i as int));
                assert(rows.last() == self@[i as int]);
                let target = flat(rows, *line_break);
                assert(cloned_seq(target, flattened@)) by {
                    assert forall|k: int| 0 <= k < target.len() implies cloned::<T>(
                        #[trigger] target[k],
                        flattened@[k],
                    ) by {
                        if k < before.len() {
                            assert(flattened@[k] == before[k]);
                        }
                    }
                }
            }
            i += 1;
        }
        proof {
            assert(self@.take(n as int) == self@);
            if clone_is_exact::<T>() {
                assert(flattened@ =~= flat(self@, *line_break));
            }
        }
        flattened
    }
}

} // verus!
