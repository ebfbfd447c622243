//! First and last rows and columns of a jagged array.
use crate::index::Index2;
use crate::jagged::Jagged;
use crate::model::{last_col, last_row};
use vstd::prelude::*;

verus! {

impl<T> Jagged<T> {
    /// Returns the first row's index.
    #[must_use]
    pub fn first_row_index(&self) -> (row: usize)
        ensures
            row == 0,
    {
        0
    }

    /// Returns the last row's index, zero where there is no row.
    #[must_use]
    pub fn last_row_index(&self) -> (row: usize)
        ensures
            row == last_row(self@),
    {
        let n = self.data.len();
        if n == 0 {
            0
        } else {
            n - 1
        }
    }

    /// Returns the first column's index within a row.
    #[must_use]
    pub fn first_col_index(&self, _row_index: usize) -> (col: usize)
        ensures
            col == 0,
    {
        0
    }

    /// Returns the last column's index within a row, zero where the row is
    /// empty or does not exist.
    #[must_use]
    pub fn last_col_index(&self, row_index: usize) -> (col: usize)
        ensures
            col == last_col(self@, row_index as int),
    {
        if row_index < self.data.len() {
            let n = self.data[row_index].len();
            if n == 0 {
                0
            } else {
                n - 1
            }
        } else {
            0
        }
    }

    /// Returns the first row, if it exists.
    #[must_use]
    pub fn first_row(&self) -> (row: Option<&Vec<T>>)
        ensures
            match row {
                Some(r) => self@.len() > 0 && r@ == self@.first(),
                None => self@.len() == 0,
            },
    {
        if self.data.len() > 0 {
            Some(&self.data[0])
        } else {
            None
        }
    }

    /// Returns the last row, if it exists.
    #[must_use]
    pub fn last_row(&self) -> (row: Option<&Vec<T>>)
        ensures
            match row {
                Some(r) => self@.len() > 0 && r@ == self@.last(),
                None => self@.len() == 0,
            },
    {
        let n = self.data.len();
        if n > 0 {
            Some(&self.data[n - 1])
        } else {
            None
        }
    }

    /// Returns the first element of a row, if it exists.
    #[must_use]
    pub fn first_col(&self, row_index: usize) -> (value: Option<&T>)
        ensures
            match value {
                Some(v) => row_index < self@.len() && self@[row_index as int].len() > 0 && *v
                    == self@[row_index as int].first(),
                None => !(row_index < self@.len() && self@[row_index as int].len() > 0),
            },
    {
        self.get(Index2::new(row_index, 0))
    }

    /// Returns the last element of a row, if it exists.
    #[must_use]
    pub fn last_col(&self, row_index: usize) -> (value: Option<&T>)
        ensures
            match value {
                Some(v) => row_index < self@.len() && self@[row_index as int].len() > 0 && *v
                    == self@[row_index as int].last(),
                None => !(row_index < self@.len() && self@[row_index as int].len() > 0),
            },
    {
        self.get(Index2::new(row_index, self.last_col_index(row_index)))
    }

    /// Check if a given position is in the first row.
    #[must_use]
    pub fn is_first_row(&self, index: Index2) -> (first: bool)
        ensures
            first == (index.row == 0 && self@.len() > 0),
    {
        index.row == 0 && !self.data.is_empty()
    }

    /// Check if a given position is in the last row.
    #[must_use]
    pub fn is_last_row(&self, index: Index2) -> (last: bool)
        ensures
            last == (self@.len() > 0 && index.row == self@.len() - 1),
    {
        let n = self.data.len();
        n > 0 && index.row == n - 1
    }

    /// Check if a given position is in the first column of an existing row.
    #[must_use]
    pub fn is_first_col(&self, index: Index2) -> (first: bool)
        ensures
            first == (index.row < self@.len() && index.col == 0),
    {
        index.row < self.data.len() && index.col == 0
    }

    /// Check if a given position is in or beyond the last column of an
    /// existing row.
    #[must_use]
    pub fn is_last_col(&self, index: Index2) -> (last: bool)
        ensures
            last == (index.row < self@.len() && index.col >= last_col(self@, index.row as int)),
    {
        if index.row < self.data.len() {
            let n = self.data[index.row].len();
            n == 0 || index.col >= n - 1
        } else {
            false
        }
    }
}

} // verus!
