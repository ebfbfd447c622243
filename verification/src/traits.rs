//! Traits by which a jagged array is addressed and filled: by position for
//! single elements, by row index for whole rows.
use crate::index::{Index2, RowIndex};
use crate::jagged::{lemma_view, Jagged};
use vstd::prelude::*;
use vstd::std_specs::convert::{FromSpec, FromSpecImpl};

verus! {

/// A helper trait used for indexing operations of a jagged array.
pub trait JaggedIndex<T>: Sized {
    type Output: Sized;

    /// Whether the index addresses something in `rows`.
    spec fn in_range(self, rows: Seq<Seq<T>>) -> bool;

    /// Whether `out` is what the index addresses in `rows`.
    spec fn points_to(self, rows: Seq<Seq<T>>, out: Self::Output) -> bool;

    /// The rows after what the index addresses has been replaced by `value`.
    spec fn replaced(self, rows: Seq<Seq<T>>, value: Self::Output) -> Seq<Seq<T>>;

    fn get(self, array: &Jagged<T>) -> (out: Option<&Self::Output>)
        ensures
            match out {
                Some(v) => self.in_range(array@) && self.points_to(array@, *v),
                None => !self.in_range(array@),
            },
    ;

    fn get_mut(self, array: &mut Jagged<T>) -> (out: Option<&mut Self::Output>)
        ensures
            match out {
                Some(v) => self.in_range(old(array)@) && self.points_to(old(array)@, *v)
                    && final(array)@ == self.replaced(old(array)@, *final(v)),
                None => !self.in_range(old(array)@) && final(array)@ == old(array)@,
            },
    ;
}

/// A helper trait used for removing what an index addresses.
pub trait JaggedRemove<T>: Sized {
    type Output: Sized;

    /// Whether the index addresses something in `rows` that can be removed.
    spec fn removable(self, rows: Seq<Seq<T>>) -> bool;

    /// Whether `out` is what the index addresses in `rows`.
    spec fn taken(self, rows: Seq<Seq<T>>, out: Self::Output) -> bool;

    /// The rows without what the index addresses.
    spec fn removed(self, rows: Seq<Seq<T>>) -> Seq<Seq<T>>;

    fn remove(self, array: &mut Jagged<T>) -> (out: Self::Output)
        requires
            self.removable(old(array)@),
        ensures
            self.taken(old(array)@, out),
            final(array)@ == self.removed(old(array)@),
    ;
}

impl<T> JaggedIndex<T> for Index2 {
    type Output = T;

    open spec fn in_range(self, rows: Seq<Seq<T>>) -> bool {
        self.row < rows.len() && self.col < rows[self.row as int].len()
    }

    open spec fn points_to(self, rows: Seq<Seq<T>>, out: T) -> bool {
        out == rows[self.row as int][self.col as int]
    }

    open spec fn replaced(self, rows: Seq<Seq<T>>, value: T) -> Seq<Seq<T>> {
        rows.update(self.row as int, rows[self.row as int].update(self.col as int, value))
    }

    fn get(self, array: &Jagged<T>) -> (out: Option<&T>) {
        broadcast use lemma_view;

        if self.row < array.data.len() {
            let line = &array.data[self.row];
            if self.col < line.len() {
                Some(&line[self.col])
            } else {
                None
            }
        } else {
            None
        }
    }

    fn get_mut(self, array: &mut Jagged<T>) -> (out: Option<&mut T>) {
        broadcast use lemma_view;

        if self.row < array.data.len() {
            let line = &mut array.data[self.row];
            if self.col < line.len() {
                Some(&mut line[self.col])
            } else {
                None
            }
        } else {
            None
        }
    }
}

impl<T> JaggedRemove<T> for Index2 {
    type Output = T;

    open spec fn removable(self, rows: Seq<Seq<T>>) -> bool {
        self.row < rows.len() && self.col < rows[self.row as int].len()
    }

    open spec fn taken(self, rows: Seq<Seq<T>>, out: T) -> bool {
        out == rows[self.row as int][self.col as int]
    }

    open spec fn removed(self, rows: Seq<Seq<T>>) -> Seq<Seq<T>> {
        rows.update(self.row as int, rows[self.row as int].remove(self.col as int))
    }

    fn remove(self, array: &mut Jagged<T>) -> (out: T) {
        broadcast use lemma_view;

        array.data[self.row].remove(self.col)
    }
}

impl<T> JaggedIndex<T> for RowIndex {
    type Output = Vec<T>;

    open spec fn in_range(self, rows: Seq<Seq<T>>) -> bool {
        self.row() < rows.len()
    }

    open spec fn points_to(self, rows: Seq<Seq<T>>, out: Vec<T>) -> bool {
        out@ == rows[self.row()]
    }

    open spec fn replaced(self, rows: Seq<Seq<T>>, value: Vec<T>) -> Seq<Seq<T>> {
        rows.update(self.row(), value@)
    }

    fn get(self, array: &Jagged<T>) -> (out: Option<&Vec<T>>) {
        broadcast use lemma_view;

        let row = self.value();
        if row < array.data.len() {
            Some(&array.data[row])
        } else {
            None
        }
    }

    fn get_mut(self, array: &mut Jagged<T>) -> (out: Option<&mut Vec<T>>) {
        broadcast use lemma_view;

        let row = self.value();
        if row < array.data.len() {
            Some(&mut array.data[row])
        } else {
            None
        }
    }
}

impl<T> JaggedRemove<T> for RowIndex {
    type Output = Vec<T>;

    open spec fn removable(self, rows: Seq<Seq<T>>) -> bool {
        0 <= self.row() < rows.len()
    }

    open spec fn taken(self, rows: Seq<Seq<T>>, out: Vec<T>) -> bool {
        out@ == rows[self.row()]
    }

    open spec fn removed(self, rows: Seq<Seq<T>>) -> Seq<Seq<T>> {
        rows.remove(self.row())
    }

    fn remove(self, array: &mut Jagged<T>) -> (out: Vec<T>) {
        broadcast use lemma_view;

        array.data.remove(self.value())
    }
}

/// A helper trait used for data operations of a jagged array.
pub trait JaggedSlice<T>: Sized {
    type Index: JaggedIndex<T>;

    /// The rows after the slice has been appended.
    spec fn pushed(self, rows: Seq<Seq<T>>) -> Seq<Seq<T>>;

    /// Whether the slice can be inserted at `index`.
    spec fn insertable(self, index: Self::Index, rows: Seq<Seq<T>>) -> bool;

    /// The rows after the slice has been inserted at `index`.
    spec fn inserted(self, index: Self::Index, rows: Seq<Seq<T>>) -> Seq<Seq<T>>;

    fn push_into(self, array: &mut Jagged<T>)
        ensures
            final(array)@ == self.pushed(old(array)@),
    ;

    fn insert_into(self, index: Self::Index, array: &mut Jagged<T>)
        requires
            self.insertable(index, old(array)@),
        ensures
            final(array)@ == self.inserted(index, old(array)@),
    ;
}

/// A whole row, to be pushed or inserted as a new row of a jagged array.
#[derive(Default, Debug, PartialEq, Eq)]
pub struct RowSlice<T> {
    data: Vec<T>,
}

impl<T> View for RowSlice<T> {
    type V = Seq<T>;

    closed spec fn view(&self) -> Seq<T> {
        self.data@
    }
}

impl<T> From<Vec<T>> for RowSlice<T> {
    fn from(val: Vec<T>) -> (slice: Self) {
        Self { data: val }
    }
}

impl<T> FromSpecImpl<Vec<T>> for RowSlice<T> {
    open spec fn obeys_from_spec() -> bool {
        true
    }

    closed spec fn from_spec(val: Vec<T>) -> Self {
        RowSlice { data: val }
    }
}

impl<T> RowSlice<T> {
    /// Instantiates a new `RowSlice` from a vector.
    #[must_use]
    pub fn new(data: Vec<T>) -> (slice: Self)
        ensures
            slice@ == data@,
    {
        Self { data }
    }

    /// The elements of the row, as a vector.
    pub(crate) fn into_vec(self) -> (data: Vec<T>)
        ensures
            data@ == self@,
    {
        self.data
    }

    /// A row slice converted from a vector holds the vector's elements.
    pub proof fn lemma_from_view(data: Vec<T>)
        ensures
            <Self as FromSpec<Vec<T>>>::from_spec(data)@ == data@,
    {
    }
}

/// A single element: pushed onto the last row, inserted at a position.
impl<T> JaggedSlice<T> for T {
    type Index = Index2;

    open spec fn pushed(self, rows: Seq<Seq<T>>) -> Seq<Seq<T>> {
        if rows.len() == 0 {
            rows
        } else {
            rows.update(rows.len() - 1, rows.last().push(self))
        }
    }

    open spec fn insertable(self, index: Index2, rows: Seq<Seq<T>>) -> bool {
        index.row < rows.len() ==> index.col <= rows[index.row as int].len()
    }

    open spec fn inserted(self, index: Index2, rows: Seq<Seq<T>>) -> Seq<Seq<T>> {
        if index.row < rows.len() {
            rows.update(index.row as int, rows[index.row as int].insert(index.col as int, self))
        } else {
            rows
        }
    }

    fn push_into(self, array: &mut Jagged<T>) {
        broadcast use lemma_view;

        let n = array.data.len();
        if n > 0 {
            array.data[n - 1].push(self);
        }
    }

    fn insert_into(self, index: Index2, array: &mut Jagged<T>) {
        broadcast use lemma_view;

        if index.row < array.data.len() {
            array.data[index.row].insert(index.col, self);
        }
    }
}

impl<T> JaggedSlice<T> for RowSlice<T> {
    type Index = RowIndex;

    open spec fn pushed(self, rows: Seq<Seq<T>>) -> Seq<Seq<T>> {
        rows.push(self@)
    }

    open spec fn insertable(self, index: RowIndex, rows: Seq<Seq<T>>) -> bool {
        index.row() <= rows.len()
    }

    open spec fn inserted(self, index: RowIndex, rows: Seq<Seq<T>>) -> Seq<Seq<T>> {
        rows.insert(index.row(), self@)
    }

    fn push_into(self, array: &mut Jagged<T>) {
        broadcast use lemma_view;

        array.data.push(self.into_vec());
    }

    fn insert_into(self, index: RowIndex, array: &mut Jagged<T>) {
        broadcast use lemma_view;

        array.data.insert(index.value(), self.into_vec());
    }
}

impl<T> JaggedSlice<T> for Vec<T> {
    type Index = RowIndex;

    open spec fn pushed(self, rows: Seq<Seq<T>>) -> Seq<Seq<T>> {
        rows.push(self@)
    }

    open spec fn insertable(self, index: RowIndex, rows: Seq<Seq<T>>) -> bool {
        index.row() <= rows.len()
    }

    open spec fn inserted(self, index: RowIndex, rows: Seq<Seq<T>>) -> Seq<Seq<T>> {
        rows.insert(index.row(), self@)
    }

    fn push_into(self, array: &mut Jagged<T>) {
        broadcast use lemma_view;

        array.data.push(self);
    }

    fn insert_into(self, index: RowIndex, array: &mut Jagged<T>) {
        broadcast use lemma_view;

        array.data.insert(index.value(), self);
    }
}

} // verus!
