//! Copying what a range covers: the range is clamped to the array, then the
//! array is walked from the start of the range to its end and rows are
//! rebuilt from what the walk yields.
use crate::index::{Index2, Pos};
use crate::jagged::extract::{selected_span, IndexBound, Span};
use crate::jagged::walk::{lemma_regrouped_walk, rows_between};
use crate::jagged::{lemma_lengths_fit, Jagged};
use crate::model::{cloned_rows, clone_is_exact};
use vstd::prelude::*;

verus! {

/// What copying the range between two bounds yields.
///
/// Nothing where the bounds select no span. Else an empty row where the
/// start was clamped, for the line break that such a start stands for; the
/// rows from the start of the span, or from the start of the next row where
/// the start was clamped, to the end of the span; and an empty row where
/// the end was clamped.
pub open spec fn copy_of<T>(rows: Seq<Seq<T>>, start: IndexBound, end: IndexBound) -> Seq<Seq<T>> {
    match selected_span(rows, start, end) {
        Some(span) => {
            let lead = if span.start_clamped {
                seq![Seq::<T>::empty()]
            } else {
                Seq::empty()
            };
            let trail = if span.end_clamped {
                seq![Seq::<T>::empty()]
            } else {
                Seq::empty()
            };
            lead + rows_between(rows, copy_start(span), span.end) + trail
        },
        None => Seq::empty(),
    }
}

/// The position from which the rows of a span are copied: its start, or
/// the start of the next row where the start was clamped.
pub open spec fn copy_start(span: Span) -> Pos {
    if span.start_clamped {
        Pos { row: span.start.row + 1, col: 0 }
    } else {
        span.start
    }
}

impl<T: Clone> Jagged<T> {
    /// Returns a new [`Jagged`] array by copying a range from [`Jagged`].
    ///
    /// See [`Jagged::extract`], if you want to remove the range from the
    /// array.
    ///
    /// The range is normalised and clamped as for [`Jagged::extract`]: the
    /// copy is empty if the range is incorrectly ordered, selects nothing,
    /// or starts beyond the last row. Ranges out of bounds are handled as
    /// such:
    /// - if the start column is out of bounds, the copy begins with an empty
    ///   row and goes on from the start of the next row;
    /// - if the end is out of bounds, it is clamped to the nearest position
    ///   that exists and the copy ends with an empty row.
    #[must_use]
    pub fn copy_range(&self, start: IndexBound, end: IndexBound) -> (copy: Self)
        ensures
            cloned_rows(copy_of(self@, start, end), copy@),
            clone_is_exact::<T>() ==> copy@ == copy_of(self@, start, end),
    {
        proof {
            lemma_lengths_fit(self);
        }
        let mut copy = Self::default();
        let span = match self.clamp(start, end) {
            Some(span) => span,
            None => {
                return copy;
            },
        };
        let mut from = span.start;
        if span.start_clamped {
            copy.push(Vec::<T>::new());
            from = Index2::new(span.start.row + 1, 0);
        }
        let iter = self.iter().from(from).to(span.end);
        let items = iter.items();
        proof {
            lemma_regrouped_walk(iter@, items@);
        }
        let mut middle = Self::from_iter(items);
        copy.append(&mut middle);
        if span.end_clamped {
            copy.push(Vec::<T>::new());
        }
        copy
    }
}

} // verus!
