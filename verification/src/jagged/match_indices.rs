//! Searching a jagged array for the disjoint matches of a pattern.
use crate::index::{Index2, Pos};
use crate::jagged::{lemma_lengths_fit, Jagged};
use crate::model::succ;
use std::collections::VecDeque;
use vstd::prelude::*;

verus! {

/// Whether `pattern` occurs in `rows` with its first element at `p`: all of
/// it lies in the row of `p`, and the elements of the row from `p` on are
/// those of the pattern.
pub open spec fn matches_at<T>(rows: Seq<Seq<T>>, pattern: Seq<T>, p: Pos) -> bool {
    &&& 0 <= p.row < rows.len()
    &&& 0 <= p.col
    &&& p.col + pattern.len() <= rows[p.row].len()
    &&& rows[p.row].subrange(p.col, p.col + pattern.len()) == pattern
}

/// Whether a window of borrowed elements holds exactly the elements of
/// `pattern`.
pub open spec fn window_matches<T>(pattern: Seq<T>, window: Seq<&T>) -> bool {
    &&& pattern.len() == window.len()
    &&& forall|i: int| 0 <= i < pattern.len() ==> #[trigger] pattern[i] == *window[i]
}

/// Whether `same` decides equality: it can be called on any two elements
/// and answers `true` exactly if they are equal.
pub open spec fn decides_equality<T, F: Fn(&T, &T) -> bool>(same: F) -> bool {
    &&& forall|a: &T, b: &T| call_requires(same, (a, b))
    &&& forall|a: &T, b: &T, r: bool| call_ensures(same, (a, b), r) ==> r == (*a == *b)
}

/// Elements that pattern search can compare: `same` tells whether two of
/// them are equal.
pub trait MatchIndicesEq: Sized {
    fn same(&self, other: &Self) -> (r: bool)
        ensures
            r == (*self == *other),
    ;
}

/// The state of a search: the rows searched, the pattern, and the position
/// from which the next match is looked for, if any is left.
pub struct Search<T> {
    pub rows: Seq<Seq<T>>,
    pub pattern: Seq<T>,
    pub from: Option<Pos>,
}

impl<T> Search<T> {
    /// Whether anything can be found: there are rows, the pattern is not
    /// empty, and there is a position in bounds to start from.
    pub open spec fn searchable(self) -> bool {
        &&& self.rows.len() > 0
        &&& self.pattern.len() > 0
        &&& self.from is Some
        &&& !self.from.unwrap().out_of_bounds(self.rows)
    }

    /// Whether the pattern occurs at `p`, at or after the position to start
    /// from.
    pub open spec fn candidate(self, p: Pos) -> bool {
        &&& self.searchable()
        &&& matches_at(self.rows, self.pattern, p)
        &&& self.from.unwrap().le(p)
    }

    /// Whether `p` is the first occurrence of the pattern at or after the
    /// position to start from.
    pub open spec fn first(self, p: Pos) -> bool {
        &&& self.candidate(p)
        &&& forall|q: Pos| #[trigger] self.candidate(q) ==> p.le(q)
    }

    /// The position of the last element of an occurrence that begins at
    /// `p`.
    pub open spec fn last_of(self, p: Pos) -> Pos {
        Pos { row: p.row, col: p.col + self.pattern.len() - 1 }
    }
}

/// An iterator over the disjoint matches of a pattern within an array.
pub struct MatchIndices<'a, 'b, T> {
    /// The array to be searched through.
    data: &'a Jagged<T>,
    /// The pattern that is to be searched for.
    pattern: &'b [T],
    /// The position from which the next match is looked for.
    start_index: Option<Index2>,
}

impl<'a, 'b, T> View for MatchIndices<'a, 'b, T> {
    type V = Search<T>;

    closed spec fn view(&self) -> Search<T> {
        Search {
            rows: self.data@,
            pattern: self.pattern@,
            from: match self.start_index {
                Some(i) => Some(i@),
                None => None,
            },
        }
    }
}

/// Whether the window holds exactly the pattern.
fn match_found<T, F: Fn(&T, &T) -> bool>(pattern: &[T], other: &VecDeque<&T>, same: &F) -> (found:
    bool)
    requires
        decides_equality(*same),
    ensures
        found == window_matches(pattern@, other@),
{
    if pattern.len() != other.len() {
        return false;
    }
    let n = pattern.len();
    let mut i: usize = 0;
    while i < n
        invariant
            decides_equality(*same),
            n == pattern@.len(),
            n == other@.len(),
            i <= n,
            forall|j: int| 0 <= j < i ==> #[trigger] pattern@[j] == *other@[j],
        decreases n - i,
    {
        let a: &T = &pattern[i];
        let b: &T = other[i];
        if !same(a, b) {
            return false;
        }
        i += 1;
    }
    true
}

impl<'a, 'b, T> MatchIndices<'a, 'b, T> {
    /// Instantiates a new [`MatchIndices`] that starts from the first
    /// position.
    #[must_use]
    pub(super) fn new(data: &'a Jagged<T>, pattern: &'b [T]) -> (search: Self)
        ensures
            search@ == (Search {
                rows: data@,
                pattern: pattern@,
                from: Some(Pos { row: 0, col: 0 }),
            }),
    {
        Self { data, pattern, start_index: Some(Index2::new(0, 0)) }
    }

    /// Finds the next match, with the given function to compare elements:
    /// the first occurrence of the pattern at or after the position that
    /// the search has reached. The search then goes on behind the last
    /// element of that occurrence, so that matches never overlap. An empty
    /// pattern or an empty array has no match.
    pub fn next_by<F>(&mut self, same: F) -> (found: Option<(&'b [T], Index2)>) where
        F: Fn(&T, &T) -> bool,

        requires
            decides_equality(same),
        ensures
            old(self)@.rows.len() == 0 || old(self)@.pattern.len() == 0 ==> found is None,
            match found {
                Some((pattern, p)) => {
                    &&& pattern@ == old(self)@.pattern
                    &&& old(self)@.first(p@)
                    &&& final(self)@ == (Search {
                        rows: old(self)@.rows,
                        pattern: old(self)@.pattern,
                        from: succ(old(self)@.rows, old(self)@.last_of(p@)),
                    })
                },
                None => {
                    &&& forall|q: Pos| !old(self)@.candidate(q)
                    &&& final(self)@ == old(self)@
                },
            },
    {
        let data = self.data;
        let pattern = self.pattern;
        if data.is_empty() || pattern.len() == 0 {
            return None;
        }
        let start = match self.start_index {
            Some(index) => index,
            None => {
                return None;
            },
        };
        proof {
            lemma_lengths_fit(data);
        }
        let ghost search = self@;
        let ghost rows = data@;
        let m = pattern.len();
        let mut buffer: VecDeque<&T> = VecDeque::new();
        let mut iter = data.iter().from(start);
        loop
            invariant
                search == old(self)@,
                *self == *old(self),
                search.rows == rows,
                rows == data@,
                search.pattern == pattern@,
                search.from == Some(start@),
                rows.len() > 0,
                m == pattern@.len(),
                m > 0,
                iter@.rows == rows,
                iter@.end is None,
                !start@.out_of_bounds(rows) || (!iter@.stopped && iter@.at == start@),
                !iter@.stopped ==> start@.le(iter@.at),
                !iter@.stopped ==> !iter@.at.out_of_bounds(rows) || iter@.at == start@,
                !iter@.stopped && !iter@.at.out_of_bounds(rows) && iter@.at.col > 0 ==> window_at(
                    rows,
                    start@,
                    m as int,
                    iter@.at,
                    buffer@,
                ),
                decides_equality(same),
                forall|q: Pos| #[trigger]
                    search.candidate(q) ==> !iter@.stopped && !search.last_of(q).lt(iter@.at),
            decreases iter@.forward().len(),
        {
            let ghost before = iter@;
            let (value, index) = match iter.next() {
                Some(item) => item,
                None => {
                    return None;
                },
            };
            proof {
                assert(before.forward() =~= seq![before.at] + iter@.forward());
            }
            if let Some(v) = value {
                if index.col == 0 {
                    buffer.clear();
                }
                if buffer.len() >= m {
                    let _ = buffer.pop_front();
                }
                buffer.push_back(v);
                proof {
                    let lo = window_start(start@, m as int, Pos { row: index@.row, col: index@.col + 1 });
                    assert(buffer@.len() == index.col + 1 - lo);
                    assert(forall|i: int|
                        0 <= i < buffer@.len() ==> *#[trigger] buffer@[i] == rows[index.row as int][lo
                            + i]);
                }
                if match_found(pattern, &buffer, &same) {
                    self.start_index = match data.next(index) {
                        Some((_, next)) => Some(next),
                        None => None,
                    };
                    let first = Index2::new(index.row, index.col - (m - 1));
                    proof {
                        assert(rows[first@.row].subrange(first@.col, first@.col + m) =~= pattern@);
                        assert(search.candidate(first@));
                        assert forall|q: Pos| #[trigger] search.candidate(q) implies first@.le(
                            q,
                        ) by {
                            assert(!search.last_of(q).lt(before.at));
                        }
                    }
                    return Some((pattern, first));
                }
                proof {
                    assert forall|q: Pos| #[trigger] search.candidate(q) implies search.last_of(q)
                        != index@ by {
                        if search.last_of(q) == index@ {
                            assert forall|i: int| 0 <= i < m implies #[trigger] pattern@[i]
                                == *buffer@[i] by {
                                assert(rows[q.row].subrange(q.col, q.col + m)[i] == pattern@[i]);
                            }
                            assert(window_matches(pattern@, buffer@));
                        }
                    }
                }
            }
            proof {
                assert forall|q: Pos| #[trigger] search.candidate(q) implies !iter@.stopped
                    && !search.last_of(q).lt(iter@.at) by {
                    assert(!search.last_of(q).lt(before.at));
                    assert(search.last_of(q) != index@);
                }
            }
        }
    }
}

/// The column at which the window begins once the walk stands on `at`: at
/// most `m` columns before it, and not before the column that the search
/// started from in its first row.
pub open spec fn window_start(start: Pos, m: int, at: Pos) -> int {
    let base = if at.row == start.row {
        start.col
    } else {
        0
    };
    if at.col - m > base {
        at.col - m
    } else {
        base
    }
}

/// Whether the window holds the elements of the row of `at` from the
/// window's first column up to the column before `at`.
pub open spec fn window_at<T>(rows: Seq<Seq<T>>, start: Pos, m: int, at: Pos, window: Seq<&T>) -> bool {
    let lo = window_start(start, m, at);
    &&& window.len() == at.col - lo
    &&& forall|i: int| 0 <= i < window.len() ==> *#[trigger] window[i] == rows[at.row][lo + i]
}

impl<'a, 'b, T: MatchIndicesEq> MatchIndices<'a, 'b, T> {
    /// Finds the next match: the first occurrence of the pattern at or
    /// after the position that the search has reached. The search then goes
    /// on behind the last element of that occurrence, so that matches never
    /// overlap. An empty pattern or an empty array has no match.
    pub fn next(&mut self) -> (found: Option<(&'b [T], Index2)>)
        ensures
            old(self)@.rows.len() == 0 || old(self)@.pattern.len() == 0 ==> found is None,
            match found {
                Some((pattern, p)) => {
                    &&& pattern@ == old(self)@.pattern
                    &&& old(self)@.first(p@)
                    &&& final(self)@ == (Search {
                        rows: old(self)@.rows,
                        pattern: old(self)@.pattern,
                        from: succ(old(self)@.rows, old(self)@.last_of(p@)),
                    })
                },
                None => {
                    &&& forall|q: Pos| !old(self)@.candidate(q)
                    &&& final(self)@ == old(self)@
                },
            },
    {
        self.next_by(same_elements::<T>)
    }
}

/// Whether two elements are equal.
fn same_elements<T: MatchIndicesEq>(a: &T, b: &T) -> (r: bool)
    ensures
        r == (*a == *b),
{
    a.same(b)
}

impl MatchIndicesEq for char {
    fn same(&self, other: &Self) -> (r: bool) {
        *self == *other
    }
}

impl MatchIndicesEq for bool {
    fn same(&self, other: &Self) -> (r: bool) {
        *self == *other
    }
}

impl MatchIndicesEq for u8 {
    fn same(&self, other: &Self) -> (r: bool) {
        *self == *other
    }
}

impl MatchIndicesEq for u16 {
    fn same(&self, other: &Self) -> (r: bool) {
        *self == *other
    }
}

impl MatchIndicesEq for u32 {
    fn same(&self, other: &Self) -> (r: bool) {
        *self == *other
    }
}

impl MatchIndicesEq for u64 {
    fn same(&self, other: &Self) -> (r: bool) {
        *self == *other
    }
}

impl MatchIndicesEq for usize {
    fn same(&self, other: &Self) -> (r: bool) {
        *self == *other
    }
}

impl MatchIndicesEq for i8 {
    fn same(&self, other: &Self) -> (r: bool) {
        *self == *other
    }
}

impl MatchIndicesEq for i16 {
    fn same(&self, other: &Self) -> (r: bool) {
        *self == *other
    }
}

impl MatchIndicesEq for i32 {
    fn same(&self, other: &Self) -> (r: bool) {
        *self == *other
    }
}

impl MatchIndicesEq for i64 {
    fn same(&self, other: &Self) -> (r: bool) {
        *self == *other
    }
}

impl MatchIndicesEq for isize {
    fn same(&self, other: &Self) -> (r: bool) {
        *self == *other
    }
}

impl<T> Jagged<T> {
    /// Returns an iterator that searches for disjoint matches of a pattern
    /// within the array.
    ///
    /// Each match is yielded as the pattern together with the position of
    /// the first element of the match.
    #[must_use]
    pub fn match_indices<'b>(&self, pattern: &'b [T]) -> (search: MatchIndices<'_, 'b, T>)
        ensures
            search@ == (Search {
                rows: self@,
                pattern: pattern@,
                from: Some(Pos { row: 0, col: 0 }),
            }),
    {
        MatchIndices::new(self, pattern)
    }
}

} // verus!
