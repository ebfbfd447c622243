//! Stepping from a position to its neighbour in row-major order, one step
//! at a time or until a predicate holds.
use crate::index::Index2;
use crate::jagged::{lemma_lengths_fit, Jagged};
use crate::model::{
    element, element_ref, first_accepted, following, none_accepted, preceding, pred, succ,
};
use crate::traits::JaggedIndex;
use vstd::prelude::*;

verus! {

impl<T> Jagged<T> {
    /// Get the next value and index based on the current position.
    ///
    /// Returns `None` if no next position exists. The value is `None`
    /// where the next position is the start of an empty row.
    #[must_use]
    pub fn next(&self, index: Index2) -> (step: Option<(Option<&T>, Index2)>)
        ensures
            match step {
                Some((value, p)) => succ(self@, index@) == Some(p@) && value == element_ref(
                    self@,
                    p@,
                ),
                None => succ(self@, index@) is None,
            },
    {
        proof {
            lemma_lengths_fit(self);
        }
        if index.row >= self.data.len() {
            return None;
        }
        if self.is_last_col(index) {
            if self.is_last_row(index) {
                None
            } else {
                let p = Index2::new(index.row + 1, 0);
                Some((self.get(p), p))
            }
        } else {
            let p = Index2::new(index.row, index.col + 1);
            Some((self.get(p), p))
        }
    }

    /// Find the next position based on the current position, with the
    /// value there borrowed mutably.
    ///
    /// Returns `None` if no next position exists. The value is `None`
    /// where the next position is the start of an empty row.
    #[must_use]
    pub fn next_mut(&mut self, index: Index2) -> (step: Option<(Option<&mut T>, Index2)>)
        ensures
            match step {
                Some((Some(value), p)) => {
                    &&& succ(old(self)@, index@) == Some(p@)
                    &&& element(old(self)@, p@) == Some(*value)
                    &&& final(self)@ == p.replaced(old(self)@, *final(value))
                },
                Some((None, p)) => {
                    &&& succ(old(self)@, index@) == Some(p@)
                    &&& element(old(self)@, p@) is None
                    &&& final(self)@ == old(self)@
                },
                None => succ(old(self)@, index@) is None && final(self)@ == old(self)@,
            },
    {
        let p = match self.next(index) {
            Some((_, p)) => p,
            None => {
                return None;
            },
        };
        Some((self.get_mut(p), p))
    }

    /// Find the previous position based on the current position.
    ///
    /// Returns `None` if no previous position exists. The value is `None`
    /// where the previous position is the start of an empty row.
    #[must_use]
    pub fn prev(&self, index: Index2) -> (step: Option<(Option<&T>, Index2)>)
        ensures
            match step {
                Some((value, p)) => pred(self@, index@) == Some(p@) && value == element_ref(
                    self@,
                    p@,
                ),
                None => pred(self@, index@) is None,
            },
    {
        if index.col == 0 {
            if 0 < index.row && index.row < self.data.len() {
                let row = index.row - 1;
                let p = Index2::new(row, self.last_col_index(row));
                Some((self.get(p), p))
            } else {
                None
            }
        } else {
            let p = Index2::new(index.row, index.col - 1);
            match self.get(p) {
                Some(value) => Some((Some(value), p)),
                None => None,
            }
        }
    }

    /// Find the previous position based on the current position, with the
    /// value there borrowed mutably.
    ///
    /// Returns `None` if no previous position exists. The value is `None`
    /// where the previous position is the start of an empty row.
    #[must_use]
    pub fn prev_mut(&mut self, index: Index2) -> (step: Option<(Option<&mut T>, Index2)>)
        ensures
            match step {
                Some((Some(value), p)) => {
                    &&& pred(old(self)@, index@) == Some(p@)
                    &&& element(old(self)@, p@) == Some(*value)
                    &&& final(self)@ == p.replaced(old(self)@, *final(value))
                },
                Some((None, p)) => {
                    &&& pred(old(self)@, index@) == Some(p@)
                    &&& element(old(self)@, p@) is None
                    &&& final(self)@ == old(self)@
                },
                None => pred(old(self)@, index@) is None && final(self)@ == old(self)@,
            },
    {
        let p = match self.prev(index) {
            Some((_, p)) => p,
            None => {
                return None;
            },
        };
        Some((self.get_mut(p), p))
    }

    /// Find the next position that satisfies a given predicate.
    ///
    /// Steps forward from `index` and returns the first position whose
    /// value the predicate accepts, or `None` if it accepts none up to the
    /// last position.
    #[must_use]
    pub fn next_predicate<F>(&self, index: Index2, f: F) -> (found: Option<(Option<&T>, Index2)>)
        where F: Fn(Option<&T>) -> bool
        requires
            forall|value: Option<&T>| call_requires(f, (value,)),
        ensures
            match found {
                Some((value, p)) => {
                    &&& value == element_ref(self@, p@)
                    &&& exists|k: int|
                        #[trigger] first_accepted(self@, following(self@, index@), f, k) && following(
                            self@,
                            index@,
                        )[k] == p@
                },
                None => none_accepted(self@, following(self@, index@), f),
            },
    {
        let ghost steps = following(self@, index@);
        let ghost mut k: int = 0;
        let mut current = index;
        loop
            invariant
                forall|value: Option<&T>| call_requires(f, (value,)),
                steps == following(self@, index@),
                0 <= k <= steps.len(),
                steps.skip(k) == following(self@, current@),
                forall|j: int|
                    0 <= j < k ==> call_ensures(f, (element_ref(self@, #[trigger] steps[j]),), false),
            decreases steps.len() - k,
        {
            match self.next(current) {
                Some((value, p)) => {
                    proof {
                        assert(steps.skip(k)[0] == p@);
                        assert(steps.skip(k + 1) =~= steps.skip(k).skip(1));
                        assert(following(self@, current@).skip(1) =~= following(self@, p@));
                    }
                    if f(value) {
                        assert(steps[k] == p@);
                        assert(first_accepted(self@, steps, f, k));
                        return Some((value, p));
                    }
                    current = p;
                    proof {
                        k = k + 1;
                    }
                },
                None => {
                    assert(steps.skip(k).len() == 0);
                    return None;
                },
            }
        }
    }

    /// Find the next position that satisfies a given predicate, with the
    /// value there borrowed mutably.
    #[must_use]
    pub fn next_predicate_mut<F>(&mut self, index: Index2, f: F) -> (found: Option<
        (Option<&mut T>, Index2),
    >) where F: Fn(Option<&T>) -> bool
        requires
            forall|value: Option<&T>| call_requires(f, (value,)),
        ensures
            match found {
                Some((value, p)) => {
                    &&& exists|k: int|
                        #[trigger] first_accepted(old(self)@, following(old(self)@, index@), f, k)
                            && following(old(self)@, index@)[k] == p@
                    &&& match value {
                        Some(v) => element(old(self)@, p@) == Some(*v) && final(self)@
                            == p.replaced(old(self)@, *final(v)),
                        None => element(old(self)@, p@) is None && final(self)@ == old(self)@,
                    }
                },
                None => {
                    &&& none_accepted(old(self)@, following(old(self)@, index@), f)
                    &&& final(self)@ == old(self)@
                },
            },
    {
        let p = match self.next_predicate(index, f) {
            Some((_, p)) => p,
            None => {
                return None;
            },
        };
        Some((self.get_mut(p), p))
    }

    /// Find the previous position that satisfies a given predicate.
    ///
    /// Steps backward from `index` and returns the first position whose
    /// value the predicate accepts, or `None` if it accepts none down to
    /// the first position.
    #[must_use]
    pub fn prev_predicate<F>(&self, index: Index2, f: F) -> (found: Option<(Option<&T>, Index2)>)
        where F: Fn(Option<&T>) -> bool
        requires
            forall|value: Option<&T>| call_requires(f, (value,)),
        ensures
            match found {
                Some((value, p)) => {
                    &&& value == element_ref(self@, p@)
                    &&& exists|k: int|
                        #[trigger] first_accepted(self@, preceding(self@, index@), f, k) && preceding(
                            self@,
                            index@,
                        )[k] == p@
                },
                None => none_accepted(self@, preceding(self@, index@), f),
            },
    {
        let ghost steps = preceding(self@, index@);
        let ghost mut k: int = 0;
        let mut current = index;
        loop
            invariant
                forall|value: Option<&T>| call_requires(f, (value,)),
                steps == preceding(self@, index@),
                0 <= k <= steps.len(),
                steps.skip(k) == preceding(self@, current@),
                forall|j: int|
                    0 <= j < k ==> call_ensures(f, (element_ref(self@, #[trigger] steps[j]),), false),
            decreases steps.len() - k,
        {
            match self.prev(current) {
                Some((value, p)) => {
                    proof {
                        assert(steps.skip(k)[0] == p@);
                        assert(steps.skip(k + 1) =~= steps.skip(k).skip(1));
                        assert(preceding(self@, current@).skip(1) =~= preceding(self@, p@));
                    }
                    if f(value) {
                        assert(steps[k] == p@);
                        assert(first_accepted(self@, steps, f, k));
                        return Some((value, p));
                    }
                    current = p;
                    proof {
                        k = k + 1;
                    }
                },
                None => {
                    assert(steps.skip(k).len() == 0);
                    return None;
                },
            }
        }
    }

    /// Find the previous position that satisfies a given predicate, with
    /// the value there borrowed mutably.
    #[must_use]
    pub fn prev_predicate_mut<F>(&mut self, index: Index2, f: F) -> (found: Option<
        (Option<&mut T>, Index2),
    >) where F: Fn(Option<&T>) -> bool
        requires
            forall|value: Option<&T>| call_requires(f, (value,)),
        ensures
            match found {
                Some((value, p)) => {
                    &&& exists|k: int|
                        #[trigger] first_accepted(old(self)@, preceding(old(self)@, index@), f, k)
                            && preceding(old(self)@, index@)[k] == p@
                    &&& match value {
                        Some(v) => element(old(self)@, p@) == Some(*v) && final(self)@
                            == p.replaced(old(self)@, *final(v)),
                        None => element(old(self)@, p@) is None && final(self)@ == old(self)@,
                    }
                },
                None => {
                    &&& none_accepted(old(self)@, preceding(old(self)@, index@), f)
                    &&& final(self)@ == old(self)@
                },
            },
    {
        let p = match self.prev_predicate(index, f) {
            Some((_, p)) => p,
            None => {
                return None;
            },
        };
        Some((self.get_mut(p), p))
    }
}

} // verus!
