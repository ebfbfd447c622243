//! Jagged arrays of characters as lines of text.
use crate::index::{Index2, Pos};
use crate::jagged::iter::{lemma_backward_is_preceding, lemma_forward_is_following};
use crate::jagged::{rows_of, Jagged};
use crate::model::{element, element_ref, flat, following, preceding};
use vstd::prelude::*;
use vstd::std_specs::convert::FromSpecImpl;

verus! {

/// Appending a character: `String::push` of the standard library adds the
/// given character to the end of the string and changes nothing else.
pub assume_specification[ String::push ](s: &mut String, ch: char)
    ensures
        final(s)@ == old(s)@.push(ch),
;

/// A line without the carriage return that ends it, if one does.
pub open spec fn without_cr(line: Seq<char>) -> Seq<char> {
    if line.len() > 0 && line.last() == '\r' {
        line.drop_last()
    } else {
        line
    }
}

/// The lines of a text, the last one unfinished: every line feed ends a
/// line, which loses a carriage return just before the line feed, and what
/// follows the last line feed is the last line, empty or not.
pub open spec fn split_lines(text: Seq<char>) -> Seq<Seq<char>>
    decreases text.len(),
{
    if text.len() == 0 {
        seq![Seq::empty()]
    } else {
        let before = split_lines(text.drop_last());
        if text.last() == '\n' {
            before.drop_last().push(without_cr(before.last())).push(Seq::empty())
        } else {
            before.drop_last().push(before.last().push(text.last()))
        }
    }
}

/// The rows of a text: none for the empty text, else one row per line, with
/// an empty last row where the text ends with a line feed.
pub open spec fn text_rows(text: Seq<char>) -> Seq<Seq<char>> {
    if text.len() == 0 {
        Seq::empty()
    } else {
        split_lines(text)
    }
}

/// The bracket that closes or opens the pair of `bracket`, and whether it
/// is to be looked for backward; `None` where `bracket` is no bracket.
pub open spec fn counterpart(bracket: char) -> Option<(char, bool)> {
    if bracket == '{' {
        Some(('}', false))
    } else if bracket == '}' {
        Some(('{', true))
    } else if bracket == '(' {
        Some((')', false))
    } else if bracket == ')' {
        Some(('(', true))
    } else if bracket == '[' {
        Some((']', false))
    } else if bracket == ']' {
        Some(('[', true))
    } else {
        None
    }
}

/// How many of the first `n` positions hold the character `c`.
pub open spec fn count_of(rows: Seq<Seq<char>>, steps: Seq<Pos>, c: char, n: int) -> int
    decreases n,
{
    if n <= 0 {
        0
    } else {
        count_of(rows, steps, c, n - 1) + if element(rows, steps[n - 1]) == Some(c) {
            1int
        } else {
            0int
        }
    }
}

/// Whether `steps[k]` holds the bracket that closes the one the steps
/// started from: it holds `close`, and before it as many `close` as `open`
/// were met.
pub open spec fn closes(rows: Seq<Seq<char>>, steps: Seq<Pos>, open: char, close: char, k: int) -> bool {
    &&& 0 <= k < steps.len()
    &&& element(rows, steps[k]) == Some(close)
    &&& count_of(rows, steps, open, k) == count_of(rows, steps, close, k)
}

/// The positions that the search for a bracket visits from `index`: those
/// that precede it where the search goes backward, else those that follow
/// it.
pub open spec fn bracket_steps(rows: Seq<Seq<char>>, index: Pos, reverse: bool) -> Seq<Pos> {
    if reverse {
        preceding(rows, index)
    } else {
        following(rows, index)
    }
}

/// Whether `steps[k]` is the first of `steps` that closes the bracket.
pub open spec fn first_closing(
    rows: Seq<Seq<char>>,
    steps: Seq<Pos>,
    open: char,
    close: char,
    k: int,
) -> bool {
    &&& closes(rows, steps, open, close, k)
    &&& forall|j: int| 0 <= j < k ==> !#[trigger] closes(rows, steps, open, close, j)
}

/// Whether `p` holds the bracket that matches the bracket at `index`: the
/// first position, going forward from an opening bracket and backward from
/// a closing one, that closes it.
pub open spec fn matching_bracket(rows: Seq<Seq<char>>, index: Pos, p: Pos) -> bool {
    &&& element(rows, index) is Some
    &&& counterpart(element(rows, index).unwrap()) is Some
    &&& ({
        let bracket = element(rows, index).unwrap();
        let close = counterpart(bracket).unwrap().0;
        let steps = bracket_steps(rows, index, counterpart(bracket).unwrap().1);
        exists|k: int| #[trigger] first_closing(rows, steps, bracket, close, k) && steps[k] == p
    })
}

impl From<&str> for Jagged<char> {
    /// Splits a text into rows, one per line. A text that ends with a line
    /// feed gets an empty last row.
    fn from(value: &str) -> (lines: Self)
        ensures
            lines@ == text_rows(value@),
    {
        let mut data: Vec<Vec<char>> = Vec::new();
        let mut line: Vec<char> = Vec::new();
        let mut any = false;
        for c in it: value.chars()
            invariant
                it.seq() == value@,
                any == (it.index() > 0),
                rows_of(data@).push(line@) == split_lines(
                    it.seq().take(it.index() as int),
                ),
        {
            proof {
                assert(it.seq().take(it.index() + 1).drop_last() =~= it.seq().take(
                    it.index() as int,
                ));
            }
            any = true;
            if c == '\n' {
                let n = line.len();
                if n > 0 && line[n - 1] == '\r' {
                    let _ = line.pop();
                }
                data.push(line);
                line = Vec::new();
                proof {
                    let before = split_lines(it.seq().take(it.index() as int));
                    assert(rows_of(data@).push(line@) =~= before.drop_last().push(
                        without_cr(before.last()),
                    ).push(Seq::empty()));
                }
            } else {
                let ghost rows = rows_of(data@);
                let ghost old_line = line@;
                line.push(c);
                proof {
                    let before = split_lines(it.seq().take(it.index() as int));
                    assert(before =~= rows.push(old_line));
                    assert(rows.push(line@) =~= before.drop_last().push(before.last().push(c)));
                }
            }
        }
        proof {
            assert(value@.take(value@.len() as int) =~= value@);
        }
        if any {
            data.push(line);
        }
        Jagged::new(data)
    }
}

impl FromSpecImpl<&str> for Jagged<char> {
    open spec fn obeys_from_spec() -> bool {
        false
    }

    closed spec fn from_spec(value: &str) -> Self {
        arbitrary()
    }
}

impl From<Jagged<char>> for String {
    /// Joins the rows into one text, with a line feed between consecutive
    /// rows.
    fn from(value: Jagged<char>) -> (text: String)
        ensures
            text@ == flat(value@, Some('\n')),
    {
        value.to_string()
    }
}

impl FromSpecImpl<Jagged<char>> for String {
    open spec fn obeys_from_spec() -> bool {
        false
    }

    closed spec fn from_spec(value: Jagged<char>) -> Self {
        arbitrary()
    }
}

/// A jagged array of characters: the lines of a text.
pub type Lines = Jagged<char>;

impl Lines {
    /// Returns the data as a single String, with lines joined by line
    /// feeds.
    pub fn to_string(&self) -> (text: String)
        ensures
            text@ == flat(self@, Some('\n')),
    {
        let mut text = String::new();
        let n = self.data.len();
        let mut i: usize = 0;
        while i < n
            invariant
                n == self.data.len(),
                i <= n,
                text@ == flat(self@.take(i as int), Some('\n')),
            decreases n - i,
        {
            if i > 0 {
                text.push('\n');
            }
            let ghost head = text@;
            let row = &self.data[i];
            let m = row.len();
            let mut j: usize = 0;
            while j < m
                invariant
                    m == row.len(),
                    j <= m,
                    text@ == head + row@.take(j as int),
                decreases m - j,
            {
                text.push(row[j]);
                proof {
                    assert(row@.take(j + 1) =~= row@.take(j as int).push(row@[j as int]));
                }
                j += 1;
            }
            proof {
                assert(row@.take(m as int) =~= row@);
                let rows = self@.take(i + 1);
                assert(rows.drop_last() =~= self@.take(i as int));
                assert(rows.last() == row@);
                assert(text@ =~= flat(rows, Some('\n')));
            }
            i += 1;
        }
        proof {
            assert(self@.take(n as int) =~= self@);
        }
        text
    }

    /// Finds the index of the matching (closing or opening) bracket from a
    /// given starting point.
    ///
    /// Returns `None` if the position holds no bracket or if the bracket
    /// is never closed.
    #[must_use]
    pub fn find_matching_bracket(&self, index: Index2) -> (found: Option<Index2>)
        ensures
            match found {
                Some(p) => matching_bracket(self@, index@, p@),
                None => forall|p: Pos| !matching_bracket(self@, index@, p),
            },
    {
        let opening_bracket = match self.get(index) {
            Some(c) => *c,
            None => {
                return None;
            },
        };
        let (closing_bracket, reverse) = if opening_bracket == '{' {
            ('}', false)
        } else if opening_bracket == '}' {
            ('{', true)
        } else if opening_bracket == '(' {
            (')', false)
        } else if opening_bracket == ')' {
            ('(', true)
        } else if opening_bracket == '[' {
            (']', false)
        } else if opening_bracket == ']' {
            ('[', true)
        } else {
            return None;
        };
        let iter = self.iter().from(index);
        let items = if reverse {
            proof {
                lemma_backward_is_preceding(iter@);
            }
            iter.items_rev()
        } else {
            proof {
                lemma_forward_is_following(iter@);
            }
            iter.items()
        };
        let ghost steps = bracket_steps(self@, index@, reverse);
        proof {
            let walk = if reverse {
                iter@.backward()
            } else {
                iter@.forward()
            };
            assert(walk.skip(1) =~= steps);
            assert(forall|k: int|
                0 <= k < steps.len() ==> (#[trigger] items@[k + 1]).1@ == steps[k] && items@[k
                    + 1].0 == element_ref(self@, steps[k]));
        }
        let n = items.len();
        let mut counter: usize = 0;
        let mut i: usize = 1;
        while i < n
            invariant
                n == items@.len(),
                n == steps.len() + 1,
                1 <= i <= n,
                opening_bracket != closing_bracket,
                element(self@, index@) == Some(opening_bracket),
                counterpart(opening_bracket) == Some((closing_bracket, reverse)),
                steps == bracket_steps(self@, index@, reverse),
                forall|k: int|
                    0 <= k < steps.len() ==> (#[trigger] items@[k + 1]).1@ == steps[k] && items@[k
                        + 1].0 == element_ref(self@, steps[k]),
                counter <= i - 1,
                counter == count_of(self@, steps, opening_bracket, i - 1) - count_of(
                    self@,
                    steps,
                    closing_bracket,
                    i - 1,
                ),
                forall|j: int|
                    0 <= j < i - 1 ==> !#[trigger] closes(
                        self@,
                        steps,
                        opening_bracket,
                        closing_bracket,
                        j,
                    ),
            decreases n - i,
        {
            let (value, position) = items[i];
            proof {
                assert(items@[(i - 1) + 1].1@ == steps[i - 1]);
            }
            if let Some(c) = value {
                let value = *c;
                if value == opening_bracket {
                    counter += 1;
                }
                if value == closing_bracket {
                    if counter == 0 {
                        proof {
                            assert(first_closing(
                                self@,
                                steps,
                                opening_bracket,
                                closing_bracket,
                                i - 1,
                            ));
                            assert(steps[i - 1] == position@);
                            assert(element(self@, index@).unwrap() == opening_bracket);
                            assert(counterpart(opening_bracket).unwrap().0 == closing_bracket);
                            assert(counterpart(opening_bracket).unwrap().1 == reverse);
                            assert(matching_bracket(self@, index@, position@));
                        }
                        return Some(position);
                    }
                    counter -= 1;
                }
            }
            i += 1;
        }
        proof {
            assert forall|p: Pos| !matching_bracket(self@, index@, p) by {
                if matching_bracket(self@, index@, p) {
                    let k = choose|k: int| #[trigger]
                        first_closing(self@, steps, opening_bracket, closing_bracket, k)
                            && steps[k] == p;
                    assert(!closes(self@, steps, opening_bracket, closing_bracket, k));
                }
            }
        }
        None
    }

    /// Finds the index of the closing (or matching opening) bracket from a
    /// given starting point.
    #[must_use]
    pub fn find_closing_bracket(&self, index: Index2) -> (found: Option<Index2>)
        ensures
            match found {
                Some(p) => matching_bracket(self@, index@, p@),
                None => forall|p: Pos| !matching_bracket(self@, index@, p),
            },
    {
        self.find_matching_bracket(index)
    }
}

} // verus!
