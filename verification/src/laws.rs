//! Laws that relate the operations of a jagged array to one another.
use crate::index::{Index2, Pos};
use crate::jagged::copy::copy_of;
use crate::jagged::extract::{clamp_span, extracted, extraction, IndexBound};
use crate::jagged::lines::{split_lines, text_rows};
use crate::jagged::match_indices::Search;
use crate::jagged::walk::last_position;
use crate::model::{
    cloned_rows, cloned_seq, clone_is_exact, flat, last_col, merged, pred, succ,
};
use crate::traits::JaggedIndex;
use vstd::prelude::*;

verus! {

/// Extracting the full range hands out every row and leaves none, so that
/// appending what was handed out to what is left, or merging it in, gives
/// the rows back.
pub proof fn lemma_extract_full_round_trip<T>(rows: Seq<Seq<T>>)
    ensures
        ({
            let (drained, left) = extraction(rows, IndexBound::Unbounded, IndexBound::Unbounded);
            &&& drained == rows
            &&& left == Seq::<Seq<T>>::empty()
            &&& left + drained == rows
            &&& merged(left, drained) == rows
        }),
{
    let (drained, left) = extraction(rows, IndexBound::Unbounded, IndexBound::Unbounded);
    assert(drained =~= rows);
    assert(left =~= Seq::<Seq<T>>::empty());
    assert(left + drained =~= rows);
}

/// Copying the full range yields the rows themselves.
pub proof fn lemma_copy_full_range<T>(rows: Seq<Seq<T>>)
    ensures
        copy_of(rows, IndexBound::Unbounded, IndexBound::Unbounded) == rows,
{
    let copy = copy_of(rows, IndexBound::Unbounded, IndexBound::Unbounded);
    if rows.len() > 0 {
        let last = last_position(rows);
        assert(!last.out_of_bounds(rows));
        assert(copy =~~= rows);
    } else {
        assert(copy =~= rows);
    }
}

/// Two copies of one range of one array hold the same rows, wherever
/// cloning an element yields an equal element.
pub proof fn lemma_copy_range_repeatable<T: Clone>(
    rows: Seq<Seq<T>>,
    start: IndexBound,
    end: IndexBound,
    first: Seq<Seq<T>>,
    second: Seq<Seq<T>>,
)
    requires
        clone_is_exact::<T>(),
        cloned_rows(copy_of(rows, start, end), first),
        cloned_rows(copy_of(rows, start, end), second),
    ensures
        first == second,
        first == copy_of(rows, start, end),
{
    let source = copy_of(rows, start, end);
    assert forall|i: int| 0 <= i < source.len() implies first[i] =~= source[i] && second[i]
        =~= source[i] by {
        assert(cloned_seq(source[i], first[i]));
        assert(cloned_seq(source[i], second[i]));
    }
    assert(first =~= source);
    assert(second =~= source);
}

/// A position is in bounds exactly if it holds an element, or is column
/// zero of a row that exists.
pub proof fn lemma_in_bounds_iff<T>(rows: Seq<Seq<T>>, p: Index2)
    ensures
        !p@.out_of_bounds(rows) <==> (JaggedIndex::<T>::in_range(p, rows) || (p.col == 0 && p.row
            < rows.len())),
{
}

/// From a position in bounds, a step forward followed by a step backward
/// leads back to the position, and so does a step backward followed by a
/// step forward.
pub proof fn lemma_next_prev_inverse<T>(rows: Seq<Seq<T>>, p: Pos)
    requires
        !p.out_of_bounds(rows),
    ensures
        match succ(rows, p) {
            Some(q) => pred(rows, q) == Some(p),
            None => p == last_position(rows),
        },
        match pred(rows, p) {
            Some(q) => succ(rows, q) == Some(p),
            None => p == (Pos { row: 0, col: 0 }),
        },
{
}

/// Every position in bounds other than the last has a position after it,
/// and that position is in bounds and the next in row-major order: no
/// position in bounds lies between the two.
pub proof fn lemma_succ_is_next<T>(rows: Seq<Seq<T>>, p: Pos, other: Pos)
    requires
        !p.out_of_bounds(rows),
        !other.out_of_bounds(rows),
    ensures
        match succ(rows, p) {
            Some(q) => !q.out_of_bounds(rows) && p.lt(q) && !(p.lt(other) && other.lt(q)),
            None => other.le(p),
        },
{
}

/// Matches are disjoint: an occurrence found after a match begins behind
/// the last element of that match.
pub proof fn lemma_matches_disjoint<T>(search: Search<T>, p: Pos, q: Pos)
    requires
        search.first(p),
        (Search {
            rows: search.rows,
            pattern: search.pattern,
            from: succ(search.rows, search.last_of(p)),
        }).candidate(q),
    ensures
        q.row > p.row || (q.row == p.row && q.col >= p.col + search.pattern.len()),
{
}

/// A start column past the last column of its row is clamped to that
/// column, whatever its distance; where anything is extracted then, what is
/// handed out begins with an empty row.
pub proof fn lemma_clamped_start<T>(rows: Seq<Seq<T>>, start: Pos, other: Pos, end: Pos)
    requires
        start.col > last_col(rows, start.row),
        other.row == start.row,
        other.col > last_col(rows, start.row),
    ensures
        clamp_span(rows, start, end) == clamp_span(rows, other, end),
        match clamp_span(rows, start, end) {
            Some(span) => {
                &&& span.start_clamped
                &&& span.start == (Pos { row: start.row, col: last_col(rows, start.row) })
                &&& extracted(rows, span).len() > 0
                &&& extracted(rows, span).first() == Seq::<T>::empty()
            },
            None => true,
        },
{
}

/// Whether no line of the text ends with a carriage return before its
/// line feed.
pub open spec fn plain_line_ends(text: Seq<char>) -> bool {
    forall|i: int| 0 <= i < text.len() - 1 ==> !(text[i] == '\r' && #[trigger] text[i + 1] == '\n')
}

/// Splitting a text into lines loses nothing but carriage returns before
/// line feeds: joined by line feeds, the lines of a text with plain line
/// ends are the text, and the last line ends as the text does.
pub proof fn lemma_split_lines_joined(text: Seq<char>)
    requires
        plain_line_ends(text),
    ensures
        split_lines(text).len() > 0,
        flat(split_lines(text), Some('\n')) == text,
        text.len() > 0 && text.last() != '\n' ==> split_lines(text).last().len() > 0
            && split_lines(text).last().last() == text.last(),
    decreases text.len(),
{
    if text.len() > 0 {
        let head = text.drop_last();
        assert(plain_line_ends(head)) by {
            assert forall|i: int| 0 <= i < head.len() - 1 implies !(head[i] == '\r'
                && #[trigger] head[i + 1] == '\n') by {
                assert(head[i] == text[i]);
                assert(head[i + 1] == text[i + 1]);
            }
        }
        lemma_split_lines_joined(head);
        let before = split_lines(head);
        let rows = split_lines(text);
        if text.last() == '\n' {
            if head.len() > 0 && head.last() != '\n' {
                assert(head.last() == text[text.len() - 2]);
                assert(text[text.len() - 2 + 1] == '\n');
            }
            assert(rows =~= before.push(Seq::empty()));
            assert(rows.drop_last() =~= before);
            assert(flat(rows, Some('\n')) =~= text);
        } else {
            let line = before.last().push(text.last());
            assert(rows.last() == line);
            assert(text =~= head.push(text.last()));
            if before.len() == 1 {
                assert(flat(before, Some('\n')) == before[0]);
                assert(flat(rows, Some('\n')) =~= text);
            } else {
                assert(rows.drop_last() =~= before.drop_last());
                assert(flat(before, Some('\n')) == flat(before.drop_last(), Some('\n'))
                    + seq!['\n'] + before.last());
                assert(flat(rows, Some('\n')) == flat(rows.drop_last(), Some('\n'))
                    + seq!['\n'] + line);
                assert(flat(rows, Some('\n')) =~= text);
            }
        }
    } else {
        assert(flat(split_lines(text), Some('\n')) =~= text);
    }
}

/// Turning a text into rows and the rows back into a text gives the text,
/// wherever no carriage return stands before a line feed.
pub proof fn lemma_text_round_trip(text: Seq<char>)
    requires
        plain_line_ends(text),
    ensures
        flat(text_rows(text), Some('\n')) == text,
{
    if text.len() > 0 {
        lemma_split_lines_joined(text);
    } else {
        assert(flat(text_rows(text), Some('\n')) =~= text);
    }
}

} // verus!
