use edtui_jagged::traits::RowSlice;
use edtui_jagged::IndexBound::{Excluded, Included, Unbounded};
use edtui_jagged::{Index2, Jagged, RowIndex};

#[test]
fn test_push() {
    let mut a = Jagged::new(vec![vec![1, 2, 3]]);
    a.push(4);

    assert_eq!(a, Jagged::new(vec![vec![1, 2, 3, 4]]));
}

#[test]
fn test_push_row() {
    let mut a = Jagged::new(vec![vec![1, 2, 3]]);
    a.push(RowSlice::from(vec![4]));

    assert_eq!(a, Jagged::new(vec![vec![1, 2, 3], vec![4]]));
}

#[test]
fn test_push_vec() {
    let mut a = Jagged::new(vec![vec![1, 2, 3]]);
    a.push(vec![4]);

    assert_eq!(a, Jagged::new(vec![vec![1, 2, 3], vec![4]]));
}

#[test]
fn test_push_element_into_empty_array() {
    let mut a: Jagged<i32> = Jagged::new(vec![]);
    a.push(4);

    assert_eq!(a, Jagged::new(vec![]));
}

#[test]
fn test_insert_element() {
    let mut a = Jagged::new(vec![vec![1, 2, 3], vec![4]]);
    a.insert(Index2::new(0, 1), 9);
    assert_eq!(a, Jagged::new(vec![vec![1, 9, 2, 3], vec![4]]));

    a.insert(Index2::new(1, 1), 5);
    assert_eq!(a, Jagged::new(vec![vec![1, 9, 2, 3], vec![4, 5]]));

    a.insert(Index2::new(7, 0), 5);
    assert_eq!(a, Jagged::new(vec![vec![1, 9, 2, 3], vec![4, 5]]));
}

#[test]
fn test_insert_row() {
    let mut a = Jagged::new(vec![vec![1, 2, 3], vec![4]]);
    a.insert(RowIndex::new(1), vec![7, 8]);
    assert_eq!(a, Jagged::new(vec![vec![1, 2, 3], vec![7, 8], vec![4]]));

    a.insert(RowIndex::new(3), RowSlice::new(vec![]));
    assert_eq!(
        a,
        Jagged::new(vec![vec![1, 2, 3], vec![7, 8], vec![4], vec![]])
    );
}

#[test]
fn test_remove() {
    let mut a = Jagged::new(vec![vec![1, 2, 3], vec![4, 5]]);
    assert_eq!(a.remove(Index2::new(0, 1)), 2);
    assert_eq!(a, Jagged::new(vec![vec![1, 3], vec![4, 5]]));

    assert_eq!(a.remove(RowIndex::new(0)), vec![1, 3]);
    assert_eq!(a, Jagged::new(vec![vec![4, 5]]));
}

#[test]
fn test_get_and_get_mut() {
    let mut a = Jagged::new(vec![vec![1, 2, 3], vec![]]);
    assert_eq!(a.get(Index2::new(0, 2)), Some(&3));
    assert_eq!(a.get(Index2::new(0, 3)), None);
    assert_eq!(a.get(Index2::new(1, 0)), None);
    assert_eq!(a.get(RowIndex::new(1)), Some(&vec![]));
    assert_eq!(a.get(RowIndex::new(2)), None);

    if let Some(v) = a.get_mut(Index2::new(0, 0)) {
        *v = 7;
    }
    if let Some(row) = a.get_mut(RowIndex::new(1)) {
        row.push(8);
    }
    assert!(a.get_mut(Index2::new(5, 0)).is_none());
    assert_eq!(a, Jagged::new(vec![vec![7, 2, 3], vec![8]]));
}

#[test]
fn test_clear_and_lengths() {
    let mut a = Jagged::new(vec![vec![1, 2, 3], vec![]]);
    assert!(!a.is_empty());
    assert_eq!(a.len(), 2);
    assert_eq!(a.len_col(0), Some(3));
    assert_eq!(a.len_col(1), Some(0));
    assert_eq!(a.len_col(2), None);
    assert_eq!(a.len_col_unchecked(0), 3);
    assert_eq!(a.is_empty_row(0), Some(false));
    assert_eq!(a.is_empty_row(1), Some(true));
    assert_eq!(a.is_empty_row(2), None);

    a.clear();
    assert!(a.is_empty());
    assert_eq!(a, Jagged::default());
}

#[test]
fn test_append() {
    let mut a = Jagged::new(vec![vec![1, 2, 3]]);
    let mut b = Jagged::new(vec![vec![4, 5, 6]]);
    a.append(&mut b);

    assert_eq!(a, Jagged::new(vec![vec![1, 2, 3], vec![4, 5, 6]]));
    assert!(b.is_empty());
}

#[test]
fn test_merge() {
    let mut a = Jagged::new(vec![vec![1, 2]]);
    let mut b = Jagged::new(vec![vec![3], vec![4, 5, 6]]);

    a.merge(&mut b.clone());
    assert_eq!(a, Jagged::new(vec![vec![1, 2, 3], vec![4, 5, 6]]));

    let mut a_empty = Jagged::new(vec![]);
    a_empty.merge(&mut b);
    assert_eq!(a_empty, Jagged::new(vec![vec![3], vec![4, 5, 6]]));
}

#[test]
fn test_merge_empty_other() {
    let mut a = Jagged::new(vec![vec![1, 2]]);
    let mut b: Jagged<i32> = Jagged::default();
    a.merge(&mut b);
    assert_eq!(a, Jagged::new(vec![vec![1, 2]]));
}

#[test]
fn test_join_lines() {
    let mut data = Jagged::from("hello\nworld");
    data.join_lines(0);
    assert_eq!(data, Jagged::from("helloworld"));

    data.join_lines(0);
    assert_eq!(data, Jagged::from("helloworld"));

    data.join_lines(usize::MAX);
    assert_eq!(data, Jagged::from("helloworld"));
}

#[test]
fn test_truncate() {
    let mut a = Jagged::new(vec![vec![1, 2, 3], vec![4, 5, 6], vec![7, 8, 9]]);
    a.truncate(Index2::new(1, 2));
    assert_eq!(a, Jagged::new(vec![vec![1, 2, 3], vec![4, 5]]));

    a.truncate(Index2::new(0, 9));
    assert_eq!(a, Jagged::new(vec![vec![1, 2, 3]]));

    a.truncate(Index2::new(4, 0));
    assert_eq!(a, Jagged::new(vec![vec![1, 2, 3]]));
}

#[test]
fn test_flatten() {
    // given
    let a = Jagged::new(vec![vec![1], vec![], vec![2]]);
    // when
    let flattened = a.flatten(&Some(0));
    // then
    assert_eq!(flattened, vec![1, 0, 0, 2]);
}

#[test]
fn test_flatten_without_separator() {
    let a = Jagged::new(vec![vec![1], vec![], vec![2, 3]]);
    assert_eq!(a.flatten(&None), vec![1, 2, 3]);
    let empty: Jagged<i32> = Jagged::default();
    assert_eq!(empty.flatten(&Some(0)), Vec::<i32>::new());
}

#[test]
fn jagged_test_iter() {
    let lines = Jagged::from(
        "Hello\n\
            World",
    );
    let mut iter = lines.iter_row();

    assert_eq!(iter.next(), Some(&"Hello".chars().collect()));
    assert_eq!(iter.next(), Some(&"World".chars().collect()));
    assert_eq!(iter.next(), None);
}

#[test]
fn test_split_off() {
    let data: Vec<Vec<i32>> = vec![vec![1, 2, 3], vec![4, 5, 6], vec![7, 8, 9]];
    let mut a = Jagged::new(data);

    let b = a.split_off(Index2::new(1, 1));
    assert_eq!(a, Jagged::new(vec![vec![1, 2, 3], vec![4]]));
    assert_eq!(b, Jagged::new(vec![vec![5, 6], vec![7, 8, 9]]));
}

#[test]
fn test_split_off_at_row_start() {
    let data: Vec<Vec<i32>> = vec![vec![1, 2, 3], vec![4, 5, 6], vec![7, 8, 9]];
    let mut a = Jagged::new(data);

    let b = a.split_off(Index2::new(1, 0));
    assert_eq!(a, Jagged::new(vec![vec![1, 2, 3]]));
    assert_eq!(b, Jagged::new(vec![vec![4, 5, 6], vec![7, 8, 9]]));
}

#[test]
fn test_next() {
    let data: Vec<Vec<i32>> = vec![vec![1, 2, 3], vec![], vec![7, 8, 9]];
    let lines = Jagged::new(data);

    assert_eq!(
        lines.next(Index2::new(0, 0)),
        Some((Some(&2), Index2::new(0, 1)))
    );
    assert_eq!(
        lines.next(Index2::new(0, 2)),
        Some((None, Index2::new(1, 0)))
    );
    assert_eq!(lines.next(Index2::new(2, 2)), None,);
}

#[test]
fn test_next_beyond_the_array() {
    let lines = Jagged::new(vec![vec![1, 2, 3], vec![]]);
    assert_eq!(lines.next(Index2::new(5, 0)), None);
    assert_eq!(lines.next(Index2::new(5, usize::MAX)), None);
    assert_eq!(
        lines.next(Index2::new(0, 99)),
        Some((None, Index2::new(1, 0)))
    );
    assert_eq!(lines.next(Index2::new(1, 0)), None);
}

#[test]
fn test_next_mut() {
    let mut lines = Jagged::new(vec![vec![1, 2, 3], vec![], vec![7]]);
    match lines.next_mut(Index2::new(0, 0)) {
        Some((Some(v), p)) => {
            assert_eq!(p, Index2::new(0, 1));
            *v = 20;
        }
        _ => panic!("an element follows"),
    }
    match lines.next_mut(Index2::new(0, 2)) {
        Some((None, p)) => assert_eq!(p, Index2::new(1, 0)),
        _ => panic!("an empty row follows"),
    }
    assert!(lines.next_mut(Index2::new(2, 0)).is_none());
    assert_eq!(lines, Jagged::new(vec![vec![1, 20, 3], vec![], vec![7]]));
}

#[test]
fn test_prev() {
    let data: Vec<Vec<i32>> = vec![vec![1, 2, 3], vec![4, 5, 6], vec![7, 8, 9]];
    let lines = Jagged::new(data);

    assert_eq!(
        lines.prev(Index2::new(1, 1)),
        Some((Some(&4), Index2::new(1, 0)))
    );
    assert_eq!(
        lines.prev(Index2::new(1, 0)),
        Some((Some(&3), Index2::new(0, 2)))
    );
    assert_eq!(lines.prev(Index2::new(0, 0)), None,);
}

#[test]
fn test_prev_over_empty_row_and_beyond() {
    let lines = Jagged::new(vec![vec![1, 2, 3], vec![], vec![7]]);
    assert_eq!(
        lines.prev(Index2::new(2, 0)),
        Some((None, Index2::new(1, 0)))
    );
    assert_eq!(
        lines.prev(Index2::new(1, 0)),
        Some((Some(&3), Index2::new(0, 2)))
    );
    assert_eq!(lines.prev(Index2::new(5, 0)), None);
    assert_eq!(lines.prev(Index2::new(5, 3)), None);
    assert_eq!(lines.prev(Index2::new(0, 9)), None);
    assert_eq!(
        lines.prev(Index2::new(0, 3)),
        Some((Some(&3), Index2::new(0, 2)))
    );
}

#[test]
fn test_prev_mut() {
    let mut lines = Jagged::new(vec![vec![1, 2, 3], vec![], vec![7]]);
    match lines.prev_mut(Index2::new(1, 0)) {
        Some((Some(v), p)) => {
            assert_eq!(p, Index2::new(0, 2));
            *v = 30;
        }
        _ => panic!("an element precedes"),
    }
    match lines.prev_mut(Index2::new(2, 0)) {
        Some((None, p)) => assert_eq!(p, Index2::new(1, 0)),
        _ => panic!("an empty row precedes"),
    }
    assert!(lines.prev_mut(Index2::new(0, 0)).is_none());
    assert_eq!(lines, Jagged::new(vec![vec![1, 2, 30], vec![], vec![7]]));
}

#[test]
fn test_prev_mut_agrees_with_prev() {
    let mut c = Jagged::new(vec![vec![1], vec![], vec![2]]);
    let index = Index2::new(2, 0);
    let expected = c.prev(index).map(|(_, p)| p);
    assert_eq!(expected, Some(Index2::new(1, 0)));
    match c.prev_mut(index) {
        Some((None, p)) => assert_eq!(Some(p), expected),
        _ => panic!("the position of the empty row is reported"),
    }
}

#[test]
fn test_next_predicate() {
    let data: Vec<Vec<i32>> = vec![vec![1, 2, 3], vec![], vec![4, 5, 6], vec![7, 8, 9]];
    let lines = Jagged::new(data);

    assert_eq!(
        lines.next_predicate(Index2::new(0, 2), |val| val == Some(&5)),
        Some((Some(&5), Index2::new(2, 1)))
    );
    assert_eq!(
        lines.next_predicate(Index2::new(0, 0), |val| val == Some(&99)),
        None,
    );
}

#[test]
fn test_next_predicate_mut() {
    let mut lines = Jagged::new(vec![vec![1, 2, 3], vec![], vec![4, 5, 6]]);
    match lines.next_predicate_mut(Index2::new(0, 0), |val| val == Some(&5)) {
        Some((Some(v), p)) => {
            assert_eq!(p, Index2::new(2, 1));
            *v = 50;
        }
        _ => panic!("five is there"),
    }
    match lines.next_predicate_mut(Index2::new(0, 0), |val| val.is_none()) {
        Some((None, p)) => assert_eq!(p, Index2::new(1, 0)),
        _ => panic!("an empty row is there"),
    }
    assert!(lines
        .next_predicate_mut(Index2::new(0, 0), |val| val == Some(&99))
        .is_none());
    assert_eq!(lines, Jagged::new(vec![vec![1, 2, 3], vec![], vec![4, 50, 6]]));
}

#[test]
fn test_prev_predicate() {
    let data: Vec<Vec<i32>> = vec![vec![1, 2, 3], vec![4, 5, 6], vec![7, 8, 9]];
    let lines = Jagged::new(data);

    assert_eq!(
        lines.prev_predicate(Index2::new(2, 2), |val| val == Some(&5)),
        Some((Some(&5), Index2::new(1, 1)))
    );
    assert_eq!(
        lines.prev_predicate(Index2::new(2, 2), |val| val == Some(&99)),
        None,
    );
}

#[test]
fn test_prev_predicate_mut() {
    let mut lines = Jagged::new(vec![vec![1, 2, 3], vec![4, 5, 6]]);
    match lines.prev_predicate_mut(Index2::new(1, 2), |val| val == Some(&2)) {
        Some((Some(v), p)) => {
            assert_eq!(p, Index2::new(0, 1));
            *v = 20;
        }
        _ => panic!("two is there"),
    }
    assert!(lines
        .prev_predicate_mut(Index2::new(1, 2), |val| val == Some(&99))
        .is_none());
    assert_eq!(lines, Jagged::new(vec![vec![1, 20, 3], vec![4, 5, 6]]));
}

#[test]
fn test_from_str() {
    let lines = Jagged::from("H\n");

    assert_eq!(lines, Jagged::new(vec![vec!['H'], vec![]]));
}

#[test]
fn jagged_test_extract() {
    // given
    let original = Jagged::from("first\n\nsecond\nthird");

    // when
    let mut data = original.clone();
    let drained = data.extract(Included(Index2::new(0, 0)), Excluded(Index2::new(0, 2)));

    //then
    let expected_drained = Jagged::from("fi");
    assert_eq!(drained, expected_drained);
    let expected_remaining = Jagged::from("rst\n\nsecond\nthird");
    assert_eq!(data, expected_remaining);

    // when
    let mut data = original.clone();
    let drained = data.extract(Included(Index2::new(0, 0)), Included(Index2::new(1, 0)));

    //then
    let expected_drained = Jagged::from("first\n");
    assert_eq!(drained, expected_drained);
    let expected_remaining = Jagged::from("second\nthird");
    assert_eq!(data, expected_remaining);

    // when
    let mut data = original.clone();
    let drained = data.extract(Included(Index2::new(0, 2)), Excluded(Index2::new(2, 2)));

    //then
    let expected_drained = Jagged::from("rst\n\nse");
    assert_eq!(drained, expected_drained);
    let expected_remaining = Jagged::from("ficond\nthird");
    assert_eq!(data, expected_remaining);

    // when
    let mut data = original.clone();
    let drained = data.extract(Included(Index2::new(2, 2)), Excluded(Index2::new(3, 2)));

    //then
    let expected_drained = Jagged::from("cond\nth");
    assert_eq!(drained, expected_drained);
    let expected_remaining = Jagged::from("first\n\nseird");
    assert_eq!(data, expected_remaining);

    // when
    let mut data = original.clone();
    let drained = data.extract(Included(Index2::new(2, 0)), Included(Index2::new(3, 0)));

    //then
    let expected_drained = Jagged::from("second\nt");
    assert_eq!(drained, expected_drained);
    let expected_remaining = Jagged::from("first\n\nhird");
    assert_eq!(data, expected_remaining);

    // when
    let mut data = original.clone();

    let drained = data.extract(Included(Index2::new(1, 0)), Included(Index2::new(2, 1)));

    //then
    let expected_drained = Jagged::from("\nse");
    assert_eq!(drained, expected_drained);
    let expected_remaining = Jagged::from("first\ncond\nthird");
    assert_eq!(data, expected_remaining);

    // when
    let mut data = original.clone();
    let drained = data.extract(Included(Index2::new(1, 3)), Included(Index2::new(2, 1)));

    //then
    let expected_drained = Jagged::from("\nse");
    assert_eq!(drained, expected_drained);
    let expected_remaining = Jagged::from("first\ncond\nthird");
    assert_eq!(data, expected_remaining);
}

#[test]
fn test_extract_out_of_bounds() {
    // given
    let original = Jagged::from("first\nsecond");

    // when
    let mut data = original.clone();
    let drained = data.extract(Included(Index2::new(0, 0)), Excluded(Index2::new(0, 99)));

    //then
    let expected_drained = Jagged::from("first");
    assert_eq!(drained, expected_drained);
    let expected_remaining = Jagged::from("second");
    assert_eq!(data, expected_remaining);

    // when
    let mut data = original.clone();
    let drained = data.extract(Included(Index2::new(0, 99)), Excluded(Index2::new(1, 99)));

    //then
    let expected_drained = Jagged::from("\nsecond");
    assert_eq!(drained, expected_drained);
    let expected_remaining = Jagged::from("first");
    assert_eq!(data, expected_remaining);

    // when
    let mut data = original.clone();
    let drained = data.extract(Included(Index2::new(0, 10)), Excluded(Index2::new(11, 0)));

    //then
    let expected_drained = Jagged::from("\nsecond");
    assert_eq!(drained, expected_drained);
    let expected_remaining = Jagged::from("first");
    assert_eq!(data, expected_remaining);

    // when
    let mut data = original.clone();
    let drained = data.extract(Included(Index2::new(0, 1)), Excluded(Index2::new(0, 99)));

    //then
    let expected_drained = Jagged::from("irst");
    assert_eq!(drained, expected_drained);
    let expected_remaining = Jagged::from("fsecond");
    assert_eq!(data, expected_remaining);
}

#[test]
fn test_extract_empty_buffer() {
    // given
    let original = Jagged::from("");

    // when
    let mut data = original.clone();
    let drained = data.extract(Included(Index2::new(0, 0)), Included(Index2::new(0, 0)));

    // then
    let expected_drained = Jagged::from("");
    assert_eq!(drained, expected_drained);
    let expected_remaining = Jagged::from("");
    assert_eq!(data, expected_remaining);
}

#[test]
fn test_extract_end_larger_than_start() {
    // given
    let original = Jagged::from("first\nsecond");

    // when
    let mut data = original.clone();
    let _ = data.extract(Included(Index2::new(0, 99)), Excluded(Index2::new(0, 90)));
}

#[test]
fn test_extract_end_equals_start() {
    // given
    let original = Jagged::from("first\nsecond");

    // when
    let mut data = original.clone();
    let _ = data.extract(Included(Index2::new(0, 1)), Excluded(Index2::new(0, 1)));
}

#[test]
fn drain_test_extract() {
    // given
    let mut jagged = Jagged::from("hello world!\n\n123.");
    // when
    let start = Index2::new(0, 0);
    let end = Index2::new(0, 2);
    let drained = jagged.extract(Included(start), Excluded(end));

    //then
    let expected_remaining = Jagged::from("llo world!\n\n123.");
    assert_eq!(jagged, expected_remaining);

    let expected_drained = Jagged::from("he");
    assert_eq!(drained, expected_drained);
}

#[test]
fn test_copy_range() {
    let data = Jagged::from("Hello\nWorld");

    let start = Index2::new(0, 3);
    let end = Index2::new(1, 1);
    assert_eq!(
        data.copy_range(Included(start), Included(end)),
        Jagged::from("lo\nWo")
    );

    let start = Index2::new(0, 0);
    let end = Index2::new(0, 2);
    assert_eq!(
        data.copy_range(Included(start), Excluded(end)),
        Jagged::from("He")
    );

    let start = Index2::new(0, 0);
    let end = Index2::new(0, 1);
    assert_eq!(
        data.copy_range(Included(start), Excluded(end)),
        Jagged::from("H")
    );

    let start = Index2::new(0, 0);
    let end = Index2::new(0, 0);
    assert_eq!(
        data.copy_range(Included(start), Excluded(end)),
        Jagged::default()
    );
}

#[test]
fn test_copy_range_out_of_bounds() {
    let data = Jagged::from("Hello\nWorld");
    let start = Index2::new(0, 5);
    let end = Index2::new(1, 1);

    assert_eq!(
        data.copy_range(Included(start), Included(end)),
        Jagged::from("\nWo")
    );
}

#[test]
fn test_copy_range_full_and_twice() {
    let data = Jagged::from("Hello\n\nWorld\n");
    let before = data.clone();
    let first = data.copy_range(Unbounded, Unbounded);
    let second = data.copy_range(Unbounded, Unbounded);
    assert_eq!(first, data);
    assert_eq!(first, second);
    assert_eq!(data, before);

    let empty: Jagged<char> = Jagged::default();
    assert_eq!(empty.copy_range(Unbounded, Unbounded), empty);
}

#[test]
fn test_copy_range_end_out_of_bounds() {
    let data = Jagged::from("Hello\nWorld");
    assert_eq!(
        data.copy_range(Included(Index2::new(0, 3)), Included(Index2::new(0, 9))),
        Jagged::from("lo\n")
    );
    assert_eq!(
        data.copy_range(Excluded(Index2::new(0, usize::MAX)), Unbounded),
        Jagged::from("\nWorld")
    );
}

#[test]
fn test_copy_range_reversed_is_empty() {
    let data = Jagged::from("Hello\nWorld");
    assert_eq!(
        data.copy_range(Included(Index2::new(1, 0)), Included(Index2::new(0, 2))),
        Jagged::default()
    );
    assert_eq!(
        data.copy_range(Included(Index2::new(0, 3)), Included(Index2::new(0, 1))),
        Jagged::default()
    );
}

#[test]
fn test_copy_range_degenerate_is_empty() {
    let data = Jagged::from("Hello\nWorld");
    assert_eq!(
        data.copy_range(Included(Index2::new(0, 99)), Included(Index2::new(0, 99))),
        Jagged::default()
    );
    assert_eq!(
        data.copy_range(Included(Index2::new(2, 0)), Unbounded),
        Jagged::default()
    );

    let empty: Jagged<char> = Jagged::default();
    assert_eq!(
        empty.copy_range(Included(Index2::new(0, 5)), Included(Index2::new(0, 9))),
        Jagged::default()
    );
}

#[test]
fn test_copy_range_end_row_beyond_last() {
    let data = Jagged::from("Hello\nWorld");
    assert_eq!(
        data.copy_range(Included(Index2::new(0, 3)), Included(Index2::new(5, 0))),
        Jagged::from("lo\nWorld\n")
    );
    assert_eq!(
        data.copy_range(Included(Index2::new(0, 9)), Included(Index2::new(1, 9))),
        Jagged::from("\nWorld\n")
    );
}

#[test]
fn test_copy_range_agrees_with_extract_on_what_is_selected() {
    let data = Jagged::from("first\n\nsecond\nthird");
    let copy = data.copy_range(Included(Index2::new(0, 2)), Excluded(Index2::new(2, 2)));
    assert_eq!(copy, Jagged::from("rst\n\nse"));
    assert_eq!(data, Jagged::from("first\n\nsecond\nthird"));
}

#[test]
fn test_extract_full_range_round_trip() {
    let original = Jagged::from("first\n\nsecond\nthird");

    let mut data = original.clone();
    let mut drained = data.extract(Unbounded, Unbounded);
    assert_eq!(drained, original);
    assert!(data.is_empty());
    data.append(&mut drained);
    assert_eq!(data, original);

    let mut data = original.clone();
    let mut drained = data.extract(Unbounded, Unbounded);
    data.merge(&mut drained);
    assert_eq!(data, original);

    let mut single = Jagged::from("one");
    let drained = single.extract(Unbounded, Unbounded);
    assert_eq!(drained, Jagged::from("one"));
    assert!(single.is_empty());
}

#[test]
fn test_extract_start_far_past_row_end() {
    let mut data = Jagged::from("first\nsecond\nthird");
    let drained = data.extract(Included(Index2::new(0, 99)), Included(Index2::new(1, 2)));
    assert_eq!(drained, Jagged::from("\nsec"));
    assert_eq!(data, Jagged::from("firstond\nthird"));
}

#[test]
fn test_extract_excluded_start() {
    let mut data = Jagged::from("first\nsecond");
    let drained = data.extract(Excluded(Index2::new(0, 1)), Included(Index2::new(0, 3)));
    assert_eq!(drained, Jagged::from("rs"));
    assert_eq!(data, Jagged::from("fit\nsecond"));

    let mut data = Jagged::from("first\nsecond");
    let drained = data.extract(Excluded(Index2::new(0, usize::MAX)), Unbounded);
    assert_eq!(drained, Jagged::from("\nsecond"));
    assert_eq!(data, Jagged::from("first"));
}

#[test]
fn test_extract_start_row_beyond_last() {
    let mut data = Jagged::from("first\nsecond");
    let drained = data.extract(Included(Index2::new(2, 0)), Unbounded);
    assert_eq!(drained, Jagged::default());
    assert_eq!(data, Jagged::from("first\nsecond"));
}

#[test]
fn test_range_bounds() {
    let data = Jagged::from("first\nsecond");
    let a = Index2::new(1, 2);
    assert_eq!(
        data.range_bounds(Included(a), Included(a)),
        Some((Index2::new(1, 2), Index2::new(1, 2)))
    );
    assert_eq!(
        data.range_bounds(Excluded(a), Excluded(a)),
        Some((Index2::new(1, 3), Index2::new(1, 1)))
    );
    assert_eq!(
        data.range_bounds(Unbounded, Unbounded),
        Some((Index2::new(0, 0), Index2::new(1, 5)))
    );
    assert_eq!(
        data.range_bounds(Unbounded, Excluded(Index2::new(1, 0))),
        Some((Index2::new(0, 0), Index2::new(0, 4)))
    );
    assert_eq!(
        data.range_bounds(Unbounded, Excluded(Index2::new(0, 0))),
        None
    );
}

#[test]
fn test_extract_rows() {
    let mut data = Jagged::from("hello\n\nworld!");
    let drained = data.extract_rows(0..1);
    assert_eq!(drained, Jagged::from("hello"));
    assert_eq!(data, Jagged::from("\nworld!"));

    let drained = data.extract_rows(1..1);
    assert_eq!(drained, Jagged::default());
    assert_eq!(data, Jagged::from("\nworld!"));
}
