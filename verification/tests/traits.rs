use edtui_jagged::traits::{JaggedRemove, JaggedSlice, RowSlice};
use edtui_jagged::{Index2, Jagged, JaggedIndex, RowIndex};

fn test_data() -> Jagged<char> {
    Jagged::<char>::from(
        "Hello\n\
            World",
    )
}

#[test]
fn test_get_index() {
    let data = test_data();
    let index = Index2::new(0, 4);

    assert_eq!(index.get(&data), Some(&'o'));
}

#[test]
fn test_get_row() {
    let data = test_data();
    let index = RowIndex::new(1);

    assert_eq!(index.get(&data), Some(&vec!['W', 'o', 'r', 'l', 'd']));
}

#[test]
fn test_trait_methods() {
    let mut data = test_data();
    if let Some(c) = Index2::new(0, 0).get_mut(&mut data) {
        *c = 'J';
    }
    assert_eq!(RowIndex::new(1).remove(&mut data), vec!['W', 'o', 'r', 'l', 'd']);
    assert_eq!(Index2::new(0, 4).remove(&mut data), 'o');
    '!'.push_into(&mut data);
    'e'.insert_into(Index2::new(0, 0), &mut data);
    RowSlice::new(vec!['x']).push_into(&mut data);
    vec!['y'].insert_into(RowIndex::new(0), &mut data);
    assert_eq!(data, Jagged::from("y\neJell!\nx"));
    assert_eq!(RowSlice::from(vec![1]), RowSlice::new(vec![1]));
}
