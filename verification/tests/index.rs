use edtui_jagged::{Index2, Jagged};

#[test]
fn test_index_new() {
    let pos = Index2::new(1, 2);
    assert_eq!(pos.row, 1);
    assert_eq!(pos.col, 2);
}

#[test]
fn test_index_order() {
    assert!(Index2::new(0, 5) < Index2::new(1, 0));
    assert!(Index2::new(1, 1) < Index2::new(1, 2));
    assert!(Index2::new(2, 0) > Index2::new(1, 9));
    assert!(Index2::new(1, 1) <= Index2::new(1, 1));
}

#[test]
fn test_out_of_bounds() {
    let data = Jagged::new(vec![vec![1, 2, 3], vec![]]);
    assert!(!Index2::new(0, 0).out_of_bounds(&data));
    assert!(!Index2::new(0, 2).out_of_bounds(&data));
    assert!(Index2::new(0, 3).out_of_bounds(&data));
    assert!(!Index2::new(1, 0).out_of_bounds(&data));
    assert!(Index2::new(1, 1).out_of_bounds(&data));
    assert!(Index2::new(2, 0).out_of_bounds(&data));
}
