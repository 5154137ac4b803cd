use data_structures::bst::BST;

#[test]
fn test_bst_new_and_empty() {
    let bst = BST::new();
    assert!(bst.is_empty());
}

#[test]
fn test_bst_insert_and_search() {
    let mut bst = BST::new();

    bst.insert(10);
    bst.insert(5);
    bst.insert(15);

    assert!(bst.search(10));
    assert!(bst.search(5));
    assert!(bst.search(15));
    assert!(!bst.search(20));
    assert!(!bst.is_empty());
}

#[test]
fn search_in_an_empty_tree_finds_nothing() {
    let bst = BST::new();
    assert!(!bst.search(0));
    assert!(!bst.search(i32::MIN));
    assert!(!bst.search(i32::MAX));
}

#[test]
fn a_value_inserted_twice_is_found_once_more() {
    let mut bst = BST::new();
    bst.insert(7);
    bst.insert(7);
    bst.insert(3);
    bst.insert(7);
    assert!(bst.search(7));
    assert!(bst.search(3));
    assert!(!bst.search(4));
    assert!(!bst.is_empty());
}

#[test]
fn the_ends_of_the_range_can_be_kept() {
    let mut bst = BST::new();
    bst.insert(0);
    bst.insert(i32::MAX);
    bst.insert(i32::MIN);
    bst.insert(-1);
    assert!(bst.search(i32::MAX));
    assert!(bst.search(i32::MIN));
    assert!(bst.search(0));
    assert!(bst.search(-1));
    assert!(!bst.search(1));
    assert!(!bst.search(i32::MAX - 1));
    assert!(!bst.search(i32::MIN + 1));
}

#[test]
fn values_in_rising_order_are_all_found() {
    let mut bst = BST::new();
    for value in 0..2000 {
        bst.insert(value * 2);
    }
    for value in 0..2000 {
        assert!(bst.search(value * 2));
        assert!(!bst.search(value * 2 + 1));
    }
    assert!(!bst.search(-2));
    assert!(!bst.search(4000));
}

#[test]
fn values_in_mixed_order_are_all_found() {
    let mut bst = BST::new();
    let values: Vec<i32> = (0..500).map(|i| (i * 7919) % 1009 - 500).collect();
    for value in &values {
        bst.insert(*value);
    }
    for value in -600..600 {
        assert_eq!(bst.search(value), values.contains(&value));
    }
}
