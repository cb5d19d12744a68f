use tokenizer::List;

#[test]
fn list_push_len_get() {
    let mut l: List<i32> = List::new();
    assert!(l.is_empty());
    l.push(4);
    l.push(9);
    assert_eq!(l.len(), 2);
    assert!(!l.is_empty());
    assert_eq!(l.get(1), Some(&9));
    assert_eq!(l.get(2), None);
}

#[test]
fn list_get_mut_changes_item() {
    let mut l = List::from_vec(vec![1, 2, 3]);
    *l.get_mut(0).unwrap() = 10;
    assert_eq!(l.get(0), Some(&10));
    assert!(l.get_mut(3).is_none());
}

#[test]
fn list_append_moves_items() {
    let mut a = List::from_vec(vec![1, 2]);
    let mut b = List::from_vec(vec![3]);
    a.append(&mut b);
    assert_eq!(a.len(), 3);
    assert_eq!(a.get(2), Some(&3));
    assert!(b.is_empty());
    let mut v = vec![4, 5];
    a.append_vec(&mut v);
    assert_eq!(a.len(), 5);
    assert!(v.is_empty());
}

#[test]
fn list_map_and_join() {
    let l = List::from_vec(vec![1, 2, 3]);
    let s = l.map(|x: &i32| (x * 2).to_string());
    assert_eq!(s.join(", "), "2, 4, 6");
    let empty: List<String> = List::new();
    assert_eq!(empty.join("-"), "");
}

#[test]
fn list_enumerate_pairs_index_and_item() {
    let l = List::from_vec(vec!['a', 'b', 'c']);
    assert_eq!(l.enumerate(), vec![(0, 'a'), (1, 'b'), (2, 'c')]);
}

#[test]
fn list_equality_compares_items_in_order() {
    let a = List::from_vec(vec![1, 2, 3]);
    assert!(a == List::from_vec(vec![1, 2, 3]));
    assert!(a != List::from_vec(vec![1, 3, 2]));
    assert!(a != List::from_vec(vec![1, 2]));
    assert!(List::<u8>::new() == List::new());
}
