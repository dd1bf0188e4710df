use tuiwindow::utils::CyclicList;

#[test]
fn test_asoc() {}

#[test]
fn cyclic_list_wraps_forward() {
    let mut list = CyclicList::new(vec![10, 20, 30]);
    assert_eq!(list.current(), Some(&10));
    list.move_next();
    list.move_next();
    assert_eq!(list.current(), Some(&30));
    list.move_next();
    assert_eq!(list.current(), Some(&10));
}
