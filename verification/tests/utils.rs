use std::collections::HashMap;
use tuiwindow::component::{ComponentBuffer, InputEvent};
use tuiwindow::geometry::Position;
use tuiwindow::id::RenderId;
use tuiwindow::utils::{CyclicList, SelectableHashMap};

#[test]
fn cyclic_list_starts_on_the_first_element() {
    let list = CyclicList::new(vec!['a', 'b']);
    assert_eq!(list.current(), Some(&'a'));
}

#[test]
fn cyclic_list_next_then_previous_returns() {
    for start in 0..4 {
        let mut list = CyclicList::new(vec![0, 1, 2, 3]);
        for _ in 0..start {
            list.move_next();
        }
        assert_eq!(list.current(), Some(&start));
        list.move_next();
        list.move_previous();
        assert_eq!(list.current(), Some(&start));
        list.move_previous();
        list.move_next();
        assert_eq!(list.current(), Some(&start));
    }
}

#[test]
fn cyclic_list_previous_wraps_to_the_last() {
    let mut list = CyclicList::new(vec![10, 20, 30]);
    list.move_previous();
    assert_eq!(list.current(), Some(&30));
    list.move_previous();
    assert_eq!(list.current(), Some(&20));
}

#[test]
fn cyclic_list_full_cycle_returns() {
    let mut list = CyclicList::new(vec![10, 20, 30]);
    list.move_next();
    for _ in 0..3 {
        list.move_next();
    }
    assert_eq!(list.current(), Some(&20));
}

#[test]
fn cyclic_list_reset_goes_to_the_first() {
    let mut list = CyclicList::new(vec![10, 20, 30]);
    list.move_next();
    list.move_next();
    list.reset();
    assert_eq!(list.current(), Some(&10));
}

#[test]
fn cyclic_list_without_elements_has_no_current() {
    let mut list: CyclicList<u8> = CyclicList::new(vec![]);
    assert_eq!(list.current(), None);
    list.move_next();
    assert_eq!(list.current(), None);
    list.move_previous();
    assert_eq!(list.current(), None);
    list.reset();
    assert_eq!(list.current(), None);
}

#[test]
fn cyclic_list_of_one_element_stays() {
    let mut list = CyclicList::new(vec![7]);
    list.move_next();
    assert_eq!(list.current(), Some(&7));
    list.move_previous();
    assert_eq!(list.current(), Some(&7));
}

#[test]
fn selectable_map_selects_and_resets() {
    let mut contents = HashMap::new();
    contents.insert(1u64, "one");
    contents.insert(2u64, "two");
    let mut map = SelectableHashMap::new(1u64, contents);
    assert_eq!(map.get_current(), Some(&"one"));
    map.set_current(2);
    assert_eq!(map.get_current(), Some(&"two"));
    map.set_current(3);
    assert_eq!(map.get_current(), None);
    assert_eq!(map.get_current_mut(), None);
    map.reset();
    assert_eq!(map.get_current(), Some(&"one"));
    assert_eq!(map.get(&2), Some(&"two"));
    assert_eq!(map.get(&9), None);
}

#[test]
fn selectable_map_hands_out_slots() {
    let mut contents = HashMap::new();
    contents.insert(1u64, 10);
    contents.insert(2u64, 20);
    let mut map = SelectableHashMap::new(1u64, contents);
    if let Some(slot) = map.get_current_mut() {
        *slot += 1;
    }
    if let Some(slot) = map.get_mut(&2) {
        *slot += 2;
    }
    assert!(map.get_mut(&3).is_none());
    assert_eq!(map.get(&1), Some(&11));
    assert_eq!(map.get(&2), Some(&22));
}

#[test]
fn buffer_keeps_events_in_order_per_component() {
    let x = RenderId::new();
    let y = RenderId::new();
    let mut buffer = ComponentBuffer::default();
    let events = vec![
        InputEvent::Key('a'),
        InputEvent::FocusNext,
        InputEvent::Click(Position::new(3, 4)),
        InputEvent::Key('b'),
    ];
    for event in &events {
        buffer.add_event(x, &Some(*event));
    }
    buffer.add_event(y, &Some(InputEvent::FocusWindow));
    buffer.add_event(x, &None);
    assert_eq!(buffer.get_buffer(&x), events);
    assert_eq!(buffer.get_buffer(&y), vec![InputEvent::FocusWindow]);
}

#[test]
fn buffer_of_an_unseen_component_is_empty() {
    let mut buffer = ComponentBuffer::default();
    assert!(buffer.get_buffer(&RenderId::new()).is_empty());
    buffer.add_event(RenderId::new(), &None);
    buffer.add_event(RenderId::new(), &Some(InputEvent::Key('q')));
    assert!(buffer.get_buffer(&RenderId::new()).is_empty());
}

#[test]
fn fresh_ids_differ_and_carry_the_version_mark() {
    let a = RenderId::new();
    let b = RenderId::default();
    assert_ne!(a, b);
    assert_eq!(a, a.clone());
    let mask = 0xF000_C000_0000_0000_0000u128;
    assert_eq!(a.as_u128() & mask, 0x4000_8000_0000_0000_0000u128);
    assert_eq!(b.as_u128() & mask, 0x4000_8000_0000_0000_0000u128);
}

#[test]
fn cyclic_list_first_does_not_follow_the_cursor() {
    let mut list = CyclicList::new(vec!['a', 'b', 'c']);
    list.move_next();
    assert_eq!(list.current(), Some(&'b'));
    assert_eq!(list.first(), Some(&'a'));
    assert_eq!(CyclicList::<char>::new(vec![]).first(), None);
}
