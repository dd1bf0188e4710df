use ratatui::buffer::Buffer;
use std::cell::RefCell;
use std::rc::Rc;
use tuiwindow::area_calculation::unroll;
use tuiwindow::component::{
    ComponentBuffer, LayoutDirection, RenderComponent, RenderFlow, VRenderProps,
};
use tuiwindow::geometry::{split_equal, Direction, Position, Rect};
use tuiwindow::id::RenderId;
use tuiwindow::render::{Render, RenderFactory, RenderProps};

#[test]
fn contains_takes_the_top_left_and_leaves_the_far_edges() {
    let rect = Rect::new(1, 2, 3, 4);
    assert!(rect.contains(Position::new(1, 2)));
    assert!(rect.contains(Position::new(3, 5)));
    assert!(!rect.contains(Position::new(4, 2)));
    assert!(!rect.contains(Position::new(1, 6)));
    assert!(!rect.contains(Position::new(0, 2)));
    assert!(!rect.contains(Position::new(1, 1)));
}

#[test]
fn contains_holds_the_far_edge_to_the_grid() {
    let rect = Rect::new(65530, 65530, 100, 100);
    assert!(rect.contains(Position::new(65534, 65534)));
    assert!(!rect.contains(Position::new(65535, 65534)));
    assert!(!Rect::new(0, 0, 0, 5).contains(Position::new(0, 0)));
}

#[test]
fn clip_is_the_common_part() {
    let rect = Rect::new(5, 5, 10, 10);
    assert_eq!(rect.clip(Rect::new(0, 0, 8, 20)), Rect::new(5, 5, 3, 10));
    assert_eq!(rect.clip(Rect::new(0, 0, 100, 100)), rect);
    let none = rect.clip(Rect::new(20, 20, 5, 5));
    assert!(none.width == 0 || none.height == 0);
}

#[test]
fn axis_of_a_column_is_vertical() {
    assert_eq!(LayoutDirection::Column.axis(), Direction::Vertical);
    assert_eq!(LayoutDirection::Row.axis(), Direction::Horizontal);
}

#[test]
fn split_equal_cuts_side_by_side() {
    let parts = split_equal(Direction::Horizontal, 2, Rect::new(0, 0, 100, 40));
    assert_eq!(parts, vec![Rect::new(0, 0, 50, 40), Rect::new(50, 0, 50, 40)]);
}

#[test]
fn split_equal_cuts_one_above_the_other() {
    let parts = split_equal(Direction::Vertical, 4, Rect::new(2, 4, 10, 40));
    assert_eq!(
        parts,
        vec![
            Rect::new(2, 4, 10, 10),
            Rect::new(2, 14, 10, 10),
            Rect::new(2, 24, 10, 10),
            Rect::new(2, 34, 10, 10)
        ]
    );
}

#[test]
fn split_equal_parts_are_disjoint_in_order_and_inside() {
    let area = Rect::new(3, 1, 100, 7);
    for n in 0..8 {
        let parts = split_equal(Direction::Horizontal, n, area);
        assert_eq!(parts.len(), n);
        let mut edge = area.x;
        for part in &parts {
            assert_eq!(part.y, area.y);
            assert_eq!(part.height, area.height);
            assert!(part.x >= edge);
            edge = part.x + part.width;
        }
        assert!(edge <= area.x + area.width);
        if n > 0 {
            assert_eq!(parts[0].x, area.x);
            assert_eq!(edge, area.x + area.width);
        }
    }
}

struct Recorder {
    seen: Rc<RefCell<Vec<Rect>>>,
}

impl Render for Recorder {
    fn render(&mut self, _render_props: &RenderProps, _buff: &mut Buffer, area: Rect) {
        self.seen.borrow_mut().push(area);
    }
}

struct Hidden {
    seen: Rc<RefCell<Vec<Rect>>>,
}

impl RenderFactory for Hidden {
    fn render(&mut self) -> RenderComponent {
        RenderComponent::new(Recorder { seen: Rc::clone(&self.seen) })
    }
}

#[test]
fn unrolled_areas_are_the_areas_that_render_hands_out() {
    let seen = Rc::new(RefCell::new(Vec::new()));
    let leaf = || RenderComponent::new(Recorder { seen: Rc::clone(&seen) });
    let mut root = RenderComponent::row(vec![
        leaf(),
        RenderComponent::column(vec![leaf(), RenderComponent::row(vec![leaf(), leaf(), leaf()])]),
        leaf(),
    ]);
    let table = unroll(&root);
    assert_eq!(table.len(), 6);

    let area = Rect::new(0, 0, 90, 30);
    let mut buffer = Buffer::empty(ratatui::layout::Rect::new(0, 0, 90, 30));
    root.render(
        &VRenderProps { focused_element: None, event: None },
        &mut ComponentBuffer::default(),
        &mut buffer,
        area,
    );
    let mut ids: Vec<RenderId> = Vec::new();
    root.visit(&mut |node| {
        ids.push(node.id);
        true
    });

    let areas = table.areas(area);
    assert_eq!(areas, *seen.borrow());
    for i in 0..table.len() {
        assert_eq!(table.id_at(i), ids[i]);
    }
    assert_eq!(areas[0], Rect::new(0, 0, 30, 30));
    assert_eq!(areas[1], Rect::new(30, 0, 30, 15));
    assert_eq!(areas[2], Rect::new(30, 15, 10, 15));
    assert_eq!(areas[5], Rect::new(60, 0, 30, 30));
}

#[test]
fn unroll_of_a_single_leaf_is_the_whole_area() {
    let seen = Rc::new(RefCell::new(Vec::new()));
    let root = RenderComponent::new(Recorder { seen });
    let table = unroll(&root);
    assert_eq!(table.len(), 1);
    assert_eq!(table.areas(Rect::new(4, 5, 6, 7)), vec![Rect::new(4, 5, 6, 7)]);
}

#[test]
fn unroll_leaves_factories_out() {
    let seen = Rc::new(RefCell::new(Vec::new()));
    let mut root = RenderComponent::row(vec![
        RenderComponent::new(Recorder { seen: Rc::clone(&seen) }),
        RenderComponent::new_factory(Hidden { seen: Rc::clone(&seen) }),
    ]);
    assert_eq!(unroll(&root).len(), 1);
    assert_eq!(root.flatten_ids().len(), 0);
    assert_eq!(unroll(&root).len(), 1);
    assert_eq!(unroll(&root).areas(Rect::new(0, 0, 10, 2)), vec![Rect::new(0, 0, 5, 2)]);
}

#[test]
fn containing_filters_by_position() {
    let seen = Rc::new(RefCell::new(Vec::new()));
    let root = RenderComponent::row(vec![
        RenderComponent::new(Recorder { seen: Rc::clone(&seen) }),
        RenderComponent::new(Recorder { seen: Rc::clone(&seen) }),
    ]);
    let table = unroll(&root);
    let areas = vec![Rect::new(0, 0, 5, 5), Rect::new(3, 0, 5, 5)];
    assert_eq!(table.containing(&areas, Position::new(4, 1)), vec![&table.id_at(0), &table.id_at(1)]);
    assert_eq!(table.containing(&areas, Position::new(6, 1)), vec![&table.id_at(1)]);
    assert!(table.containing(&areas, Position::new(9, 9)).is_empty());
}
