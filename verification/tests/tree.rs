use ratatui::buffer::Buffer;
use std::cell::{Cell, RefCell};
use std::rc::Rc;
use tuiwindow::component::{
    ComponentBuffer, InputEvent, LoopManager, RenderComponent, RenderFlow, VRenderProps,
};
use tuiwindow::geometry::Rect;
use tuiwindow::id::RenderId;
use tuiwindow::render::{FocusableRender, Render, RenderFactory, RenderProps};

/// What every widget of a test writes down: its name and what it has typed.
type Journal = Rc<RefCell<Vec<(String, String)>>>;

struct TestRender {
    name: String,
    text_content: String,
    journal: Journal,
}

impl TestRender {
    fn new<T: Into<String>>(s: T, journal: &Journal) -> Self {
        Self { name: s.into(), text_content: String::new(), journal: Rc::clone(journal) }
    }
}

impl Render for TestRender {
    fn render(&mut self, render_props: &RenderProps, _buff: &mut Buffer, _area: Rect) {
        if let Some(InputEvent::Key(k)) = &render_props.event {
            self.text_content.push(*k)
        }
        let mut journal = self.journal.borrow_mut();
        journal.retain(|(name, _)| name != &self.name);
        journal.push((self.name.clone(), self.text_content.clone()));
    }
}

struct TestLoopManager {
    focusable_elements: Vec<Option<RenderId>>,
    current_element: usize,
    current_event: usize,
    events: Vec<Option<InputEvent>>,
}

impl TestLoopManager {
    fn new(focusable_elements: Vec<Option<RenderId>>, events: Vec<Option<InputEvent>>) -> Self {
        Self { focusable_elements, current_element: 0, current_event: 0, events }
    }
}

impl Iterator for TestLoopManager {
    type Item = (Option<InputEvent>, Option<RenderId>);

    fn next(&mut self) -> Option<Self::Item> {
        let next = self.focusable_elements.get(self.current_element).cloned().flatten();
        if self.current_element + 1 == self.focusable_elements.len() {
            self.current_element = 0;
        } else {
            self.current_element += 1;
        }

        let next_event = self.events.get(self.current_event).cloned().flatten();
        if self.current_event + 1 >= self.events.len() {
            self.current_event = 0;
        } else {
            self.current_event += 1;
        }

        Some((next_event, next))
    }
}

impl<'a> LoopManager<'a> for TestLoopManager {}

struct TestFactory {
    journal: Journal,
    built: Rc<Cell<u32>>,
}

impl RenderFactory for TestFactory {
    fn render(&mut self) -> RenderComponent {
        self.built.set(self.built.get() + 1);
        RenderComponent::column(vec![
            RenderComponent::new_focusable(TestRender::new("c3", &self.journal)),
            RenderComponent::new_focusable(TestRender::new("c4", &self.journal)),
        ])
    }
}

fn run_loop(app: &mut RenderComponent) {
    let all_focusable_elements = app.flatten_ids();

    let mut all_focusable_iter = all_focusable_elements.iter().cycle();
    all_focusable_iter.next();

    let f1 = all_focusable_iter.next().cloned();
    let f2 = all_focusable_iter.next().cloned();

    let mut test_loop_manager = TestLoopManager::new(
        vec![f1, f1, f1, f2, f2, f2],
        vec![
            None,
            Some(InputEvent::Key('a')),
            Some(InputEvent::Key('b')),
            Some(InputEvent::Key('c')),
        ],
    );

    let mut event_buffer = ComponentBuffer::default();

    let area = Rect { x: 0, y: 0, width: 100, height: 100 };
    let mut buffer = Buffer::empty(ratatui::layout::Rect::new(0, 0, 100, 100));
    for _ in 0..5 {
        let (event, focused_element) = test_loop_manager.next().unwrap();
        event_buffer.add_event(focused_element.unwrap(), &event);
        app.render(&VRenderProps { focused_element, event }, &mut event_buffer, &mut buffer, area);
    }
}

fn content_of(journal: &Journal, name: &str) -> Option<String> {
    journal.borrow().iter().find(|(n, _)| n == name).map(|(_, text)| text.clone())
}

#[test]
fn it_works() {
    let journal: Journal = Rc::new(RefCell::new(Vec::new()));
    let mut app = RenderComponent::row(vec![
        TestRender::new("c1", &journal).into(),
        RenderComponent::new_focusable(TestRender::new("c2", &journal)),
        RenderComponent::column(vec![
            RenderComponent::new_focusable(TestRender::new("c3", &journal)),
            RenderComponent::new_focusable(TestRender::new("c4", &journal)),
        ]),
    ]);

    run_loop(&mut app);
    let mut leaves = 0;
    app.visit(&mut |_node| {
        leaves += 1;
        true
    });
    assert_eq!(leaves, 4);
    assert_eq!(journal.borrow().len(), 4);
    assert_eq!(content_of(&journal, "c3"), Some(String::from("ab")));
}

#[test]
fn it_works_with_factory() {
    let journal: Journal = Rc::new(RefCell::new(Vec::new()));
    let built = Rc::new(Cell::new(0));
    let mut app = RenderComponent::row(vec![
        TestRender::new("c1", &journal).into(),
        RenderComponent::new_focusable(TestRender::new("c2", &journal)),
        RenderComponent::new_factory(TestFactory { journal: Rc::clone(&journal), built: Rc::clone(&built) }),
    ]);

    run_loop(&mut app);
    assert_eq!(journal.borrow().len(), 4);
    assert_eq!(content_of(&journal, "c3"), Some(String::from("ab")));
    assert_eq!(built.get(), 1);
}

#[test]
fn test_macros() {
    let journal: Journal = Rc::new(RefCell::new(Vec::new()));
    let built = Rc::new(Cell::new(0));
    let mut app = RenderComponent::column(vec![
        TestRender::new("c1", &journal).into(),
        RenderComponent::new_focusable(TestRender::new("c2", &journal)).into(),
        RenderComponent::new_factory(TestFactory { journal: Rc::clone(&journal), built: Rc::clone(&built) })
            .into(),
    ]);

    run_loop(&mut app);
    assert_eq!(journal.borrow().len(), 4);
    assert_eq!(content_of(&journal, "c3"), Some(String::from("ab")));
}

#[test]
fn test_visit() {
    let journal: Journal = Rc::new(RefCell::new(Vec::new()));
    let mut app = RenderComponent::column(vec![
        TestRender::new("c1", &journal).into(),
        TestRender::new("c2", &journal).into(),
        RenderComponent::row(vec![
            TestRender::new("c3", &journal).into(),
            TestRender::new("c4", &journal).into(),
        ]),
    ]);

    let mut visited = vec![];

    app.visit(&mut |rc| {
        visited.push(rc.id);
        true
    });

    assert_eq!(visited.len(), 4);
}

#[test]
fn test_visit_with_factory() {
    let journal: Journal = Rc::new(RefCell::new(Vec::new()));
    let built = Rc::new(Cell::new(0));
    let mut app = RenderComponent::column(vec![
        TestRender::new("c1", &journal).into(),
        RenderComponent::new_focusable(TestRender::new("c2", &journal)),
        RenderComponent::new_factory(TestFactory { journal: Rc::clone(&journal), built: Rc::clone(&built) }),
    ]);

    let mut visited = vec![];

    app.visit(&mut |details| {
        visited.push(details.id);
        true
    });

    visited.sort();

    assert_eq!(visited.len(), 4);
}

struct Plain;

impl Render for Plain {
    fn render(&mut self, _render_props: &RenderProps, _buff: &mut Buffer, _area: Rect) {}
}

struct Focusable;

impl FocusableRender for Focusable {
    fn render(&mut self, _render_props: &RenderProps, _buff: &mut Buffer, _area: Rect) {}
}

#[test]
fn flatten_ids_lists_focusable_leaves_depth_first() {
    let mut app = RenderComponent::row(vec![
        RenderComponent::new_focusable(Plain),
        RenderComponent::column(vec![
            RenderComponent::new(Plain),
            RenderComponent::new_focusable(Plain),
            RenderComponent::row(vec![RenderComponent::new_focusable(Plain)]),
        ]),
        RenderComponent::new_focusable(Plain),
    ]);
    let mut expected = vec![];
    app.visit(&mut |node| {
        if node.focusable {
            expected.push(node.id);
        }
        true
    });
    assert_eq!(expected.len(), 4);
    assert_eq!(app.flatten_ids(), expected);
    assert_eq!(app.get_focusable_elements(), expected);
}

#[test]
fn flatten_ids_of_an_empty_layout_is_empty() {
    let mut app = RenderComponent::row(vec![]);
    assert!(app.flatten_ids().is_empty());
}

#[test]
fn conversion_makes_focusable_behaviours_focusable() {
    let plain: RenderComponent = Plain.into();
    let focusable: RenderComponent = Focusable.into();
    assert!(!plain.is_focusable());
    assert!(focusable.is_focusable());
    assert!(!RenderComponent::row(vec![]).is_focusable());
}

#[test]
fn factory_is_built_once_and_its_ids_stay() {
    let journal: Journal = Rc::new(RefCell::new(Vec::new()));
    let built = Rc::new(Cell::new(0));
    let mut app = RenderComponent::new_factory(TestFactory {
        journal: Rc::clone(&journal),
        built: Rc::clone(&built),
    });
    assert_eq!(built.get(), 0);
    let first = app.flatten_ids();
    let second = app.flatten_ids();
    assert_eq!(first.len(), 2);
    assert_eq!(first, second);
    assert_eq!(built.get(), 1);
}

#[test]
fn visit_stops_at_the_first_refusal() {
    let mut app = RenderComponent::row(vec![
        RenderComponent::new(Plain),
        RenderComponent::column(vec![RenderComponent::new(Plain), RenderComponent::new(Plain)]),
        RenderComponent::new(Plain),
    ]);
    let mut seen = 0;
    let finished = app.visit(&mut |_node| {
        seen += 1;
        seen < 2
    });
    assert!(!finished);
    assert_eq!(seen, 2);
}

#[test]
fn visit_leaves_factories_behind_the_stop_unbuilt() {
    let journal: Journal = Rc::new(RefCell::new(Vec::new()));
    let built = Rc::new(Cell::new(0));
    let mut app = RenderComponent::row(vec![
        RenderComponent::new(Plain),
        RenderComponent::new_factory(TestFactory { journal: Rc::clone(&journal), built: Rc::clone(&built) }),
    ]);
    assert!(!app.visit(&mut |_node| false));
    assert_eq!(built.get(), 0);
    assert!(app.visit(&mut |_node| true));
    assert_eq!(built.get(), 1);
}

#[test]
fn only_the_focused_leaf_is_given_the_event() {
    let journal: Journal = Rc::new(RefCell::new(Vec::new()));
    let mut app = RenderComponent::row(vec![
        RenderComponent::new_focusable(TestRender::new("a", &journal)),
        RenderComponent::new_focusable(TestRender::new("b", &journal)),
    ]);
    let ids = app.flatten_ids();
    let mut events = ComponentBuffer::default();
    let mut buffer = Buffer::empty(ratatui::layout::Rect::new(0, 0, 10, 10));
    app.render(
        &VRenderProps { focused_element: Some(ids[1]), event: Some(InputEvent::Key('z')) },
        &mut events,
        &mut buffer,
        Rect { x: 0, y: 0, width: 10, height: 10 },
    );
    assert_eq!(content_of(&journal, "a"), Some(String::new()));
    assert_eq!(content_of(&journal, "b"), Some(String::from("z")));
}

#[test]
fn menu_of_leaf_is_none_for_an_unknown_id() {
    let mut app = RenderComponent::row(vec![RenderComponent::new(Plain)]);
    assert!(app.menu_of_leaf(RenderId::new()).is_none());
}

struct Blank;

impl RenderFlow for Blank {
    fn render(
        &mut self,
        _opts: &VRenderProps,
        _component_buffer: &mut ComponentBuffer,
        _buff: &mut Buffer,
        _area: Rect,
    ) {
    }

    fn get_focusable_elements(&mut self) -> Vec<RenderId> {
        Vec::new()
    }
}

#[test]
fn render_flow_offers_no_menu_by_itself() {
    assert!(Blank.get_menu().is_none());
    assert!(Blank.get_focusable_elements().is_empty());
}

struct Nest {
    built: Rc<Cell<u32>>,
    journal: Journal,
}

impl RenderFactory for Nest {
    fn render(&mut self) -> RenderComponent {
        self.built.set(self.built.get() + 1);
        RenderComponent::row(vec![
            RenderComponent::new_focusable(Focusable),
            RenderComponent::new_factory(TestFactory {
                journal: Rc::clone(&self.journal),
                built: Rc::clone(&self.built),
            }),
        ])
    }
}

#[test]
fn a_factory_inside_a_factory_is_built_once_too() {
    let built = Rc::new(Cell::new(0));
    let journal: Journal = Rc::new(RefCell::new(Vec::new()));
    let mut app = RenderComponent::column(vec![
        RenderComponent::new_factory(Nest { built: Rc::clone(&built), journal }),
        RenderComponent::new_focusable(Focusable),
    ]);
    let first = app.flatten_ids();
    assert_eq!(first.len(), 4);
    assert_eq!(built.get(), 2);
    let second = app.flatten_ids();
    let third = app.flatten_ids();
    assert_eq!(first, second);
    assert_eq!(second, third);
    assert_eq!(built.get(), 2);
}

#[test]
fn a_row_keeps_the_children_it_was_given() {
    let a = RenderComponent::new_focusable(Focusable);
    let b = RenderComponent::new(Plain);
    let c = RenderComponent::new_focusable(Focusable);
    let id_of = |component: &RenderComponent| match component {
        RenderComponent::Render(node) => node.id,
        _ => unreachable!(),
    };
    let (ia, ib, ic) = (id_of(&a), id_of(&b), id_of(&c));
    let mut row = RenderComponent::row(vec![a, RenderComponent::column(vec![b, c])]);
    let mut seen = Vec::new();
    assert!(row.visit(&mut |node| {
        seen.push(node.id);
        true
    }));
    assert_eq!(seen, vec![ia, ib, ic]);
    assert_eq!(row.flatten_ids(), vec![ia, ic]);
}

#[test]
fn one_callback_serves_two_walks() {
    let mut app = RenderComponent::row(vec![
        RenderComponent::new(Plain),
        RenderComponent::new_focusable(Focusable),
    ]);
    let mut count = 0;
    let mut counter = |_: &tuiwindow::component::RenderNode| {
        count += 1;
        true
    };
    assert!(app.visit(&mut counter));
    assert!(app.visit(&mut counter));
    assert_eq!(count, 4);
}
