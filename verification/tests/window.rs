use crossterm::event::{
    Event, KeyCode, KeyEvent, KeyModifiers, MouseButton, MouseEvent, MouseEventKind,
};
use ratatui::buffer::Buffer;
use tuiwindow::component::{InputEvent, RenderComponent, RenderFlow};
use tuiwindow::geometry::{Position, Rect};
use tuiwindow::id::RenderId;
use tuiwindow::render::{FocusableRender, Render, RenderProps};
use tuiwindow::windows::menu::{Menu, MenuEvent};
use tuiwindow::windows::page::Page;
use tuiwindow::windows::page_collection::PageCollection;
use tuiwindow::windows::window::{
    map_native_event, DefaultEventMapper, EventMapper, NativeEvent, NativeKey, Window,
    WindowEventResult, WindowRenderer, SHIFT_ONLY,
};

struct Static {}

impl Render for Static {
    fn render(&mut self, _render_props: &RenderProps, _buff: &mut Buffer, _area: Rect) {}
}

struct Typed {}

impl FocusableRender for Typed {
    fn render(&mut self, _render_props: &RenderProps, _buff: &mut Buffer, _area: Rect) {}

    fn get_menu(&self) -> Option<Menu> {
        Some(Menu::from_entries(vec![('!', "Shout", |ev: MenuEvent<'_>| ev.alerts.alert("hey"))]))
    }
}

fn nothing(_: MenuEvent<'_>) {}

fn quit_on_q(ev: &InputEvent) -> bool {
    match ev {
        InputEvent::Key(c) => *c == 'q',
        _ => false,
    }
}

fn leaf_ids(page: &mut Page) -> Vec<RenderId> {
    let mut ids = Vec::new();
    page.visit(&mut |node| {
        ids.push(node.id);
        true
    });
    ids
}

fn frame(window: &mut Window, app: &mut PageCollection, event: Option<InputEvent>) -> Buffer {
    let mut buffer = Buffer::empty(ratatui::layout::Rect::new(0, 0, 60, 12));
    window.render(event, app, &mut buffer, Rect::new(0, 0, 60, 12));
    buffer
}

fn row_text(buffer: &Buffer, y: u16) -> String {
    (0..buffer.area.width).map(|x| buffer.get(x, y).symbol().to_string()).collect()
}

#[test]
fn focus_next_then_key_goes_to_the_focusable_leaf() {
    let mut page = Page::new("Page", 'p', RenderComponent::row(vec![Static {}.into(), Typed {}.into()]));
    let ids = leaf_ids(&mut page);
    let (a, b) = (ids[0], ids[1]);
    let mut app = PageCollection::new(vec![page]);
    let mut window = Window::new(&mut app, quit_on_q);
    assert!(window.is_window_focused());

    frame(&mut window, &mut app, Some(InputEvent::FocusNext));
    assert!(!window.is_window_focused());
    assert_eq!(window.get_active_context().unwrap().get_focused_element(), Some(b));

    frame(&mut window, &mut app, Some(InputEvent::Key('x')));
    let context = window.get_active_context().unwrap();
    assert_eq!(context.get_buffer(&b), vec![InputEvent::FocusNext, InputEvent::Key('x')]);
    assert!(context.get_buffer(&a).is_empty());
    assert!(context.get_buffer(&context.get_id()).is_empty());
    assert!(!window.is_finished());
}

#[test]
fn a_frame_without_an_event_records_nothing() {
    let mut app = PageCollection::new(vec![Page::new("Page", 'p', Typed {})]);
    let mut window = Window::new(&mut app, quit_on_q);
    frame(&mut window, &mut app, None);
    let context = window.get_active_context().unwrap();
    assert!(context.is_window_focused());
    assert!(context.get_buffer(&context.get_id()).is_empty());
}

#[test]
fn the_end_condition_is_asked_only_while_the_window_has_the_focus() {
    let mut app = PageCollection::new(vec![Page::new("Page", 'p', Typed {})]);
    let mut window = Window::new(&mut app, quit_on_q);
    frame(&mut window, &mut app, Some(InputEvent::FocusNext));
    frame(&mut window, &mut app, Some(InputEvent::Key('q')));
    assert!(!window.is_finished());
    frame(&mut window, &mut app, Some(InputEvent::FocusWindow));
    assert!(window.is_window_focused());
    frame(&mut window, &mut app, Some(InputEvent::Key('q')));
    assert!(window.is_finished());
    frame(&mut window, &mut app, Some(InputEvent::Key('x')));
    assert!(!window.is_finished());
}

#[test]
fn a_shortcut_switches_pages_only_while_the_window_has_the_focus() {
    let mut app = PageCollection::new(vec![
        Page::new("One", '1', Typed {}),
        Page::new("Two", '2', RenderComponent::row(vec![Typed {}.into(), Typed {}.into()])),
    ]);
    let mut window = Window::new(&mut app, quit_on_q);
    frame(&mut window, &mut app, Some(InputEvent::FocusNext));
    frame(&mut window, &mut app, Some(InputEvent::Key('2')));
    assert_eq!(app.get_current_index(), 0);

    frame(&mut window, &mut app, Some(InputEvent::FocusPrevious));
    assert!(window.is_window_focused());
    frame(&mut window, &mut app, Some(InputEvent::Key('2')));
    assert_eq!(app.get_current_index(), 1);
    assert_eq!(app.get_previous_index(), Some(0));
    assert!(window.is_window_focused());
    let context = window.get_active_context().unwrap();
    assert_eq!(context.get_buffer(&context.get_id()), vec![InputEvent::Key('2')]);

    frame(&mut window, &mut app, Some(InputEvent::FocusPrevious));
    let second = app.get_focusable_elements()[1];
    assert_eq!(window.get_active_context().unwrap().get_focused_element(), Some(second));
    frame(&mut window, &mut app, Some(InputEvent::Click(Position::new(1, 1))));
    assert_eq!(window.get_active_context().unwrap().get_focused_element(), Some(second));
}

#[test]
fn handle_window_event_tells_a_page_change() {
    let mut app =
        PageCollection::new(vec![Page::new("One", '1', Typed {}), Page::new("Two", '2', Typed {})]);
    let mut window = Window::new(&mut app, quit_on_q);
    assert_eq!(
        window.handle_window_event(&InputEvent::Key('9'), &mut app),
        WindowEventResult::Unchanged
    );
    assert_eq!(
        window.handle_window_event(&InputEvent::FocusNext, &mut app),
        WindowEventResult::Unchanged
    );
    assert_eq!(
        window.handle_window_event(&InputEvent::Key('2'), &mut app),
        WindowEventResult::Unchanged
    );
    window.handle_window_event(&InputEvent::FocusWindow, &mut app);
    assert_eq!(
        window.handle_window_event(&InputEvent::Key('2'), &mut app),
        WindowEventResult::PageChange
    );
    assert_eq!(app.get_current_index(), 1);
    window.on_page_change(&mut app);
    assert!(window.is_window_focused());
}

#[test]
fn the_menu_of_the_focused_leaf_is_offered_the_event() {
    let mut app = PageCollection::new(vec![Page::new("Page", 'p', Typed {})]);
    let mut window = Window::new(&mut app, quit_on_q);
    frame(&mut window, &mut app, Some(InputEvent::Key('!')));
    assert_eq!(window.get_alerts().len(), 0);
    frame(&mut window, &mut app, Some(InputEvent::FocusNext));
    frame(&mut window, &mut app, Some(InputEvent::Key('!')));
    assert_eq!(window.get_alerts().len(), 1);
}

#[test]
fn the_footer_is_on_the_last_row() {
    let mut app =
        PageCollection::new(vec![Page::new("One", '1', Typed {}), Page::new("Two", '2', Typed {})]);
    let mut window = Window::new(&mut app, quit_on_q);
    let buffer = frame(&mut window, &mut app, None);
    let footer = row_text(&buffer, 11);
    assert!(footer.starts_with("q) Exit"));
    assert!(footer.contains("2) Two"));
    assert!(!footer.contains("1) One"));

    let buffer = frame(&mut window, &mut app, Some(InputEvent::FocusNext));
    let footer = row_text(&buffer, 11);
    assert!(footer.starts_with("ESC) Window"));
    assert!(footer.contains("!) Shout"));
    assert!(!footer.contains("2) Two"));
}

#[test]
fn an_alert_is_drawn_above_the_page() {
    let mut app = PageCollection::new(vec![Page::new("Page", 'p', Typed {})]);
    let mut window = Window::new(&mut app, quit_on_q);
    window.get_alerts().alert("look here");
    let mut buffer = Buffer::empty(ratatui::layout::Rect::new(0, 0, 60, 31));
    window.render(None, &mut app, &mut buffer, Rect::new(0, 0, 60, 31));
    let mut all = String::new();
    for y in 0..31 {
        all.push_str(&row_text(&buffer, y));
    }
    assert!(all.contains("Alert"));
    assert!(all.contains("look here"));
}

#[test]
fn format_menu_leaves_out_the_page_that_is_shown() {
    let menu = Menu::from_entries(vec![('1', "One", nothing), ('2', "Two", nothing), ('/', "Search", nothing)]);
    assert_eq!(
        WindowRenderer::format_menu(Some(menu.clone()), '2'),
        vec![String::from("1) One"), String::from("/) Search")]
    );
    assert_eq!(WindowRenderer::format_menu(Some(menu), 'x').len(), 3);
    assert!(WindowRenderer::format_menu(None, '1').is_empty());
}

#[test]
fn footer_items_follow_the_focus() {
    let pages = Menu::from_entries(vec![('1', "One", |_: MenuEvent<'_>| {})]);
    let leaf = Menu::from_entries(vec![('/', "Search", |_: MenuEvent<'_>| {})]);
    assert_eq!(
        WindowRenderer::footer_items(true, Some(pages.clone()), Some(leaf.clone()), '2'),
        vec![String::from("q) Exit"), String::from("1) One")]
    );
    assert_eq!(
        WindowRenderer::footer_items(false, Some(pages), Some(leaf), '2'),
        vec![String::from("ESC) Window"), String::from("/) Search")]
    );
    assert_eq!(WindowRenderer::footer_items(false, None, None, '2'), vec![String::from("ESC) Window")]);
}

#[test]
fn pre_render_keeps_the_last_row_for_the_footer() {
    let mut buffer = Buffer::empty(ratatui::layout::Rect::new(0, 0, 40, 10));
    let items = vec![String::from("q) Exit"), String::from("1) One")];
    let content = WindowRenderer::pre_render(&items, &mut buffer, Rect::new(0, 0, 40, 10));
    assert_eq!(content, Rect::new(0, 0, 40, 9));
    let footer = row_text(&buffer, 9);
    assert!(footer.starts_with("q) Exit"));
    assert_eq!(&footer[20..26], "1) One");
}

fn key(code: KeyCode, modifiers: KeyModifiers) -> Event {
    Event::Key(KeyEvent::new(code, modifiers))
}

#[test]
fn default_mapper_maps_keys() {
    assert_eq!(
        DefaultEventMapper::to_input_event(&key(KeyCode::Char('a'), KeyModifiers::NONE)),
        Some(InputEvent::Key('a'))
    );
    assert_eq!(
        DefaultEventMapper::to_input_event(&key(KeyCode::Char('A'), KeyModifiers::SHIFT)),
        Some(InputEvent::Key('A'))
    );
    assert_eq!(
        DefaultEventMapper::to_input_event(&key(KeyCode::Tab, KeyModifiers::NONE)),
        Some(InputEvent::FocusNext)
    );
    assert_eq!(
        DefaultEventMapper::to_input_event(&key(KeyCode::Tab, KeyModifiers::SHIFT)),
        Some(InputEvent::FocusPrevious)
    );
    assert_eq!(
        DefaultEventMapper::to_input_event(&key(
            KeyCode::Tab,
            KeyModifiers::SHIFT | KeyModifiers::CONTROL
        )),
        Some(InputEvent::FocusNext)
    );
    assert_eq!(
        DefaultEventMapper::to_input_event(&key(KeyCode::Esc, KeyModifiers::NONE)),
        Some(InputEvent::FocusWindow)
    );
    assert_eq!(DefaultEventMapper::to_input_event(&key(KeyCode::Enter, KeyModifiers::NONE)), None);
}

#[test]
fn default_mapper_maps_the_mouse_and_the_rest() {
    let mouse = |kind| {
        Event::Mouse(MouseEvent { kind, column: 7, row: 9, modifiers: KeyModifiers::NONE })
    };
    assert_eq!(
        DefaultEventMapper::to_input_event(&mouse(MouseEventKind::Up(MouseButton::Left))),
        Some(InputEvent::Click(Position::new(7, 9)))
    );
    assert_eq!(DefaultEventMapper::to_input_event(&mouse(MouseEventKind::Down(MouseButton::Left))), None);
    assert_eq!(DefaultEventMapper::to_input_event(&mouse(MouseEventKind::Moved)), None);
    assert_eq!(DefaultEventMapper::to_input_event(&Event::FocusGained), None);
    assert_eq!(DefaultEventMapper::to_input_event(&Event::FocusLost), None);
    assert_eq!(DefaultEventMapper::to_input_event(&Event::Resize(3, 4)), None);
    assert_eq!(DefaultEventMapper::to_input_event(&Event::Paste(String::from("x"))), None);
}

#[test]
fn native_events_map_by_the_table() {
    assert_eq!(
        map_native_event(NativeEvent::Key { code: NativeKey::Tab, modifiers: SHIFT_ONLY }),
        Some(InputEvent::FocusPrevious)
    );
    assert_eq!(
        map_native_event(NativeEvent::Key { code: NativeKey::Other, modifiers: SHIFT_ONLY }),
        None
    );
    assert_eq!(
        map_native_event(NativeEvent::MouseUp { column: 1, row: 2 }),
        Some(InputEvent::Click(Position::new(1, 2)))
    );
    assert_eq!(map_native_event(NativeEvent::Other), None);
}

#[test]
fn the_style_of_the_page_is_painted_on_the_whole_area() {
    let style = ratatui::style::Style::default().bg(ratatui::style::Color::Blue);
    let mut app = PageCollection::new(vec![Page::new("Page", 'p', Static {}).with_style(style)]);
    let mut window = Window::new(&mut app, quit_on_q);
    let buffer = frame(&mut window, &mut app, None);
    assert_eq!(buffer.get(0, 0).bg, ratatui::style::Color::Blue);
    assert_eq!(buffer.get(59, 11).bg, ratatui::style::Color::Blue);
    assert_eq!(buffer.get(30, 5).bg, ratatui::style::Color::Blue);
}

#[test]
fn a_window_keeps_a_focus_list_for_every_page() {
    let mut app = PageCollection::new(vec![
        Page::from_root(String::from("One"), '1', RenderComponent::row(vec![Typed {}.into(), Static {}.into()])),
        Page::from_root(String::from("Two"), '2', RenderComponent::row(vec![Typed {}.into(), Typed {}.into()])),
    ]);
    let mut window = Window::new(&mut app, quit_on_q);
    assert!(window.is_attached(&app));
    assert_eq!(window.get_alerts().len(), 0);
    frame(&mut window, &mut app, Some(InputEvent::Key('2')));
    assert!(window.is_window_focused());
    let leaves = app.get_focusable_elements();
    assert_eq!(leaves.len(), 2);
    frame(&mut window, &mut app, Some(InputEvent::FocusNext));
    assert_eq!(window.get_active_context().unwrap().get_focused_element(), Some(leaves[0]));
    frame(&mut window, &mut app, Some(InputEvent::FocusNext));
    assert_eq!(window.get_active_context().unwrap().get_focused_element(), Some(leaves[1]));
    frame(&mut window, &mut app, Some(InputEvent::FocusNext));
    assert!(window.is_window_focused());
}

#[test]
fn a_label_that_takes_no_cell_at_the_edge_is_drawn_cleaned() {
    let mut buffer = Buffer::empty(ratatui::layout::Rect::new(0, 0, 8, 2));
    let items = vec![String::from("q) E"), String::from("1) A\u{200b}")];
    let content = WindowRenderer::pre_render(&items, &mut buffer, Rect::new(0, 0, 8, 2));
    assert_eq!(content, Rect::new(0, 0, 8, 1));
    assert_eq!(row_text(&buffer, 1), "q) E1) A");

    let mut buffer = Buffer::empty(ratatui::layout::Rect::new(0, 0, 10, 1));
    let items = vec![String::from("a\u{200b}b\u{e9}\u{200d}")];
    WindowRenderer::pre_render(&items, &mut buffer, Rect::new(0, 0, 10, 1));
    assert_eq!(row_text(&buffer, 0), "a?b??     ");
}

#[test]
fn a_page_title_that_takes_no_cell_does_not_stop_the_frame() {
    let mut app = PageCollection::new(vec![
        Page::from_root(String::from("One"), '1', RenderComponent::new(Static {})),
        Page::from_root(String::from("Twos\u{200b}"), '2', RenderComponent::new(Static {})),
    ]);
    let mut window = Window::new(&mut app, quit_on_q);
    let mut buffer = Buffer::empty(ratatui::layout::Rect::new(0, 0, 16, 3));
    window.render(None, &mut app, &mut buffer, Rect::new(0, 0, 16, 3));
    assert_eq!(row_text(&buffer, 2), "q) Exit 2) Twos?");
}

#[test]
fn focus_window_gives_the_focus_back_to_the_window() {
    let mut app = PageCollection::new(vec![Page::new(
        "Page",
        'p',
        RenderComponent::row(vec![Typed {}.into(), Typed {}.into()]),
    )]);
    let mut window = Window::new(&mut app, quit_on_q);
    assert!(window.is_attached(&app));
    assert!(window.get_active_context().unwrap().is_headed());
    frame(&mut window, &mut app, Some(InputEvent::FocusNext));
    frame(&mut window, &mut app, Some(InputEvent::FocusNext));
    assert!(!window.is_window_focused());
    frame(&mut window, &mut app, Some(InputEvent::FocusWindow));
    assert!(window.is_window_focused());
    assert!(window.is_attached(&app));
}
