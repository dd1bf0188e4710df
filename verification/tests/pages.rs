use ratatui::buffer::Buffer;
use std::cell::Cell;
use std::rc::Rc;
use tuiwindow::component::{InputEvent, RenderComponent, RenderFlow};
use tuiwindow::geometry::{Position, Rect};
use tuiwindow::id::RenderId;
use tuiwindow::render::{FocusableRender, Render, RenderProps};
use tuiwindow::windows::alerts::AlertManager;
use tuiwindow::windows::menu::{Menu, MenuEvent};
use tuiwindow::windows::page::Page;
use tuiwindow::windows::page_collection::PageCollection;
use tuiwindow::windows::page_context::PageContext;

fn nothing(_: MenuEvent<'_>) {}

struct MyWidget {}

impl Render for MyWidget {
    fn render(&mut self, _render_props: &RenderProps, _buff: &mut Buffer, _area: Rect) {}
}

struct Searchable {}

impl FocusableRender for Searchable {
    fn render(&mut self, _render_props: &RenderProps, _buff: &mut Buffer, _area: Rect) {}

    fn get_menu(&self) -> Option<Menu> {
        Some(Menu::from_entries(vec![('/', "Search", |_: MenuEvent<'_>| {})]))
    }
}

#[test]
fn api_test_creating_page() {
    let _page = Page::new("P1", 'p', MyWidget {});
    let mut page2 = Page::new("P2", 'd', MyWidget {});
    let _page2 = page2.with_menu_entries(vec![('i', "Insert", |_: MenuEvent<'_>| {})]);
}

#[test]
fn page_test_creating_page() {
    let _page = Page::new("P1", 'p', MyWidget {});
    let _page2 = Page::new("P2", 'd', MyWidget {}).with_menu_entries(vec![(
        'i',
        "Insert",
        |_: MenuEvent<'_>| {},
    )]);
}

#[test]
fn page_keeps_what_it_was_made_of() {
    let mut page = Page::new("Title", 't', MyWidget {});
    assert_eq!(page.get_shortcut(), 't');
    assert_eq!(page.get_title(), "Title");
    assert_eq!(page.get_menu().map(|menu| menu.len()), Some(0));
    page.with_menu_entries(vec![('i', "Insert", nothing), ('d', "Delete", nothing)]);
    let menu = page.get_menu().unwrap();
    assert_eq!(menu.len(), 2);
    assert_eq!(menu.item(0).get_shortcut(), 'i');
    assert_eq!(menu.item(1).get_display_name(), "Delete");
    page.with_menu(Menu::default());
    assert_eq!(page.get_menu().map(|menu| menu.len()), Some(0));
    assert_ne!(Page::new("a", 'a', MyWidget {}).get_page_id(), page.get_page_id());
}

fn two_pages() -> PageCollection {
    PageCollection::new(vec![
        Page::new("Page 1", '1', RenderComponent::row(vec![MyWidget {}.into(), Searchable {}.into()])),
        Page::new("Page 2", '2', MyWidget {}),
        Page::new("Page 2 again", '2', MyWidget {}),
    ])
}

#[test]
fn try_change_page_without_a_match_changes_nothing() {
    let mut pages = two_pages();
    assert_eq!(pages.get_current_index(), 0);
    assert_eq!(pages.get_previous_index(), None);
    assert!(!pages.try_change_page('x'));
    assert_eq!(pages.get_current_index(), 0);
    assert_eq!(pages.get_previous_index(), None);
}

#[test]
fn try_change_page_shows_the_first_match() {
    let mut pages = two_pages();
    assert!(pages.try_change_page('2'));
    assert_eq!(pages.get_current_index(), 1);
    assert_eq!(pages.get_previous_index(), Some(0));
    assert_eq!(pages.get_current_page().get_title(), "Page 2");
    assert!(pages.try_change_page('1'));
    assert_eq!(pages.get_current_index(), 0);
    assert_eq!(pages.get_previous_index(), Some(1));
    assert!(pages.try_change_page('1'));
    assert_eq!(pages.get_current_index(), 0);
    assert_eq!(pages.get_previous_index(), Some(0));
}

#[test]
fn collection_menu_lists_the_pages_then_the_focused_leaf() {
    let mut pages = two_pages();
    let menu = pages.get_menu(&None).unwrap();
    assert_eq!(menu.len(), 3);
    assert_eq!(menu.item(0).get_shortcut(), '1');
    assert_eq!(menu.item(0).get_display_name(), "Page 1");
    assert_eq!(menu.item(2).get_display_name(), "Page 2 again");

    let focusable = pages.get_focusable_elements();
    assert_eq!(focusable.len(), 1);
    let menu = pages.get_menu(&Some(focusable[0])).unwrap();
    assert_eq!(menu.len(), 4);
    assert_eq!(menu.item(3).get_shortcut(), '/');
    assert_eq!(menu.item(3).get_display_name(), "Search");

    assert_eq!(pages.get_menu(&Some(RenderId::new())).unwrap().len(), 3);
}

#[test]
fn components_at_position_finds_the_leaf_under_the_cell() {
    let mut page =
        Page::new("P", 'p', RenderComponent::row(vec![MyWidget {}.into(), Searchable {}.into()]));
    let mut ids = Vec::new();
    page.visit(&mut |node| {
        ids.push(node.id);
        true
    });
    let area = Rect::new(0, 0, 100, 10);
    assert_eq!(page.components_at_position(&Position::new(10, 5), &area), vec![&ids[0]]);
    assert_eq!(page.components_at_position(&Position::new(50, 0), &area), vec![&ids[1]]);
    assert!(page.components_at_position(&Position::new(100, 5), &area).is_empty());
    assert!(page.components_at_position(&Position::new(10, 10), &area).is_empty());
}

#[test]
fn active_element_menu_is_that_of_the_focused_leaf() {
    let mut page =
        Page::new("P", 'p', RenderComponent::row(vec![MyWidget {}.into(), Searchable {}.into()]));
    let mut ids = Vec::new();
    page.visit(&mut |node| {
        ids.push(node.id);
        true
    });
    assert!(page.get_active_element_menu(&None).is_none());
    assert!(page.get_active_element_menu(&Some(ids[0])).is_none());
    assert!(page.get_active_element_menu(&Some(RenderId::new())).is_none());
    assert_eq!(page.get_active_element_menu(&Some(ids[1])).map(|menu| menu.len()), Some(1));
}

#[test]
fn context_lists_the_window_then_the_focusable_leaves() {
    let mut page = Page::new(
        "P",
        'p',
        RenderComponent::row(vec![Searchable {}.into(), MyWidget {}.into(), Searchable {}.into()]),
    );
    let leaves = page.get_focusable_elements();
    let mut context = PageContext::new(&mut page);
    assert!(context.is_window_focused());
    assert_eq!(context.get_focused_element(), Some(context.get_id()));
    context.focus_next();
    assert!(!context.is_window_focused());
    assert_eq!(context.get_focused_element(), Some(leaves[0]));
    context.focus_next();
    assert_eq!(context.get_focused_element(), Some(leaves[1]));
    context.focus_next();
    assert!(context.is_window_focused());
    context.focus_prev();
    assert_eq!(context.get_focused_element(), Some(leaves[1]));
    context.reset_focus();
    assert!(context.is_window_focused());
}

#[test]
fn context_is_built_anew_only_for_another_page() {
    let mut page = Page::new("P", 'p', Searchable {});
    let mut other =
        Page::new("Q", 'q', RenderComponent::row(vec![Searchable {}.into(), Searchable {}.into()]));
    let mut context = PageContext::new(&mut page);
    context.focus_next();
    let leaf = context.get_focused_element().unwrap();
    assert_eq!(context.record_event(context.get_id(), &Some(InputEvent::Key('k'))), Some(leaf));
    assert_eq!(context.get_buffer(&leaf), vec![InputEvent::Key('k')]);

    context.reconcile(&mut page);
    assert_eq!(context.get_focused_element(), Some(leaf));
    assert_eq!(context.get_buffer(&leaf), vec![InputEvent::Key('k')]);

    context.reconcile(&mut other);
    assert!(context.is_window_focused());
    assert!(context.get_buffer(&leaf).is_empty());
    context.focus_prev();
    assert_eq!(context.get_focused_element(), Some(other.get_focusable_elements()[1]));
}

#[test]
fn menu_runs_the_handlers_of_the_key() {
    let hits = Rc::new(Cell::new(0));
    let (a, b, c) = (Rc::clone(&hits), Rc::clone(&hits), Rc::clone(&hits));
    let mut menu = Menu::from_entries(vec![
        ('a', "first", Box::new(move |_: MenuEvent<'_>| a.set(a.get() + 1)) as Box<dyn Fn(MenuEvent)>),
        ('b', "second", Box::new(move |_: MenuEvent<'_>| b.set(b.get() + 10))),
        ('a', "third", Box::new(move |ev: MenuEvent<'_>| {
            c.set(c.get() + 100);
            ev.alerts.alert("done");
        })),
    ]);
    let mut alerts = AlertManager::default();
    menu.handle_event(&mut alerts, &InputEvent::FocusNext);
    menu.handle_event(&mut alerts, &InputEvent::Key('z'));
    assert_eq!(hits.get(), 0);
    assert_eq!(alerts.len(), 0);
    menu.handle_event(&mut alerts, &InputEvent::Key('a'));
    assert_eq!(hits.get(), 101);
    assert_eq!(alerts.len(), 1);
    menu.handle_event(&mut alerts, &InputEvent::Key('b'));
    assert_eq!(hits.get(), 111);
}

#[test]
fn menus_append_in_order() {
    let mut menu = Menu::from_entries(vec![('a', "first", |_: MenuEvent<'_>| {})]);
    let other = Menu::from_entries(vec![
        ('b', String::from("second"), nothing),
        ('c', String::from("third"), nothing),
    ]);
    menu.append(other.clone());
    assert_eq!(other.len(), 2);
    assert_eq!(menu.len(), 3);
    assert_eq!(menu.item(0).get_display_name(), "first");
    assert_eq!(menu.item(1).get_shortcut(), 'b');
    assert_eq!(menu.item(2).get_display_name(), "third");
    assert_eq!(Menu::default().len(), 0);
}

#[test]
fn a_copied_menu_runs_the_same_handlers() {
    let hits = Rc::new(Cell::new(0));
    let counter = Rc::clone(&hits);
    let menu = Menu::from_entries(vec![('a', "first", move |_: MenuEvent<'_>| {
        counter.set(counter.get() + 1)
    })]);
    let mut copy = menu.clone();
    let mut alerts = AlertManager::default();
    copy.handle_event(&mut alerts, &InputEvent::Key('a'));
    assert_eq!(hits.get(), 1);
    let mut joined = Menu::from(vec![menu, copy, Menu::default()]);
    assert_eq!(joined.len(), 2);
    joined.handle_event(&mut alerts, &InputEvent::Key('a'));
    assert_eq!(hits.get(), 3);
}

#[test]
fn a_page_from_a_root_keeps_what_it_is_given() {
    let root = RenderComponent::row(vec![MyWidget {}.into(), Searchable {}.into()]);
    let mut page = Page::from_root(String::from("Given"), 'g', root);
    assert_eq!(page.get_title(), "Given");
    assert_eq!(page.get_shortcut(), 'g');
    assert_eq!(page.get_focusable_elements().len(), 1);
    page.with_named_menu_entries(vec![('n', String::from("Named"), nothing)]);
    let menu = page.get_menu().unwrap();
    assert_eq!(menu.len(), 1);
    assert_eq!(menu.item(0).get_display_name(), "Named");
}

#[test]
fn named_entries_keep_names_and_handlers() {
    let hits = Rc::new(Cell::new(0));
    let counter = Rc::clone(&hits);
    let mut menu = Menu::from_named_entries(vec![('k', String::from("Count"), move |_: MenuEvent<'_>| {
        counter.set(counter.get() + 1)
    })]);
    assert_eq!(menu.item(0).get_shortcut(), 'k');
    assert_eq!(menu.item(0).get_display_name(), "Count");
    menu.handle_event(&mut AlertManager::default(), &InputEvent::Key('k'));
    assert_eq!(hits.get(), 1);
}
