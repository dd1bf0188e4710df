//! The window: it owns what is kept per page, routes each frame's event, and
//! draws the footer, the page and the alerts.

use super::alerts::{
    alert_shown, first_shown_at, none_shown, read_of, Alert, AlertManager, Reading,
};
use super::menu::{dealt, Menu, MenuEvent, MenuItem};
use super::page::Page;
use super::page_collection::{
    collection_menu, is_first_with_shortcut, no_page_with_shortcut, PageCollection,
};
use super::page_context::PageContext;
use crate::component::{drawn, InputEvent, RenderFlow, VRenderProps};
use crate::shape::focusable_ids;
use crate::geometry::{
    equal_fill, split, split_equal, split_of, Constraint, Direction, Position, Rect,
};
use crate::id::RenderId;
use crate::surface::{
    bounds, cleaned, draw_text, is_sound, paint, painted, readable, same_extent, sound,
    surface_bounds, text_drawn,
};
use crate::utils::{next_index, previous_index, SelectableHashMap};
use crossterm::event::{Event, KeyCode, MouseEventKind};
use ratatui::buffer::Buffer;
use std::collections::HashMap;
use vstd::prelude::*;

verus! {

broadcast use vstd::std_specs::hash::group_hash_axioms;

/// `crossterm::event::Event`, an event of the terminal, as a value that is
/// only passed on and taken apart by `key_of` and `mouse_up_of`.
#[verifier::external_type_specification]
#[verifier::external_body]
pub struct ExEvent(Event);

/// The keys that the toolkit tells apart.
#[derive(Debug, Clone, Copy, PartialEq, Eq, Structural)]
pub enum NativeKey {
    Char(char),
    Tab,
    Esc,
    Other,
}

/// What the toolkit reads of an event of the terminal.
#[derive(Debug, Clone, Copy, PartialEq, Eq, Structural)]
pub enum NativeEvent {
    /// A key, with the bits of the modifiers that were held.
    Key { code: NativeKey, modifiers: u8 },
    /// A mouse button was let go on the cell.
    MouseUp { column: u16, row: u16 },
    /// Anything else.
    Other,
}

/// The bits of the modifiers when shift alone is held.
pub const SHIFT_ONLY: u8 = 1;

/// The key and the bits of the modifiers, where the event is a key event.
pub uninterp spec fn key_view(ev: Event) -> Option<(NativeKey, u8)>;

/// The column and the row, where the event is a mouse button let go.
pub uninterp spec fn mouse_up_view(ev: Event) -> Option<(u16, u16)>;

/// What the toolkit reads of an event of the terminal.
pub open spec fn native_view(ev: Event) -> NativeEvent {
    match key_view(ev) {
        Some((code, modifiers)) => NativeEvent::Key { code, modifiers },
        None => match mouse_up_view(ev) {
            Some((column, row)) => NativeEvent::MouseUp { column, row },
            None => NativeEvent::Other,
        },
    }
}

/// Takes a `crossterm::event::Event` apart: of a key event the code, where it
/// is a character, tab or escape, and the bits of its `KeyModifiers`; nothing
/// of any other event.
#[verifier::external_body]
fn key_of(ev: &Event) -> (key: Option<(NativeKey, u8)>)
    ensures
        key == key_view(*ev),
{
    match ev {
        Event::Key(key) => Some((match key.code {
            KeyCode::Char(c) => NativeKey::Char(c),
            KeyCode::Tab => NativeKey::Tab,
            KeyCode::Esc => NativeKey::Esc,
            _ => NativeKey::Other,
        }, key.modifiers.bits())),
        _ => None,
    }
}

/// Takes a `crossterm::event::Event` apart: of a mouse event of kind `Up` the
/// column and the row; nothing of any other event.
#[verifier::external_body]
fn mouse_up_of(ev: &Event) -> (cell: Option<(u16, u16)>)
    ensures
        cell == mouse_up_view(*ev),
{
    match ev {
        Event::Mouse(mouse) => match mouse.kind {
            MouseEventKind::Up(_) => Some((mouse.column, mouse.row)),
            _ => None,
        },
        _ => None,
    }
}

/// What the toolkit reads of an event of the terminal.
pub fn native_event(ev: &Event) -> (native: NativeEvent)
    ensures
        native == native_view(*ev),
{
    match key_of(ev) {
        Some((code, modifiers)) => NativeEvent::Key { code, modifiers },
        None => match mouse_up_of(ev) {
            Some((column, row)) => NativeEvent::MouseUp { column, row },
            None => NativeEvent::Other,
        },
    }
}

/// The input event that an event of the terminal stands for: tab with shift
/// alone moves the focus back, a character is a key, tab moves the focus on,
/// escape gives the focus to the window, a mouse button let go is a click,
/// and nothing else is an input event.
pub open spec fn default_mapping(native: NativeEvent) -> Option<InputEvent> {
    match native {
        NativeEvent::Key { code, modifiers } => if modifiers == SHIFT_ONLY && code
            == NativeKey::Tab {
            Some(InputEvent::FocusPrevious)
        } else {
            match code {
                NativeKey::Char(c) => Some(InputEvent::Key(c)),
                NativeKey::Tab => Some(InputEvent::FocusNext),
                NativeKey::Esc => Some(InputEvent::FocusWindow),
                NativeKey::Other => None,
            }
        },
        NativeEvent::MouseUp { column, row } => Some(InputEvent::Click(Position { x: column, y: row })),
        NativeEvent::Other => None,
    }
}

/// The input event that an event of the terminal stands for.
pub fn map_native_event(native: NativeEvent) -> (event: Option<InputEvent>)
    ensures
        event == default_mapping(native),
{
    match native {
        NativeEvent::Key { code, modifiers } => {
            if modifiers == SHIFT_ONLY && code == NativeKey::Tab {
                Some(InputEvent::FocusPrevious)
            } else {
                match code {
                    NativeKey::Char(c) => Some(InputEvent::Key(c)),
                    NativeKey::Tab => Some(InputEvent::FocusNext),
                    NativeKey::Esc => Some(InputEvent::FocusWindow),
                    NativeKey::Other => None,
                }
            }
        },
        NativeEvent::MouseUp { column, row } => Some(InputEvent::Click(Position::new(column, row))),
        NativeEvent::Other => None,
    }
}

/// From an event of the terminal to an input event, or to none.
pub trait EventMapper {
    fn to_input_event(ev: &Event) -> Option<InputEvent>;
}

#[derive(Default)]
pub struct DefaultEventMapper {}

impl EventMapper for DefaultEventMapper {
    fn to_input_event(ev: &Event) -> (event: Option<InputEvent>)
        ensures
            event == default_mapping(native_view(*ev)),
    {
        map_native_event(native_event(ev))
    }
}

/// The text of a menu entry in the footer: the shortcut, a closing bracket,
/// a blank and the name.
pub open spec fn label_text(shortcut: char, name: Seq<char>) -> Seq<char> {
    seq![shortcut, ')', ' '] + name
}

/// Formats the shortcut and the name with `format!`: the shortcut, a closing
/// bracket, a blank and the name.
#[verifier::external_body]
fn entry_label(shortcut: char, name: &str) -> (label: String)
    ensures
        label@ == label_text(shortcut, name@),
{
    format!("{}) {}", shortcut, name)
}

/// The labels of the first `count` entries, in order, without the entries
/// whose shortcut is `current_page`.
pub open spec fn menu_labels(items: Seq<MenuItem>, current_page: char, count: nat) -> Seq<Seq<char>>
    decreases count,
{
    if count == 0 || count > items.len() {
        Seq::empty()
    } else if items[count - 1].shortcut() != current_page {
        menu_labels(items, current_page, (count - 1) as nat).push(
            label_text(items[count - 1].shortcut(), items[count - 1].display_name()),
        )
    } else {
        menu_labels(items, current_page, (count - 1) as nat)
    }
}

/// The texts of the strings.
pub open spec fn texts(strings: Seq<String>) -> Seq<Seq<char>> {
    Seq::new(strings.len(), |i: int| strings[i]@)
}

/// What the footer shows: a hint on how to leave, then the labels of the
/// menu on the side that has the focus.
pub open spec fn footer_texts(
    window_focused: bool,
    menu: Option<Menu>,
    focused_menu: Option<Menu>,
    current_page: char,
) -> Seq<Seq<char>> {
    let hint = if window_focused {
        "q) Exit"@
    } else {
        "ESC) Window"@
    };
    let chosen = if window_focused {
        menu
    } else {
        focused_menu
    };
    seq![hint] + match chosen {
        Some(m) => menu_labels(m@, current_page, m@.len()),
        None => Seq::empty(),
    }
}

/// The surface after the first `count` of the texts were written, each
/// cleaned and into its part as far as the surface reaches, one after the
/// other.
pub open spec fn texts_drawn(
    before: Buffer,
    parts: Seq<Rect>,
    texts: Seq<Seq<char>>,
    count: nat,
) -> Buffer
    decreases count,
{
    if count == 0 || count > parts.len() || count > texts.len() {
        before
    } else {
        let so_far = texts_drawn(before, parts, texts, (count - 1) as nat);
        text_drawn(
            so_far,
            parts[count - 1].clipped(surface_bounds(so_far)),
            cleaned(texts[count - 1]),
        )
    }
}

/// Whether `after` is the surface `before` with the footer drawn on `area`
/// when `area` was split into `parts`: one part of equal weight for each
/// text, side by side, and each text written into its part, with a question
/// mark for every character that is not a printable one of ASCII.
pub open spec fn footer_drawn_with(
    texts: Seq<Seq<char>>,
    area: Rect,
    parts: Seq<Rect>,
    before: Buffer,
    after: Buffer,
) -> bool {
    &&& split_of(Direction::Horizontal, equal_fill(texts.len()), area, parts)
    &&& after == texts_drawn(before, parts, texts, texts.len())
}

/// Whether `after` is the surface `before` with the footer drawn on `area`,
/// however `area` was split.
pub open spec fn footer_shown(
    texts: Seq<Seq<char>>,
    area: Rect,
    before: Buffer,
    after: Buffer,
) -> bool {
    exists|parts: Seq<Rect>| #[trigger] footer_drawn_with(texts, area, parts, before, after)
}

/// The constraints that part the page from the footer: the footer takes one
/// row, the page what is left.
pub open spec fn footer_constraints() -> Seq<Constraint> {
    seq![Constraint::Fill(1), Constraint::Length(1)]
}

/// Whether, with `area` split into `layout`, `content` is the part for the
/// page and `after` is the surface `before` with the footer drawn on the
/// part below it.
pub open spec fn pre_rendered_with(
    texts: Seq<Seq<char>>,
    area: Rect,
    layout: Seq<Rect>,
    content: Rect,
    before: Buffer,
    after: Buffer,
) -> bool {
    &&& split_of(Direction::Vertical, footer_constraints(), area, layout)
    &&& content == layout[0]
    &&& footer_shown(texts, layout[1], before, after)
}

pub struct WindowRenderer {}

impl WindowRenderer {
    /// The labels of the menu's entries, in order, without the entries whose
    /// shortcut is that of the page that is shown.
    pub fn format_menu(maybe_menu: Option<Menu>, current_page: char) -> (labels: Vec<String>)
        ensures
            texts(labels@) == match maybe_menu {
                Some(m) => menu_labels(m@, current_page, m@.len()),
                None => Seq::empty(),
            },
    {
        let mut labels: Vec<String> = Vec::new();
        if let Some(menu) = maybe_menu {
            let mut i: usize = 0;
            assert(texts(labels@) =~= Seq::<Seq<char>>::empty());
            while i < menu.len()
                invariant
                    i <= menu@.len(),
                    texts(labels@) == menu_labels(menu@, current_page, i as nat),
                decreases menu@.len() - i,
            {
                let item = menu.item(i);
                if item.get_shortcut() != current_page {
                    let ghost before = labels@;
                    labels.push(entry_label(item.get_shortcut(), item.get_display_name().as_str()));
                    assert(texts(labels@) =~= texts(before).push(
                        label_text(item.shortcut(), item.display_name()),
                    ));
                }
                i += 1;
            }
            labels
        } else {
            assert(texts(labels@) =~= Seq::<Seq<char>>::empty());
            labels
        }
    }

    /// What the footer shows, in order.
    pub fn footer_items(
        window_focused: bool,
        maybe_menu: Option<Menu>,
        maybe_focused_menu: Option<Menu>,
        current_page: char,
    ) -> (items: Vec<String>)
        ensures
            texts(items@) == footer_texts(
                window_focused,
                maybe_menu,
                maybe_focused_menu,
                current_page,
            ),
    {
        let mut items: Vec<String> = Vec::new();
        let mut extra = if window_focused {
            items.push("q) Exit".to_string());
            WindowRenderer::format_menu(maybe_menu, current_page)
        } else {
            items.push("ESC) Window".to_string());
            WindowRenderer::format_menu(maybe_focused_menu, current_page)
        };
        let ghost hint = items@;
        let ghost rest = extra@;
        items.append(&mut extra);
        assert(texts(items@) =~= texts(hint) + texts(rest));
        assert(texts(hint) =~= seq![hint[0]@]);
        items
    }

    /// Draws the footer on `area`: the area is cut into one part of equal
    /// weight for each item, side by side, and each item is cleaned and
    /// written into its part.
    fn footer(items: &Vec<String>, area: Rect, buff: &mut Buffer)
        requires
            sound(*old(buff)),
        ensures
            footer_shown(texts(items@), area, *old(buff), *final(buff)),
            sound(*final(buff)),
            same_extent(*old(buff), *final(buff)),
    {
        let footer_layout = split_equal(Direction::Horizontal, items.len(), area);
        let mut i: usize = 0;
        while i < items.len()
            invariant
                i <= items.len(),
                footer_layout.len() == items.len(),
                sound(*buff),
                same_extent(*old(buff), *buff),
                *buff == texts_drawn(*old(buff), footer_layout@, texts(items@), i as nat),
            decreases items.len() - i,
        {
            let shown = readable(items[i].as_str());
            draw_text(buff, footer_layout[i].clip(bounds(buff)), shown.as_str());
            i += 1;
        }
        assert(footer_drawn_with(texts(items@), area, footer_layout@, *old(buff), *buff));
    }

    /// Keeps the last row of `area` for the footer and draws it there; what
    /// is left of `area` is handed back for the page.
    pub fn pre_render(items: &Vec<String>, buff: &mut Buffer, area: Rect) -> (content: Rect)
        requires
            sound(*old(buff)),
        ensures
            sound(*final(buff)),
            same_extent(*old(buff), *final(buff)),
            exists|layout: Seq<Rect>| #[trigger]
                pre_rendered_with(
                    texts(items@),
                    area,
                    layout,
                    content,
                    *old(buff),
                    *final(buff),
                ),
            content.within(area),
            content.x == area.x,
            content.width == area.width,
    {
        let mut constraints: Vec<Constraint> = Vec::new();
        constraints.push(Constraint::Fill(1));
        constraints.push(Constraint::Length(1));
        assert(constraints@ =~= footer_constraints());
        let layout = split(Direction::Vertical, &constraints, area);
        proof {
            crate::geometry::lemma_split_parts_disjoint_in_order(
                Direction::Vertical,
                constraints@,
                area,
                layout@,
            );
        }
        Self::footer(items, layout[1], buff);
        assert(pre_rendered_with(texts(items@), area, layout@, layout@[0], *old(buff), *buff));
        layout[0]
    }
}

/// What decides, from an event that the window itself is given, whether the
/// application is over.
pub trait EndCondition {
    /// Whether the condition may give `answer` on the event.
    open spec fn allows(&self, ev: InputEvent, answer: bool) -> bool {
        true
    }

    fn is_end(&self, ev: &InputEvent) -> (answer: bool)
        ensures
            self.allows(*ev, answer),
    ;
}

/// A closure in the place of an end condition.
struct ClosureEnd<F: Fn(&InputEvent) -> bool> {
    check: F,
}

impl<F: Fn(&InputEvent) -> bool> ClosureEnd<F> {
    #[verifier::type_invariant]
    spec fn takes_every_event(self) -> bool {
        forall|ev: &InputEvent| call_requires(self.check, (ev,))
    }

    /// Wraps a closure that can be called on every event.
    fn new(check: F) -> (condition: Self)
        requires
            forall|ev: &InputEvent| call_requires(check, (ev,)),
        ensures
            condition.check == check,
    {
        ClosureEnd { check }
    }
}

impl<F: Fn(&InputEvent) -> bool> EndCondition for ClosureEnd<F> {
    /// An answer that the closure may give on the event.
    closed spec fn allows(&self, ev: InputEvent, answer: bool) -> bool {
        call_ensures(self.check, (&ev,), answer)
    }

    /// The answer of the closure.
    fn is_end(&self, ev: &InputEvent) -> (answer: bool) {
        proof {
            use_type_invariant(self);
        }
        (self.check)(ev)
    }
}

pub type BoxedEndCondition = Box<dyn EndCondition>;

pub struct Window {
    id: RenderId,
    end_condition: BoxedEndCondition,
    is_ended: bool,
    page_context_map: SelectableHashMap<u128, PageContext>,
    alerts: AlertManager,
}

/// What the window's own handling of an event led to.
#[derive(Debug, Clone, Copy, PartialEq, Eq, Structural)]
pub enum WindowEventResult {
    /// Another page is shown now.
    PageChange,
    /// The same page is shown as before.
    Unchanged,
}

/// The position of the focus after the event, in a focus list of `len`
/// entries: the focus moves on or back with wraparound, goes to the window,
/// or stays.
pub open spec fn focus_after(ev: InputEvent, index: nat, len: nat) -> nat {
    match ev {
        InputEvent::FocusNext => next_index(index, len),
        InputEvent::FocusPrevious => previous_index(index, len),
        InputEvent::FocusWindow => 0,
        InputEvent::Key(_) => index,
        InputEvent::Click(_) => index,
    }
}

/// Whether `after` is `before` with the focus where `index` says.
pub open spec fn refocused(before: PageContext, after: PageContext, index: nat) -> bool {
    &&& after.same_page(before)
    &&& after.histories() == before.histories()
    &&& after.focus_index() == index
}

/// Whether the event switches pages: a key, given while the window has the
/// focus, that is the shortcut of a page.
pub open spec fn switches_page(ev: InputEvent, window_focused: bool, pages: Seq<Page>) -> bool {
    ev matches InputEvent::Key(c) && window_focused && !no_page_with_shortcut(pages, c)
}

/// Which page is shown after a frame: the first with the shortcut where the
/// event switches pages, with the page shown before remembered; else the
/// same as before.
pub open spec fn shown_after(
    event: Option<InputEvent>,
    window_focused: bool,
    before: PageCollection,
    after: PageCollection,
) -> bool {
    match event {
        Some(InputEvent::Key(c)) => if window_focused && !no_page_with_shortcut(
            before.pages(),
            c,
        ) {
            is_first_with_shortcut(before.pages(), c, after.current_index() as int)
                && after.previous_index() == Some(before.current_index())
        } else {
            after.current_index() == before.current_index() && after.previous_index()
                == before.previous_index()
        },
        _ => after.current_index() == before.current_index() && after.previous_index()
            == before.previous_index(),
    }
}

/// What a frame does to what is kept for the page that is shown at the end
/// of the frame: the focus is where the event puts it, and the event is
/// recorded for whoever has the focus then, or for the window where nobody
/// has it.
pub open spec fn frame_recorded(
    before: PageContext,
    after: PageContext,
    window: RenderId,
    event: Option<InputEvent>,
) -> bool {
    &&& after.same_page(before)
    &&& after.focus_index() == match event {
        Some(ev) => focus_after(ev, before.focus_index(), before.focus_list().len()),
        None => before.focus_index(),
    }
    &&& after.histories() == crate::component::record(
        before.histories(),
        match after.focused() {
            Some(id) => id,
            None => window,
        },
        event,
    )
}

/// Whether the alert at `index` was drawn as the overlay: by the readings of
/// the clock it is the first alert that is still shown, so every alert before
/// it had been drawn before; it is the same alert as before but that it has
/// been drawn now, no other alert has changed, and the surface shows it.
pub open spec fn overlay_of(
    before: Seq<Alert>,
    after: Seq<Alert>,
    index: int,
    readings: Seq<Reading>,
    area: Rect,
    surface_before: Buffer,
    surface_after: Buffer,
) -> bool {
    &&& 0 <= index < before.len()
    &&& read_of(before, readings)
    &&& first_shown_at(readings, index)
    &&& forall|j: int| 0 <= j < index ==> (#[trigger] before[j]).first_rendered() is Some
    &&& after == before.update(index, after[index])
    &&& after[index].same_content(before[index])
    &&& after[index].first_rendered() is Some
    &&& before[index].first_rendered() is Some ==> after[index].first_rendered()
        == before[index].first_rendered()
    &&& alert_shown(
        before[index].title(),
        before[index].message(),
        crate::clock::duration_nanos(before[index].duration()),
        area,
        surface_before,
        surface_after,
    )
}

/// Whether nothing was drawn as the overlay: by the readings of the clock no
/// alert is still shown, so every alert was drawn before, and nothing has
/// changed.
pub open spec fn no_overlay(
    before: Seq<Alert>,
    after: Seq<Alert>,
    readings: Seq<Reading>,
    surface_before: Buffer,
    surface_after: Buffer,
) -> bool {
    &&& read_of(before, readings)
    &&& none_shown(readings)
    &&& after == before
    &&& surface_after == surface_before
    &&& forall|j: int| 0 <= j < before.len() ==> (#[trigger] before[j]).first_rendered() is Some
}

/// What drawing the overlay does: the clock is read for every alert, and the
/// first alert that is still shown is drawn on `area`; where none is,
/// nothing changes.
pub open spec fn overlay_drawn(
    before: Seq<Alert>,
    after: Seq<Alert>,
    area: Rect,
    surface_before: Buffer,
    surface_after: Buffer,
) -> bool {
    ||| exists|readings: Seq<Reading>| #[trigger]
        no_overlay(before, after, readings, surface_before, surface_after)
    ||| exists|index: int, readings: Seq<Reading>| #[trigger]
        overlay_of(before, after, index, readings, area, surface_before, surface_after)
}

/// What lies between the beginning and the end of a frame's drawing.
pub struct FrameSteps {
    /// The menu that was offered the event.
    pub offered: Menu,
    /// The alerts after the menu was offered the event.
    pub alerts: AlertManager,
    /// The surface after the page's style was painted on the whole area.
    pub painted: Buffer,
    /// The menu of the collection and the menu of the leaf with the focus,
    /// as the footer shows them.
    pub menu: Menu,
    pub leaf_menu: Option<Menu>,
    /// The parts for the page and for the footer, and the part for the page.
    pub layout: Seq<Rect>,
    pub content: Rect,
    /// The surface after the footer was drawn, and after the page was.
    pub footed: Buffer,
    pub paged: Buffer,
}

/// Whether a frame with these steps between is what the window shows.
///
/// The menu of the collection, which ends with what the leaf with the focus
/// offers, is offered the event; what its handlers do on a key is said
/// beside this, over the events that they are handed. The page's style is
/// painted on the whole area. The last row is kept for the footer, which
/// shows the hint and the labels of the menu on the side that has the focus.
/// The page is drawn on the rest, told who has the focus and the frame's
/// event. Above it the oldest alert that is still to be shown is drawn, if
/// the page left the surface sound.
pub open spec fn frame_with(
    steps: FrameSteps,
    event: Option<InputEvent>,
    pages: Seq<Page>,
    current: Page,
    current_after: Page,
    focused_element: Option<RenderId>,
    window_focused: bool,
    histories: Map<RenderId, Seq<InputEvent>>,
    alerts_before: AlertManager,
    alerts_after: AlertManager,
    area: Rect,
    surface_before: Buffer,
    surface_after: Buffer,
) -> bool {
    &&& match event {
        Some(ev) => collection_menu(pages, current, focused_element, steps.offered@) && (ev
            !is Key ==> steps.alerts == alerts_before),
        None => steps.alerts == alerts_before,
    }
    &&& steps.painted == painted(surface_before, area, current.style())
    &&& collection_menu(pages, current, focused_element, steps.menu@)
    &&& current.offers(focused_element, steps.leaf_menu)
    &&& pre_rendered_with(
        footer_texts(window_focused, Some(steps.menu), steps.leaf_menu, current.shortcut()),
        area,
        steps.layout,
        steps.content,
        steps.painted,
        steps.footed,
    )
    &&& drawn(
        current.root(),
        current_after.root(),
        (VRenderProps { focused_element, event }),
        histories,
        steps.content,
        steps.footed,
        steps.paged,
    )
    &&& if sound(steps.paged) {
        overlay_drawn(steps.alerts@, alerts_after@, steps.content, steps.paged, surface_after)
    } else {
        alerts_after == steps.alerts && surface_after == steps.paged
    }
}

/// Whether none of the pages behind the page at `index` and before `upto`
/// has the identity of that page.
pub open spec fn last_with_identity(pages: Seq<Page>, index: int, upto: int) -> bool {
    forall|later: int| index < later < upto ==> (#[trigger] pages[later]).id() != pages[index].id()
}

/// A context for each page, keyed by the page's identity.
fn contexts_for(app: &mut PageCollection) -> (contexts: HashMap<u128, PageContext>)
    ensures
        final(app).same_but_grown(*old(app)),
        forall|i: int|
            0 <= i < old(app).pages().len() && last_with_identity(
                old(app).pages(),
                i,
                old(app).pages().len() as int,
            ) ==> contexts@[(#[trigger] old(app).pages()[i]).id().value()].lists(
                focusable_ids(final(app).pages()[i].root_shape()),
            ),
        forall|i: int|
            0 <= i < old(app).pages().len() ==> contexts@.contains_key(
                (#[trigger] old(app).pages()[i]).id().value(),
            ),
        forall|k: u128| #[trigger]
            contexts@.contains_key(k) ==> contexts@[k].page_id().value() == k
                && contexts@[k].window_focused() && contexts@[k].focus_index() == 0
                && contexts@[k].histories() == Map::<RenderId, Seq<InputEvent>>::empty(),
{
    let mut contexts: HashMap<u128, PageContext> = HashMap::new();
    let mut i: usize = 0;
    proof {
        assert forall|j: int| 0 <= j < app.pages().len() implies (
        #[trigger] app.pages()[j]).same_but_grown(old(app).pages()[j]) by {
            crate::shape::lemma_grown_reflexive(app.pages()[j].root_shape());
        }
    }
    while i < app.len()
        invariant
            i <= app.pages().len(),
            app.same_but_grown(*old(app)),
            forall|j: int|
                0 <= j < i ==> contexts@.contains_key(
                    (#[trigger] old(app).pages()[j]).id().value(),
                ),
            forall|k: u128| #[trigger]
                contexts@.contains_key(k) ==> contexts@[k].page_id().value() == k
                    && contexts@[k].window_focused() && contexts@[k].focus_index() == 0
                    && contexts@[k].histories() == Map::<RenderId, Seq<InputEvent>>::empty(),
            forall|j: int|
                0 <= j < i && last_with_identity(old(app).pages(), j, i as int) ==> contexts@[(
                #[trigger] old(app).pages()[j]).id().value()].lists(
                    focusable_ids(app.pages()[j].root_shape()),
                ),
        decreases app.pages().len() - i,
    {
        let ghost before = *app;
        let ghost kept = contexts@;
        let page = app.page_mut(i);
        let context = PageContext::new(page);
        let key = page.get_page_id().as_u128();
        contexts.insert(key, context);
        proof {
            assert forall|j: int|
                0 <= j < i + 1 && last_with_identity(
                    old(app).pages(),
                    j,
                    i + 1,
                ) implies contexts@[(#[trigger] old(app).pages()[j]).id().value()].lists(
                focusable_ids(app.pages()[j].root_shape()),
            ) by {
                if j < i {
                    assert(old(app).pages()[i as int].id() != old(app).pages()[j].id());
                    crate::id::lemma_id_equal_by_value(
                        old(app).pages()[i as int].id(),
                        old(app).pages()[j].id(),
                    );
                    assert(before.pages()[j].same_but_grown(old(app).pages()[j]));
                    assert(before.pages()[i as int].same_but_grown(old(app).pages()[i as int]));
                    assert(last_with_identity(old(app).pages(), j, i as int));
                    assert(app.pages()[j] == before.pages()[j]);
                } else {
                    assert(before.pages()[i as int].same_but_grown(old(app).pages()[i as int]));
                }
            }
            assert forall|j: int| 0 <= j < app.pages().len() implies (
            #[trigger] app.pages()[j]).same_but_grown(old(app).pages()[j]) by {
                if j != i {
                    assert(app.pages()[j] == before.pages()[j]);
                } else {
                    crate::shape::lemma_grown_transitive(
                        old(app).pages()[j].root_shape(),
                        before.pages()[j].root_shape(),
                        app.pages()[j].root_shape(),
                    );
                }
            }
        }
        i += 1;
    }
    contexts
}

impl Window {
    /// The identity of the window.
    pub closed spec fn id(self) -> RenderId {
        self.id
    }

    /// Whether the end condition has said that the application is over.
    pub closed spec fn ended(self) -> bool {
        self.is_ended
    }

    /// What is kept per page, by the value of the page's identity.
    pub closed spec fn contexts(self) -> Map<u128, PageContext> {
        self.page_context_map.contents()
    }

    /// The key of what is kept for the page that is shown.
    pub closed spec fn current_key(self) -> u128 {
        self.page_context_map.current()
    }

    /// Whether the window's end condition may give `answer` on the event.
    pub closed spec fn end_allows(self, ev: InputEvent, answer: bool) -> bool {
        self.end_condition.allows(ev, answer)
    }

    /// The alerts that were scheduled, oldest first.
    pub closed spec fn alerts(self) -> AlertManager {
        self.alerts
    }

    /// What is kept for the page that is shown, if anything is.
    pub open spec fn active(self) -> Option<PageContext> {
        if self.contexts().contains_key(self.current_key()) {
            Some(self.contexts()[self.current_key()])
        } else {
            None
        }
    }

    /// Whether the window itself has the focus, and not a leaf of the page.
    pub open spec fn window_focused(self) -> bool {
        match self.active() {
            Some(context) => context.window_focused(),
            None => false,
        }
    }

    /// Whether the window keeps something for every page of the collection,
    /// under the page's identity, and has the page that is shown selected.
    pub open spec fn attached(self, app: PageCollection) -> bool {
        &&& app.well_formed()
        &&& self.current_key() == app.current().id().value()
        &&& forall|i: int|
            0 <= i < app.pages().len() ==> self.keeps_for(#[trigger] app.pages()[i])
    }

    /// Whether the window keeps something for the page, under the page's
    /// identity, that was built for that page and whose focus list begins
    /// with the window.
    pub open spec fn keeps_for(self, page: Page) -> bool {
        &&& self.contexts().contains_key(page.id().value())
        &&& self.contexts()[page.id().value()].page_id() == page.id()
        &&& self.contexts()[page.id().value()].headed()
    }

    /// Whether the window keeps something for every page of the collection
    /// and has the page that is shown selected.
    pub fn is_attached(&self, app: &PageCollection) -> (attached: bool)
        ensures
            attached == self.attached(*app),
    {
        if app.get_current_index() >= app.len() {
            return false;
        }
        if self.page_context_map.current_key() != app.get_current_page().get_page_id().as_u128() {
            return false;
        }
        let mut i: usize = 0;
        while i < app.len()
            invariant
                i <= app.pages().len(),
                forall|j: int| 0 <= j < i ==> self.keeps_for(#[trigger] app.pages()[j]),
            decreases app.pages().len() - i,
        {
            let page_id = *app.page(i).get_page_id();
            match self.page_context_map.get(&page_id.as_u128()) {
                Some(context) => {
                    if context.get_page_id() != page_id || !context.is_headed() {
                        assert(!self.keeps_for(app.pages()[i as int]));
                        return false;
                    }
                },
                None => {
                    assert(!self.keeps_for(app.pages()[i as int]));
                    return false;
                },
            }
            i += 1;
        }
        true
    }

    /// A window for the pages, with the focus on the window itself on every
    /// page, no events recorded and no alerts.
    pub fn new<F: Fn(&InputEvent) -> bool + 'static>(app: &mut PageCollection, end_condition: F) -> (window:
        Self)
        requires
            old(app).well_formed(),
            forall|ev: &InputEvent| call_requires(end_condition, (ev,)),
        ensures
            final(app).same_but_grown(*old(app)),
            window.attached(*final(app)),
            !window.ended(),
            window.window_focused(),
            window.alerts()@ == Seq::<Alert>::empty(),
            forall|ev: InputEvent, answer: bool|
                window.end_allows(ev, answer) == call_ensures(end_condition, (&ev,), answer),
            forall|k: u128| #[trigger]
                window.contexts().contains_key(k) ==> window.contexts()[k].focus_index() == 0
                    && window.contexts()[k].window_focused() && window.contexts()[k].histories()
                    == Map::<RenderId, Seq<InputEvent>>::empty(),
            forall|i: int|
                0 <= i < final(app).pages().len() && last_with_identity(
                    final(app).pages(),
                    i,
                    final(app).pages().len() as int,
                ) ==> window.contexts()[(#[trigger] final(app).pages()[i]).id().value()].lists(
                    focusable_ids(final(app).pages()[i].root_shape()),
                ),
    {
        let window_id = RenderId::new();
        let contexts = contexts_for(app);
        let current = app.get_current_page().get_page_id().as_u128();
        proof {
            assert forall|i: int|
                0 <= i < app.pages().len() && last_with_identity(
                    app.pages(),
                    i,
                    app.pages().len() as int,
                ) implies contexts@[(#[trigger] app.pages()[i]).id().value()].lists(
                focusable_ids(app.pages()[i].root_shape()),
            ) by {
                assert forall|later: int| i < later < app.pages().len() implies (
                #[trigger] old(app).pages()[later]).id() != old(app).pages()[i].id() by {
                    assert(app.pages()[later].same_but_grown(old(app).pages()[later]));
                    assert(app.pages()[i].same_but_grown(old(app).pages()[i]));
                    assert(app.pages()[later].id() != app.pages()[i].id());
                }
                assert(app.pages()[i].same_but_grown(old(app).pages()[i]));
                assert(last_with_identity(old(app).pages(), i, old(app).pages().len() as int));
            }
            assert forall|i: int| 0 <= i < app.pages().len() implies contexts@.contains_key(
                (#[trigger] app.pages()[i]).id().value(),
            ) && contexts@[app.pages()[i].id().value()].page_id() == app.pages()[i].id() by {
                let page = app.pages()[i];
                assert(page.same_but_grown(old(app).pages()[i]));
                assert(contexts@.contains_key(old(app).pages()[i].id().value()));
                crate::id::lemma_id_equal_by_value(
                    contexts@[page.id().value()].page_id(),
                    page.id(),
                );
            }
        }
        Self::assemble(window_id, end_condition, SelectableHashMap::new(current, contexts))
    }

    /// A window that has not ended and has no alerts.
    fn assemble<F: Fn(&InputEvent) -> bool + 'static>(
        id: RenderId,
        end_condition: F,
        page_context_map: SelectableHashMap<u128, PageContext>,
    ) -> (window: Self)
        requires
            forall|ev: &InputEvent| call_requires(end_condition, (ev,)),
        ensures
            window.id() == id,
            !window.ended(),
            window.alerts()@ == Seq::<Alert>::empty(),
            window.contexts() == page_context_map.contents(),
            window.current_key() == page_context_map.current(),
            forall|ev: InputEvent, answer: bool|
                window.end_allows(ev, answer) == call_ensures(end_condition, (&ev,), answer),
    {
        let plain = ClosureEnd::new(end_condition);
        assert(forall|ev: InputEvent, answer: bool| #[trigger]
            plain.allows(ev, answer) == call_ensures(end_condition, (&ev,), answer));
        let window = Self {
            id,
            end_condition: Box::new(plain),
            is_ended: false,
            page_context_map,
            alerts: AlertManager::default(),
        };
        assert(forall|ev: InputEvent, answer: bool| #[trigger]
            window.end_condition.allows(ev, answer) == plain.allows(ev, answer));
        window
    }

    pub fn is_window_focused(&self) -> (focused: bool)
        ensures
            focused == self.window_focused(),
    {
        match self.page_context_map.get_current() {
            Some(context) => context.is_window_focused(),
            None => false,
        }
    }

    /// The same window before and after, but for what is kept for the page
    /// that is shown.
    pub open spec fn same_but_active(self, before: Window) -> bool {
        &&& self.id() == before.id()
        &&& self.current_key() == before.current_key()
        &&& self.contexts().dom() == before.contexts().dom()
        &&& forall|k: u128|
            k != before.current_key() && #[trigger] before.contexts().contains_key(k)
                ==> self.contexts()[k] == before.contexts()[k]
    }

    /// Selects what is kept for the page that is shown now, and has it built
    /// anew if it was built for another page.
    pub fn on_page_change(&mut self, page: &mut PageCollection)
        requires
            old(page).well_formed(),
            old(self).keeps_for(old(page).current()),
        ensures
            final(page).pages() == old(page).pages(),
            final(page).current_index() == old(page).current_index(),
            final(page).previous_index() == old(page).previous_index(),
            final(self).id() == old(self).id(),
            final(self).ended() == old(self).ended(),
            forall|e: InputEvent, answer: bool|
                final(self).end_allows(e, answer) == old(self).end_allows(e, answer),
            final(self).alerts() == old(self).alerts(),
            final(self).contexts() == old(self).contexts(),
            final(self).current_key() == old(page).current().id().value(),
    {
        let new_page = page.get_current_page_mut();
        let key = new_page.get_page_id().as_u128();
        if let Some(new_context) = self.page_context_map.get_mut(&key) {
            new_context.reconcile(new_page);
        }
        self.page_context_map.set_current(key);
        assert(self.contexts() =~= old(self).contexts());
        assert(page.pages() =~= old(page).pages());
    }

    /// The window's own handling of an event. While the window has the
    /// focus, the end condition is asked first; a key then switches to the
    /// page with that shortcut, if there is one. The focus events move the
    /// focus of the page that is shown, whoever has it; a click does nothing.
    pub fn handle_window_event(&mut self, ev: &InputEvent, pages: &mut PageCollection) -> (result:
        WindowEventResult)
        ensures
            final(self).same_but_active(*old(self)),
            final(self).alerts() == old(self).alerts(),
            !old(self).window_focused() ==> final(self).ended() == old(self).ended(),
            old(self).window_focused() ==> old(self).end_allows(*ev, final(self).ended()),
            forall|e: InputEvent, answer: bool|
                final(self).end_allows(e, answer) == old(self).end_allows(e, answer),
            final(pages).pages() == old(pages).pages(),
            old(pages).well_formed() ==> final(pages).well_formed(),
            match old(self).active() {
                Some(context) => final(self).active() matches Some(after) && refocused(
                    context,
                    after,
                    focus_after(*ev, context.focus_index(), context.focus_list().len()),
                ),
                None => final(self).active() is None,
            },
            *ev is FocusWindow ==> (old(self).active() matches Some(context) && context.headed()
                ==> final(self).window_focused()),
            (result == WindowEventResult::PageChange) == switches_page(
                *ev,
                old(self).window_focused(),
                old(pages).pages(),
            ),
            match result {
                WindowEventResult::PageChange => *ev matches InputEvent::Key(c)
                    && is_first_with_shortcut(
                    old(pages).pages(),
                    c,
                    final(pages).current_index() as int,
                ) && final(pages).previous_index() == Some(old(pages).current_index()),
                WindowEventResult::Unchanged => final(pages).current_index() == old(pages).current_index() && final(pages).previous_index() == old(pages).previous_index(),
            },
    {
        if self.is_window_focused() {
            self.is_ended = self.end_condition.is_end(ev);
        }
        match ev {
            InputEvent::Key(c) => {
                if self.is_window_focused() && pages.try_change_page(*c) {
                    assert(self.contexts().dom() =~= old(self).contexts().dom());
                    return WindowEventResult::PageChange;
                }
            },
            InputEvent::FocusNext => {
                if let Some(p) = self.page_context_map.get_current_mut() {
                    p.focus_next()
                }
            },
            InputEvent::FocusWindow => {
                if let Some(p) = self.page_context_map.get_current_mut() {
                    p.reset_focus()
                }
            },
            InputEvent::FocusPrevious => {
                if let Some(p) = self.page_context_map.get_current_mut() {
                    p.focus_prev()
                }
            },
            InputEvent::Click(_) => {},
        };
        assert(self.contexts().dom() =~= old(self).contexts().dom());
        WindowEventResult::Unchanged
    }

    /// The menu of the leaf that has the focus, if a leaf of the page has it
    /// and offers one.
    pub fn get_active_element_menu(focused_element: &Option<RenderId>, current_page: &Page) -> (menu:
        Option<Menu>)
        ensures
            match *focused_element {
                Some(id) => (!crate::shape::leaf_ids(current_page.root_shape()).contains(id)
                    ==> menu is None) && (menu is Some ==> exists|at: int| #[trigger]
                    crate::component::asked_at(current_page.root_leaves(), at, id, menu)),
                None => menu is None,
            },
    {
        current_page.get_active_element_menu(focused_element)
    }

    /// Draws the oldest alert that is still to be shown, if there is one,
    /// above what is on `area`.
    fn draw_overlays(&mut self, buf: &mut Buffer, area: Rect)
        requires
            sound(*old(buf)),
        ensures
            forall|e: InputEvent, answer: bool|
                final(self).end_allows(e, answer) == old(self).end_allows(e, answer),
            overlay_drawn(
                old(self).alerts()@,
                final(self).alerts()@,
                area,
                *old(buf),
                *final(buf),
            ),
            final(self).id() == old(self).id(),
            final(self).ended() == old(self).ended(),
            final(self).contexts() == old(self).contexts(),
            final(self).current_key() == old(self).current_key(),
    {
        let found = self.alerts.first_visible();
        if let Some(alert) = found {
            let ghost shown = *alert;
            alert.render(area, buf);
            proof {
                let (index, readings) = choose|i: int, readings: Seq<Reading>| #[trigger]
                    first_shown_at(readings, i) && read_of(old(self).alerts@, readings) && shown
                        == old(self).alerts@[i] && self.alerts@ == old(self).alerts@.update(
                        i,
                        *alert,
                    );
                assert forall|j: int| 0 <= j < index implies (
                #[trigger] old(self).alerts@[j]).first_rendered() is Some by {
                    assert(!crate::windows::alerts::reading_shown(readings[j]));
                }
                assert(overlay_of(
                    old(self).alerts@,
                    self.alerts@,
                    index,
                    readings,
                    area,
                    *old(buf),
                    *buf,
                ));
            }
        } else {
            proof {
                let readings = choose|readings: Seq<Reading>| #[trigger]
                    none_shown(readings) && read_of(old(self).alerts@, readings);
                assert(no_overlay(old(self).alerts@, self.alerts@, readings, *old(buf), *buf));
            }
        }
    }

    /// One frame. The event, if there is one, is first handled by the window
    /// itself: the end condition is asked while the window has the focus, a
    /// key that is a page's shortcut switches pages, the focus events move
    /// the focus. Then the event is recorded for whoever has the focus now,
    /// the menu of the page and of the leaf that has the focus is offered the
    /// event, the footer is drawn on the last row of `area`, the page on the
    /// rest, and the oldest alert that is still to be shown above it.
    pub fn render(
        &mut self,
        event: Option<InputEvent>,
        app: &mut PageCollection,
        buff: &mut Buffer,
        area: Rect,
    )
        requires
            old(self).attached(*old(app)),
            sound(*old(buff)),
        ensures
            final(self).attached(*final(app)),
            final(self).id() == old(self).id(),
            final(app).pages_grown(*old(app)),
            shown_after(event, old(self).window_focused(), *old(app), *final(app)),
            event is None || !old(self).window_focused() ==> final(self).ended() == old(self).ended(),
            old(self).window_focused() ==> (event matches Some(ev) ==> old(self).end_allows(
                ev,
                final(self).ended(),
            )),
            forall|e: InputEvent, answer: bool|
                final(self).end_allows(e, answer) == old(self).end_allows(e, answer),
            event == Some(InputEvent::FocusWindow) ==> final(self).window_focused(),
            final(self).contexts().dom() == old(self).contexts().dom(),
            forall|k: u128|
                k != final(self).current_key() && k != old(self).current_key()
                    && #[trigger] old(self).contexts().contains_key(k) ==> final(self).contexts()[k] == old(self).contexts()[k],
            frame_recorded(
                old(self).contexts()[final(self).current_key()],
                final(self).contexts()[final(self).current_key()],
                old(self).id(),
                event,
            ),
            exists|steps: FrameSteps| #[trigger]
                frame_with(
                    steps,
                    event,
                    old(app).pages(),
                    old(app).pages()[final(app).current_index() as int],
                    final(app).current(),
                    final(self).contexts()[final(self).current_key()].focused(),
                    final(self).window_focused(),
                    final(self).contexts()[final(self).current_key()].histories(),
                    old(self).alerts(),
                    final(self).alerts(),
                    area,
                    *old(buff),
                    *final(buff),
                ) && (event matches Some(InputEvent::Key(key)) ==> exists|events: Seq<MenuEvent>| #[trigger]
                    dealt(steps.offered@, key, steps.offered@.len(), events) && (forall|k: int|
                        0 <= k < events.len() ==> mut_ref_current((#[trigger] events[k]).alerts)
                            == if k == 0 {
                            old(self).alerts()
                        } else {
                            mut_ref_future(events[k - 1].alerts)
                        }) && steps.alerts == if events.len() == 0 {
                        old(self).alerts()
                    } else {
                        mut_ref_future(events.last().alerts)
                    }),
    {
        let id = self.id;
        if let Some(ev) = &event {
            match self.handle_window_event(ev, app) {
                WindowEventResult::PageChange => self.on_page_change(app),
                WindowEventResult::Unchanged => {},
            }
        }
        proof {
            app.lemma_pages_grown_reflexive(*old(app));
        }
        let focused_element = match self.page_context_map.get_current_mut() {
            Some(context) => context.record_event(id, &event),
            None => None,
        };
        let ghost current = app.current();
        let ghost window_focused = self.window_focused();
        let ghost histories = self.contexts()[self.current_key()].histories();
        let ghost mut offered: Menu = arbitrary();
        if let Some(ev) = &event {
            if let Some(mut menu) = app.get_menu(&focused_element) {
                proof {
                    offered = menu;
                }
                menu.handle_event(&mut self.alerts, ev)
            }
        }
        let ghost alerts_offered = self.alerts;
        paint(buff, area, app.get_current_page().get_style());
        let ghost painted_surface = *buff;
        let menu = app.get_menu(&focused_element);
        let leaf_menu = Self::get_active_element_menu(&focused_element, app.get_current_page());
        let ghost footer_menu = menu->0;
        let ghost footer_leaf_menu = leaf_menu;
        let items = WindowRenderer::footer_items(
            self.is_window_focused(),
            menu,
            leaf_menu,
            app.get_current_page().get_shortcut(),
        );
        let content = WindowRenderer::pre_render(&items, buff, area);
        let ghost layout = choose|layout: Seq<Rect>| #[trigger]
            pre_rendered_with(texts(items@), area, layout, content, painted_surface, *buff);
        let ghost footed = *buff;
        let props = VRenderProps { focused_element, event };
        let ghost before = *app;
        if let Some(context) = self.page_context_map.get_current_mut() {
            app.render(&props, context.events_mut(), buff, content);
        }
        let ghost paged = *buff;
        proof {
            app.lemma_grown_at_has_grown(before, before.current_index() as int);
            app.lemma_pages_grown_transitive(before, *old(app));
        }
        if is_sound(buff) {
            self.draw_overlays(buff, content);
        }
        proof {
            let steps = FrameSteps {
                offered,
                alerts: alerts_offered,
                painted: painted_surface,
                menu: footer_menu,
                leaf_menu: footer_leaf_menu,
                layout,
                content,
                footed,
                paged,
            };
            assert(frame_with(
                steps,
                event,
                old(app).pages(),
                old(app).pages()[app.current_index() as int],
                app.current(),
                self.contexts()[self.current_key()].focused(),
                self.window_focused(),
                self.contexts()[self.current_key()].histories(),
                old(self).alerts(),
                self.alerts(),
                area,
                *old(buff),
                *buff,
            ));
            assert(steps.offered == offered && steps.alerts == alerts_offered);
        }
    }

    /// What is kept for the page that is shown, if anything is.
    pub fn get_active_context(&self) -> (context: Option<&PageContext>)
        ensures
            context == match self.active() {
                Some(c) => Some(&c),
                None => None,
            },
    {
        self.page_context_map.get_current()
    }

    /// The alerts that were scheduled, oldest first.
    pub fn get_alerts(&mut self) -> (alerts: &mut AlertManager)
        ensures
            *alerts == old(self).alerts(),
            final(self).alerts() == *final(alerts),
            forall|e: InputEvent, answer: bool|
                final(self).end_allows(e, answer) == old(self).end_allows(e, answer),
            final(self).id() == old(self).id(),
            final(self).ended() == old(self).ended(),
            final(self).contexts() == old(self).contexts(),
            final(self).current_key() == old(self).current_key(),
    {
        &mut self.alerts
    }

    pub fn is_finished(&self) -> (finished: bool)
        ensures
            finished == self.ended(),
    {
        self.is_ended
    }
}

} // verus!
