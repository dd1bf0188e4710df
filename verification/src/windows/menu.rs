//! Menus: entries with a shortcut, a name and something to do.

use super::alerts::AlertManager;
use crate::component::InputEvent;
use std::rc::Rc;
use vstd::prelude::*;
use vstd::std_specs::convert::IntoSpec;

verus! {

/// What a menu entry's handler is given to work on.
pub struct MenuEvent<'a> {
    pub alerts: &'a mut AlertManager,
}

/// What a menu entry does when its shortcut is pressed.
pub trait MenuHandler {
    /// Whether the handler may deal so with the event: with the alerts that
    /// the event hands over, as they are and as they will be left.
    open spec fn deals_with(&self, event: MenuEvent) -> bool {
        true
    }

    fn handle(&self, event: MenuEvent)
        ensures
            self.deals_with(event),
    ;
}

/// A closure in the place of a handler.
struct ClosureHandler<F: Fn(MenuEvent)> {
    run: F,
}

impl<F: Fn(MenuEvent)> ClosureHandler<F> {
    #[verifier::type_invariant]
    spec fn takes_every_event(self) -> bool {
        forall|event: MenuEvent| call_requires(self.run, (event,))
    }

    /// Wraps a closure that can be called on every event.
    fn new(run: F) -> (handler: Self)
        requires
            forall|event: MenuEvent| call_requires(run, (event,)),
        ensures
            handler.run == run,
    {
        ClosureHandler { run }
    }
}

impl<F: Fn(MenuEvent)> MenuHandler for ClosureHandler<F> {
    /// What the closure may do with the event.
    closed spec fn deals_with(&self, event: MenuEvent) -> bool {
        call_ensures(self.run, (event,), ())
    }

    fn handle(&self, event: MenuEvent) {
        proof {
            use_type_invariant(self);
        }
        (self.run)(event);
    }
}

pub type MenuItemEventHandler = Box<dyn MenuHandler>;

/// Calls `Clone::clone` of `std::rc::Rc`: one more pointer to the same
/// handler.
#[verifier::external_body]
fn share(handler: &Rc<MenuItemEventHandler>) -> (shared: Rc<MenuItemEventHandler>)
    ensures
        shared == *handler,
{
    Rc::clone(handler)
}

pub struct MenuItem {
    pub(crate) shortcut: char,
    pub(crate) display_name: String,
    pub(crate) handler: Rc<MenuItemEventHandler>,
}

impl MenuItem {
    /// An entry that runs the closure when its shortcut is pressed.
    pub fn new<F: Fn(MenuEvent) + 'static>(shortcut: char, display_name: String, run: F) -> (item:
        Self)
        requires
            forall|event: MenuEvent| call_requires(run, (event,)),
        ensures
            item.shortcut() == shortcut,
            item.display_name() == display_name@,
            forall|event: MenuEvent| #[trigger] item.deals(event) == call_ensures(run, (event,), ()),
    {
        let plain = ClosureHandler::new(run);
        assert(forall|event: MenuEvent| #[trigger]
            plain.deals_with(event) == call_ensures(run, (event,), ()));
        let item = MenuItem { shortcut, display_name, handler: Rc::new(Box::new(plain)) };
        assert(forall|event: MenuEvent| #[trigger]
            item.handler.deals_with(event) == plain.deals_with(event));
        item
    }

    /// The key that chooses the entry.
    pub closed spec fn shortcut(self) -> char {
        self.shortcut
    }

    /// The name that the entry shows.
    pub closed spec fn display_name(self) -> Seq<char> {
        self.display_name@
    }

    /// Whether the entry's handler may deal so with the event.
    pub closed spec fn deals(self, event: MenuEvent) -> bool {
        self.handler.deals_with(event)
    }

}

impl MenuItem {
    /// The key that chooses the entry.
    pub fn get_shortcut(&self) -> (shortcut: char)
        ensures
            shortcut == self.shortcut(),
    {
        self.shortcut
    }

    /// The name that the entry shows.
    pub fn get_display_name(&self) -> (name: &String)
        ensures
            name@ == self.display_name(),
    {
        &self.display_name
    }
}

impl Clone for MenuItem {
    fn clone(&self) -> (copy: Self)
        ensures
            copy == *self,
    {
        let display_name = self.display_name.clone();
        MenuItem { shortcut: self.shortcut, display_name, handler: share(&self.handler) }
    }
}

/// Entries in their order. Menus are put together by appending one to
/// another.
pub struct Menu {
    pub(crate) menu_content: Vec<MenuItem>,
}

impl View for Menu {
    type V = Seq<MenuItem>;

    closed spec fn view(&self) -> Seq<MenuItem> {
        self.menu_content@
    }
}

impl Default for Menu {
    fn default() -> (menu: Self)
        ensures
            menu@ == Seq::<MenuItem>::empty(),
    {
        Menu { menu_content: Vec::new() }
    }
}

impl Clone for Menu {
    fn clone(&self) -> (copy: Self)
        ensures
            copy@ == self@,
    {
        let mut menu_content: Vec<MenuItem> = Vec::new();
        let mut i: usize = 0;
        while i < self.menu_content.len()
            invariant
                i <= self.menu_content.len(),
                menu_content@ == self.menu_content@.take(i as int),
            decreases self.menu_content.len() - i,
        {
            menu_content.push(self.menu_content[i].clone());
            assert(self.menu_content@.take(i + 1) =~= self.menu_content@.take(i as int).push(
                self.menu_content@[i as int],
            ));
            i += 1;
        }
        assert(self.menu_content@.take(i as int) =~= self.menu_content@);
        Menu { menu_content }
    }
}

/// The entries of the first `count` menus, one menu after the other.
pub open spec fn joined(menus: Seq<Menu>, count: nat) -> Seq<MenuItem>
    decreases count,
{
    if count == 0 || count > menus.len() {
        Seq::empty()
    } else {
        joined(menus, (count - 1) as nat) + menus[count - 1]@
    }
}

impl From<Vec<Menu>> for Menu {
    /// One menu of the entries of all the menus, in their order.
    fn from(value: Vec<Menu>) -> (menu: Self)
        ensures
            menu@ == joined(value@, value@.len()),
    {
        let mut menu = Menu::default();
        let mut i: usize = 0;
        while i < value.len()
            invariant
                i <= value.len(),
                menu@ == joined(value@, i as nat),
            decreases value.len() - i,
        {
            menu.append(value[i].clone());
            i += 1;
        }
        menu
    }
}

impl vstd::std_specs::convert::FromSpecImpl<Vec<Menu>> for Menu {
    open spec fn obeys_from_spec() -> bool {
        false
    }

    open spec fn from_spec(v: Vec<Menu>) -> Self {
        arbitrary()
    }
}

/// Whether some entry of the menu has the shortcut.
pub open spec fn has_shortcut(items: Seq<MenuItem>, key: char) -> bool {
    exists|i: int| 0 <= i < items.len() && (#[trigger] items[i]).shortcut() == key
}

/// Whether `events` are the events that the handlers of those of the first
/// `count` entries that have the shortcut `key` dealt with, one event for
/// each such entry, in the order of the entries.
pub open spec fn dealt(items: Seq<MenuItem>, key: char, count: nat, events: Seq<MenuEvent>) -> bool
    decreases count,
{
    if count == 0 || count > items.len() {
        events.len() == 0
    } else if items[count - 1].shortcut() == key {
        events.len() > 0 && items[count - 1].deals(events.last()) && dealt(
            items,
            key,
            (count - 1) as nat,
            events.drop_last(),
        )
    } else {
        dealt(items, key, (count - 1) as nat, events)
    }
}

/// Where no entry has the shortcut, no handler deals with an event.
pub proof fn lemma_no_shortcut_no_events(
    items: Seq<MenuItem>,
    key: char,
    count: nat,
    events: Seq<MenuEvent>,
)
    requires
        count <= items.len(),
        !has_shortcut(items, key),
        dealt(items, key, count, events),
    ensures
        events.len() == 0,
    decreases count,
{
    if count > 0 {
        assert(items[count - 1].shortcut() != key);
        lemma_no_shortcut_no_events(items, key, (count - 1) as nat, events);
    }
}

impl Menu {
    /// A menu of one entry for each triple of shortcut, name and handler, in
    /// the order of the triples.
    pub fn from_entries<T: Into<String>, F: Fn(MenuEvent) + 'static>(entries: Vec<(char, T, F)>) -> (menu:
        Self)
        requires
            forall|i: int, event: MenuEvent|
                0 <= i < entries@.len() ==> #[trigger] call_requires(entries@[i].2, (event,)),
        ensures
            menu@.len() == entries@.len(),
            forall|i: int|
                0 <= i < entries@.len() ==> (#[trigger] menu@[i]).shortcut() == entries@[i].0,
            T::obeys_into_spec() ==> forall|i: int|
                0 <= i < entries@.len() ==> (#[trigger] menu@[i]).display_name()
                    == entries@[i].1.into_spec()@,
            forall|i: int, event: MenuEvent|
                0 <= i < entries@.len() ==> #[trigger] menu@[i].deals(event) == call_ensures(
                    entries@[i].2,
                    (event,),
                    (),
                ),
    {
        let mut entries = entries;
        let mut menu_content: Vec<MenuItem> = Vec::new();
        let ghost all = entries@;
        while entries.len() > 0
            invariant
                menu_content@.len() <= all.len(),
                entries@ == all.skip(menu_content@.len() as int),
                forall|i: int, event: MenuEvent|
                    0 <= i < all.len() ==> #[trigger] call_requires(all[i].2, (event,)),
                forall|i: int|
                    0 <= i < menu_content@.len() ==> (#[trigger] menu_content@[i]).shortcut()
                        == all[i].0,
                T::obeys_into_spec() ==> forall|i: int|
                    0 <= i < menu_content@.len() ==> (#[trigger] menu_content@[i]).display_name()
                        == all[i].1.into_spec()@,
                forall|i: int, event: MenuEvent|
                    0 <= i < menu_content@.len() ==> #[trigger] menu_content@[i].deals(event)
                        == call_ensures(all[i].2, (event,), ()),
            decreases entries.len(),
        {
            let ghost done = menu_content@.len() as int;
            let (shortcut, description, handler) = entries.remove(0);
            assert(all.skip(done)[0] == all[done]);
            assert(entries@ =~= all.skip(done + 1));
            assert forall|event: MenuEvent| call_requires(handler, (event,)) by {
                assert(call_requires(all[done].2, (event,)));
            }
            let display_name: String = description.into();
            menu_content.push(MenuItem::new(shortcut, display_name, handler));
        }
        Menu { menu_content }
    }

    /// A menu of one entry for each triple of shortcut, name and handler, in
    /// the order of the triples, with the names as given.
    pub fn from_named_entries<F: Fn(MenuEvent) + 'static>(entries: Vec<(char, String, F)>) -> (menu:
        Self)
        requires
            forall|i: int, event: MenuEvent|
                0 <= i < entries@.len() ==> #[trigger] call_requires(entries@[i].2, (event,)),
        ensures
            menu@.len() == entries@.len(),
            forall|i: int|
                0 <= i < entries@.len() ==> (#[trigger] menu@[i]).shortcut() == entries@[i].0
                    && menu@[i].display_name() == entries@[i].1@,
            forall|i: int, event: MenuEvent|
                0 <= i < entries@.len() ==> #[trigger] menu@[i].deals(event) == call_ensures(
                    entries@[i].2,
                    (event,),
                    (),
                ),
    {
        let mut entries = entries;
        let mut menu_content: Vec<MenuItem> = Vec::new();
        let ghost all = entries@;
        while entries.len() > 0
            invariant
                menu_content@.len() <= all.len(),
                entries@ == all.skip(menu_content@.len() as int),
                forall|i: int, event: MenuEvent|
                    0 <= i < all.len() ==> #[trigger] call_requires(all[i].2, (event,)),
                forall|i: int|
                    0 <= i < menu_content@.len() ==> (#[trigger] menu_content@[i]).shortcut()
                        == all[i].0 && menu_content@[i].display_name() == all[i].1@,
                forall|i: int, event: MenuEvent|
                    0 <= i < menu_content@.len() ==> #[trigger] menu_content@[i].deals(event)
                        == call_ensures(all[i].2, (event,), ()),
            decreases entries.len(),
        {
            let ghost done = menu_content@.len() as int;
            let (shortcut, display_name, handler) = entries.remove(0);
            assert(all.skip(done)[0] == all[done]);
            assert(entries@ =~= all.skip(done + 1));
            assert forall|event: MenuEvent| call_requires(handler, (event,)) by {
                assert(call_requires(all[done].2, (event,)));
            }
            menu_content.push(MenuItem::new(shortcut, display_name, handler));
        }
        Menu { menu_content }
    }

    /// The number of entries.
    pub fn len(&self) -> (len: usize)
        ensures
            len == self@.len(),
    {
        self.menu_content.len()
    }

    /// The entry at the position.
    pub fn item(&self, index: usize) -> (item: &MenuItem)
        requires
            index < self@.len(),
        ensures
            *item == self@[index as int],
    {
        &self.menu_content[index]
    }

    /// Puts one more entry behind this menu's own.
    pub fn push(&mut self, item: MenuItem)
        ensures
            final(self)@ == old(self)@.push(item),
    {
        self.menu_content.push(item);
    }

    /// Puts the entries of `other` behind this menu's own.
    pub fn append(&mut self, other: Self)
        ensures
            final(self)@ == old(self)@ + other@,
    {
        let mut other = other;
        self.menu_content.append(&mut other.menu_content);
    }

    /// Runs the handler of every entry whose shortcut is the key of the
    /// event, in the order of the entries: each is handed an event that
    /// carries the alerts as the handler before it left them, and the alerts
    /// end as the last handler leaves them. Any other event, or a key that no
    /// entry has, changes nothing.
    pub fn handle_event(&mut self, alert_manager: &mut AlertManager, event: &InputEvent)
        ensures
            final(self)@ == old(self)@,
            !(*event matches InputEvent::Key(key) && has_shortcut(old(self)@, key)) ==> *final(alert_manager) == *old(alert_manager),
            *event matches InputEvent::Key(key) ==> exists|events: Seq<MenuEvent>| #[trigger]
                dealt(old(self)@, key, old(self)@.len(), events) && (forall|k: int|
                    0 <= k < events.len() ==> mut_ref_current((#[trigger] events[k]).alerts) == if k
                        == 0 {
                        *old(alert_manager)
                    } else {
                        mut_ref_future(events[k - 1].alerts)
                    }) && *final(alert_manager) == if events.len() == 0 {
                    *old(alert_manager)
                } else {
                    mut_ref_future(events.last().alerts)
                },
    {
        if let InputEvent::Key(key) = event {
            let mut i: usize = 0;
            let ghost mut events: Seq<MenuEvent> = Seq::empty();
            while i < self.menu_content.len()
                invariant
                    i <= self.menu_content.len(),
                    self@ == old(self)@,
                    dealt(old(self)@, *key, i as nat, events),
                    forall|k: int|
                        0 <= k < events.len() ==> mut_ref_current((#[trigger] events[k]).alerts)
                            == if k == 0 {
                            *old(alert_manager)
                        } else {
                            mut_ref_future(events[k - 1].alerts)
                        },
                    *alert_manager == if events.len() == 0 {
                        *old(alert_manager)
                    } else {
                        mut_ref_future(events.last().alerts)
                    },
                decreases self.menu_content.len() - i,
            {
                if self.menu_content[i].shortcut == *key {
                    let handed = MenuEvent { alerts: alert_manager };
                    let ghost seen = handed;
                    self.menu_content[i].handler.handle(handed);
                    proof {
                        let earlier = events;
                        events = events.push(seen);
                        assert(events.drop_last() =~= earlier);
                        assert(self@[i as int].deals(seen));
                    }
                }
                i += 1;
            }
            proof {
                if !has_shortcut(old(self)@, *key) {
                    lemma_no_shortcut_no_events(old(self)@, *key, old(self)@.len(), events);
                }
            }
        }
    }
}

} // verus!
