//! The pages of a window, and which of them is shown.

use super::menu::{Menu, MenuEvent, MenuItem};
use super::page::Page;
use crate::component::{ComponentBuffer, RenderFlow, VRenderProps};
use crate::geometry::Rect;
use crate::id::RenderId;
use crate::shape::focusable_ids;
use ratatui::buffer::Buffer;
use vstd::prelude::*;

verus! {

/// Whether `index` is the position of the first page with the shortcut.
pub open spec fn is_first_with_shortcut(pages: Seq<Page>, shortcut: char, index: int) -> bool {
    &&& 0 <= index < pages.len()
    &&& pages[index].shortcut() == shortcut
    &&& forall|j: int| 0 <= j < index ==> (#[trigger] pages[j]).shortcut() != shortcut
}

/// Whether no page has the shortcut.
pub open spec fn no_page_with_shortcut(pages: Seq<Page>, shortcut: char) -> bool {
    forall|j: int| 0 <= j < pages.len() ==> (#[trigger] pages[j]).shortcut() != shortcut
}

pub struct PageCollection {
    pub(crate) pages: Vec<Page>,
    prev_page: Option<usize>,
    current_page: usize,
}

/// The entries of a menu, or none where there is no menu.
pub open spec fn entries_of(menu: Option<Menu>) -> Seq<MenuItem> {
    match menu {
        Some(m) => m@,
        None => Seq::empty(),
    }
}

/// Whether `menu` is the menu of a collection of `pages` that shows
/// `current`: one entry for each page, with the page's shortcut and title, in
/// the order of the pages, and behind them the entries of `leaf_menu`, which
/// is what the leaf with the focus offers.
pub open spec fn menu_with(
    pages: Seq<Page>,
    current: Page,
    focused_element: Option<RenderId>,
    leaf_menu: Option<Menu>,
    menu: Seq<MenuItem>,
) -> bool {
    &&& current.offers(focused_element, leaf_menu)
    &&& menu.len() == pages.len() + entries_of(leaf_menu).len()
    &&& forall|i: int|
        0 <= i < pages.len() ==> (#[trigger] menu[i]).shortcut() == pages[i].shortcut()
            && menu[i].display_name() == pages[i].title()
    &&& menu.skip(pages.len() as int) == entries_of(leaf_menu)
}

/// Whether `menu` is the menu of a collection of `pages` that shows
/// `current`, whatever the leaf with the focus offered.
pub open spec fn collection_menu(
    pages: Seq<Page>,
    current: Page,
    focused_element: Option<RenderId>,
    menu: Seq<MenuItem>,
) -> bool {
    exists|leaf_menu: Option<Menu>| #[trigger]
        menu_with(pages, current, focused_element, leaf_menu, menu)
}

/// The menu entry that stands for a page does nothing by itself: the window
/// switches pages on the same key.
fn page_entry(shortcut: char, title: String) -> (item: MenuItem)
    ensures
        item.shortcut() == shortcut,
        item.display_name() == title@,
{
    let nothing = |_ev: MenuEvent| {  };
    MenuItem::new(shortcut, title, nothing)
}

impl PageCollection {
    /// The pages, in their order.
    pub closed spec fn pages(self) -> Seq<Page> {
        self.pages@
    }

    /// The position of the page that is shown.
    pub closed spec fn current_index(self) -> nat {
        self.current_page as nat
    }

    /// The position of the page that was shown before the last switch.
    pub closed spec fn previous_index(self) -> Option<nat> {
        match self.prev_page {
            Some(i) => Some(i as nat),
            None => None,
        }
    }

    /// Whether there is a page to show.
    pub open spec fn well_formed(self) -> bool {
        self.current_index() < self.pages().len()
    }

    /// The page that is shown.
    pub open spec fn current(self) -> Page
        recommends
            self.well_formed(),
    {
        self.pages()[self.current_index() as int]
    }

    /// The same collection before and after, but for what the factories of
    /// the page at `index` have built.
    pub open spec fn same_but_grown_at(self, before: PageCollection, index: int) -> bool {
        &&& self.current_index() == before.current_index()
        &&& self.previous_index() == before.previous_index()
        &&& self.pages().len() == before.pages().len()
        &&& forall|i: int|
            0 <= i < self.pages().len() && i != index ==> self.pages()[i] == before.pages()[i]
        &&& 0 <= index < self.pages().len() ==> self.pages()[index].same_but_grown(
            before.pages()[index],
        )
    }

    /// The same collection before and after, but for what the factories of
    /// its pages have built.
    pub open spec fn same_but_grown(self, before: PageCollection) -> bool {
        &&& self.current_index() == before.current_index()
        &&& self.previous_index() == before.previous_index()
        &&& self.pages().len() == before.pages().len()
        &&& forall|i: int|
            0 <= i < self.pages().len() ==> (#[trigger] self.pages()[i]).same_but_grown(
                before.pages()[i],
            )
    }

    /// Whether the pages are those of `before`, but for what their factories
    /// have built.
    pub open spec fn pages_grown(self, before: PageCollection) -> bool {
        &&& self.pages().len() == before.pages().len()
        &&& forall|i: int|
            0 <= i < self.pages().len() ==> (#[trigger] self.pages()[i]).same_but_grown(
                before.pages()[i],
            )
    }

    /// The same pages have grown from themselves.
    pub proof fn lemma_pages_grown_reflexive(self, before: PageCollection)
        requires
            self.pages() == before.pages(),
        ensures
            self.pages_grown(before),
    {
        assert forall|i: int| 0 <= i < self.pages().len() implies (
        #[trigger] self.pages()[i]).same_but_grown(before.pages()[i]) by {
            crate::shape::lemma_grown_reflexive(before.pages()[i].root_shape());
        }
    }

    /// Pages that have grown from pages that have grown have grown.
    pub proof fn lemma_pages_grown_transitive(self, middle: PageCollection, before: PageCollection)
        requires
            middle.pages_grown(before),
            self.pages_grown(middle),
        ensures
            self.pages_grown(before),
    {
        assert forall|i: int| 0 <= i < self.pages().len() implies (
        #[trigger] self.pages()[i]).same_but_grown(before.pages()[i]) by {
            assert(middle.pages()[i].same_but_grown(before.pages()[i]));
            assert(self.pages()[i].same_but_grown(middle.pages()[i]));
            crate::shape::lemma_grown_transitive(
                before.pages()[i].root_shape(),
                middle.pages()[i].root_shape(),
                self.pages()[i].root_shape(),
            );
        }
    }

    /// A collection in which one page has grown has grown.
    pub proof fn lemma_grown_at_has_grown(self, before: PageCollection, index: int)
        requires
            self.same_but_grown_at(before, index),
        ensures
            self.same_but_grown(before),
    {
        assert forall|i: int| 0 <= i < self.pages().len() implies (
        #[trigger] self.pages()[i]).same_but_grown(before.pages()[i]) by {
            if i != index {
                crate::shape::lemma_grown_reflexive(before.pages()[i].root_shape());
            }
        }
    }

    /// The position of the page that is shown.
    pub fn get_current_index(&self) -> (index: usize)
        ensures
            index == self.current_index(),
    {
        self.current_page
    }

    /// The position of the page that was shown before the last switch.
    pub fn get_previous_index(&self) -> (index: Option<usize>)
        ensures
            match index {
                Some(i) => self.previous_index() == Some(i as nat),
                None => self.previous_index() is None,
            },
    {
        self.prev_page
    }

    /// The number of pages.
    pub fn len(&self) -> (len: usize)
        ensures
            len == self.pages().len(),
    {
        self.pages.len()
    }

    /// The page at the position.
    pub fn page(&self, index: usize) -> (page: &Page)
        requires
            index < self.pages().len(),
        ensures
            *page == self.pages()[index as int],
    {
        &self.pages[index]
    }

    /// The page at the position.
    pub fn page_mut(&mut self, index: usize) -> (page: &mut Page)
        requires
            index < old(self).pages().len(),
        ensures
            *page == old(self).pages()[index as int],
            final(self).current_index() == old(self).current_index(),
            final(self).previous_index() == old(self).previous_index(),
            final(self).pages() == old(self).pages().update(index as int, *final(page)),
    {
        &mut self.pages[index]
    }

    /// The pages in the order given; the first one is shown.
    pub fn new(pages: Vec<Page>) -> (collection: Self)
        ensures
            collection.pages() == pages@,
            collection.current_index() == 0,
            collection.previous_index() is None,
    {
        Self { pages, prev_page: None, current_page: 0 }
    }

    pub fn get_current_page_mut(&mut self) -> (page: &mut Page)
        requires
            old(self).well_formed(),
        ensures
            *page == old(self).current(),
            final(self).current_index() == old(self).current_index(),
            final(self).previous_index() == old(self).previous_index(),
            final(self).pages() == old(self).pages().update(
                old(self).current_index() as int,
                *final(page),
            ),
    {
        &mut self.pages[self.current_page]
    }

    pub fn get_current_page(&self) -> (page: &Page)
        requires
            self.well_formed(),
        ensures
            *page == self.current(),
    {
        &self.pages[self.current_page]
    }

    /// Shows the first page that has the shortcut, and remembers which page
    /// was shown before. Where no page has the shortcut, nothing changes.
    pub fn try_change_page(&mut self, shortcut: char) -> (changed: bool)
        ensures
            final(self).pages() == old(self).pages(),
            changed ==> is_first_with_shortcut(
                old(self).pages(),
                shortcut,
                final(self).current_index() as int,
            ) && final(self).previous_index() == Some(old(self).current_index()),
            !changed ==> no_page_with_shortcut(old(self).pages(), shortcut) && final(self).current_index() == old(self).current_index() && final(self).previous_index() == old(self).previous_index(),
            old(self).well_formed() ==> final(self).well_formed(),
    {
        let mut i: usize = 0;
        while i < self.pages.len()
            invariant
                i <= self.pages.len(),
                *self == *old(self),
                forall|j: int| 0 <= j < i ==> (#[trigger] self.pages@[j]).shortcut() != shortcut,
            decreases self.pages.len() - i,
        {
            if self.pages[i].get_shortcut() == shortcut {
                self.prev_page = Some(self.current_page);
                self.current_page = i;
                return true;
            }
            i += 1;
        }
        false
    }

    /// One entry for each page, with the page's shortcut and title, in the
    /// order of the pages; behind them the entries that the leaf with the
    /// focus offers, if a leaf of the page that is shown has the focus.
    pub fn get_menu(&self, focused_element: &Option<RenderId>) -> (menu: Option<Menu>)
        requires
            self.well_formed(),
        ensures
            menu matches Some(m) && collection_menu(
                self.pages(),
                self.current(),
                *focused_element,
                m@,
            ),
            menu matches Some(m) && m@.len() >= self.pages().len() && forall|i: int|
                0 <= i < self.pages().len() ==> (#[trigger] m@[i]).shortcut()
                    == self.pages()[i].shortcut() && m@[i].display_name()
                    == self.pages()[i].title(),
            focused_element is None ==> menu->0@.len() == self.pages().len(),
    {
        let active_component_menu = self.get_current_page().get_active_element_menu(
            focused_element,
        );
        let mut pages_menu = Menu::default();
        let mut i: usize = 0;
        while i < self.pages.len()
            invariant
                i <= self.pages.len(),
                pages_menu@.len() == i,
                forall|k: int|
                    0 <= k < i ==> (#[trigger] pages_menu@[k]).shortcut()
                        == self.pages@[k].shortcut() && pages_menu@[k].display_name()
                        == self.pages@[k].title(),
            decreases self.pages.len() - i,
        {
            pages_menu.push(
                page_entry(self.pages[i].get_shortcut(), self.pages[i].get_title().clone()),
            );
            i += 1;
        }
        let ghost leaf_menu = active_component_menu;
        let ghost page_part = pages_menu@;
        if let Some(cmenu) = active_component_menu {
            pages_menu.append(cmenu);
        }
        proof {
            assert(pages_menu@ == page_part + entries_of(leaf_menu));
            assert(pages_menu@.skip(self.pages().len() as int) =~= entries_of(leaf_menu));
            assert(menu_with(
                self.pages(),
                self.current(),
                *focused_element,
                leaf_menu,
                pages_menu@,
            ));
        }
        Some(pages_menu)
    }
}

impl RenderFlow for PageCollection {
    open spec fn renderable(&self) -> bool {
        self.well_formed()
    }

    /// Draws the page that is shown.
    fn render(
        &mut self,
        opts: &VRenderProps,
        component_buffer: &mut ComponentBuffer,
        buff: &mut Buffer,
        area: Rect,
    )
        ensures
            final(self).same_but_grown_at(*old(self), old(self).current_index() as int),
            crate::component::drawn(
                old(self).current().root(),
                final(self).current().root(),
                *opts,
                old(component_buffer)@,
                area,
                *old(buff),
                *final(buff),
            ),
            final(component_buffer)@ == old(component_buffer)@,
    {
        self.get_current_page_mut().render(opts, component_buffer, buff, area)
    }

    /// The identifiers of the leaves of the page that is shown which take
    /// the focus, depth first.
    fn get_focusable_elements(&mut self) -> (ids: Vec<RenderId>)
        ensures
            final(self).same_but_grown_at(*old(self), old(self).current_index() as int),
            ids@ == focusable_ids(final(self).current().root_shape()),
    {
        self.get_current_page_mut().get_focusable_elements()
    }
}

} // verus!
