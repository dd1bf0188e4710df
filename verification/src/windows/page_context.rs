//! What a window keeps for each page while it runs: where the focus is, and
//! the events that each component was given.

use super::page::Page;
use crate::component::{ComponentBuffer, InputEvent, RenderFlow};
use crate::id::RenderId;
use crate::shape::focusable_ids;
use crate::utils::{next_index, previous_index, CyclicList};
use vstd::prelude::*;

verus! {

pub struct PageContext {
    id: RenderId,
    page_id: RenderId,
    focusable_elements: CyclicList<RenderId>,
    pub(crate) event_buffer: ComponentBuffer,
}

impl PageContext {
    /// The identity that stands for the window itself in the focus list.
    pub closed spec fn id(self) -> RenderId {
        self.id
    }

    /// The identity of the page that the context was last built for.
    pub closed spec fn page_id(self) -> RenderId {
        self.page_id
    }

    /// The focus list: the window first, then the leaves that take the
    /// focus, depth first.
    pub closed spec fn focus_list(self) -> Seq<RenderId> {
        self.focusable_elements.elements()
    }

    /// The position of the focus in the focus list.
    pub closed spec fn focus_index(self) -> nat {
        self.focusable_elements.index()
    }

    /// The events that each component was given, oldest first.
    pub closed spec fn histories(self) -> Map<RenderId, Seq<InputEvent>> {
        self.event_buffer@
    }

    /// Who has the focus, if the focus list holds anyone.
    pub open spec fn focused(self) -> Option<RenderId> {
        if self.focus_index() < self.focus_list().len() {
            Some(self.focus_list()[self.focus_index() as int])
        } else {
            None
        }
    }

    /// Whether the window itself has the focus.
    pub open spec fn window_focused(self) -> bool {
        self.focused() == Some(self.id())
    }

    /// Whether the focus list is the one that belongs to a tree in which the
    /// given leaves take the focus.
    pub open spec fn lists(self, leaves: Seq<RenderId>) -> bool {
        self.focus_list() == seq![self.id()] + leaves
    }

    /// Whether the focus list begins with the identity that stands for the
    /// window, so that the focus is the window's whenever it is on the first
    /// of the list.
    pub open spec fn headed(self) -> bool {
        self.focus_list().len() > 0 && self.focus_list()[0] == self.id()
    }

    /// The same context before and after, but for the focus and the
    /// histories.
    pub open spec fn same_page(self, before: PageContext) -> bool {
        &&& self.id() == before.id()
        &&& self.page_id() == before.page_id()
        &&& self.focus_list() == before.focus_list()
    }

    /// A context for the page, with a fresh identity for the window, the
    /// focus on the window, and no events.
    pub fn new(page: &mut Page) -> (context: Self)
        ensures
            final(page).same_but_grown(*old(page)),
            context.page_id() == old(page).id(),
            context.lists(focusable_ids(final(page).root_shape())),
            context.focus_index() == 0,
            context.window_focused(),
            context.headed(),
            context.histories() == Map::<RenderId, Seq<InputEvent>>::empty(),
    {
        let root_id = RenderId::new();
        let page_id = *page.get_page_id();
        let focusable_elements = Self::build_focusable_elements(&root_id, page);
        Self { id: root_id, page_id, focusable_elements, event_buffer: ComponentBuffer::default() }
    }

    fn build_focusable_elements(window_id: &RenderId, page: &mut Page) -> (list: CyclicList<
        RenderId,
    >)
        ensures
            final(page).same_but_grown(*old(page)),
            list.elements() == seq![*window_id] + focusable_ids(final(page).root_shape()),
            list.index() == 0,
    {
        let mut focusable_elements: Vec<RenderId> = Vec::new();
        focusable_elements.push(*window_id);
        let mut leaves = page.get_focusable_elements();
        focusable_elements.append(&mut leaves);
        assert(focusable_elements@ =~= seq![*window_id] + focusable_ids(page.root_shape()));
        CyclicList::new(focusable_elements)
    }

    /// Builds the focus list anew and forgets the events if the page is not
    /// the one that the context was last built for; else changes nothing.
    pub fn reconcile(&mut self, page: &mut Page)
        ensures
            final(self).id() == old(self).id(),
            final(self).page_id() == old(page).id(),
            final(page).same_but_grown(*old(page)),
            old(self).page_id() == old(page).id() ==> *final(self) == *old(self) && *final(page)
                == *old(page),
            old(self).page_id() != old(page).id() ==> final(self).lists(
                focusable_ids(final(page).root_shape()),
            ) && final(self).focus_index() == 0 && final(self).histories() == Map::<
                RenderId,
                Seq<InputEvent>,
            >::empty(),
            old(self).headed() ==> final(self).headed(),
    {
        proof {
            crate::shape::lemma_grown_reflexive(page.root_shape());
        }
        if self.page_id != *page.get_page_id() {
            self.focusable_elements = Self::build_focusable_elements(&self.id, page);
            self.event_buffer = ComponentBuffer::default();
            self.page_id = *page.get_page_id();
        }
    }

    /// Whether the focus list begins with the identity that stands for the
    /// window.
    pub fn is_headed(&self) -> (headed: bool)
        ensures
            headed == self.headed(),
    {
        match self.focusable_elements.first() {
            Some(fid) => *fid == self.id,
            None => false,
        }
    }

    pub fn is_window_focused(&self) -> (focused: bool)
        ensures
            focused == self.window_focused(),
    {
        match self.focusable_elements.current() {
            Some(fid) => *fid == self.id,
            None => false,
        }
    }

    /// Moves the focus to the next of the focus list, and from the last to
    /// the first.
    pub fn focus_next(&mut self)
        ensures
            final(self).same_page(*old(self)),
            final(self).histories() == old(self).histories(),
            final(self).focus_index() == next_index(
                old(self).focus_index(),
                old(self).focus_list().len(),
            ),
    {
        self.focusable_elements.move_next();
    }

    /// Moves the focus to the one before in the focus list, and from the
    /// first to the last.
    pub fn focus_prev(&mut self)
        ensures
            final(self).same_page(*old(self)),
            final(self).histories() == old(self).histories(),
            final(self).focus_index() == previous_index(
                old(self).focus_index(),
                old(self).focus_list().len(),
            ),
    {
        self.focusable_elements.move_previous();
    }

    pub fn get_focused_element(&self) -> (focused: Option<RenderId>)
        ensures
            focused == self.focused(),
            self.focus_list().len() > 0 ==> focused is Some,
    {
        match self.focusable_elements.current() {
            Some(id) => Some(*id),
            None => None,
        }
    }

    /// Gives the focus back to the window.
    pub fn reset_focus(&mut self)
        ensures
            final(self).same_page(*old(self)),
            final(self).histories() == old(self).histories(),
            final(self).focus_index() == 0,
            old(self).headed() ==> final(self).window_focused(),
    {
        self.focusable_elements.reset()
    }

    /// The identity that stands for the window itself in the focus list.
    pub fn get_id(&self) -> (id: RenderId)
        ensures
            id == self.id(),
    {
        self.id
    }

    /// The identity of the page that the context was last built for.
    pub fn get_page_id(&self) -> (id: RenderId)
        ensures
            id == self.page_id(),
    {
        self.page_id
    }

    /// The events that the component was given so far, oldest first.
    pub fn get_buffer(&self, id: &RenderId) -> (events: Vec<InputEvent>)
        ensures
            events@ == crate::component::history_of(self.histories(), *id),
    {
        self.event_buffer.get_buffer(id)
    }

    /// The events that each component of the page was given.
    pub fn events_mut(&mut self) -> (buffer: &mut ComponentBuffer)
        ensures
            buffer@ == old(self).histories(),
            final(self).same_page(*old(self)),
            final(self).focus_index() == old(self).focus_index(),
            final(self).histories() == final(buffer)@,
    {
        &mut self.event_buffer
    }

    /// Records the event, if there is one, for who has the focus, or for
    /// `fallback` where nobody has it.
    pub fn record_event(&mut self, fallback: RenderId, event: &Option<InputEvent>) -> (focused:
        Option<RenderId>)
        ensures
            focused == old(self).focused(),
            final(self).same_page(*old(self)),
            final(self).focus_index() == old(self).focus_index(),
            final(self).histories() == crate::component::record(
                old(self).histories(),
                match focused {
                    Some(id) => id,
                    None => fallback,
                },
                *event,
            ),
    {
        let focused_element = self.get_focused_element();
        let target = match focused_element {
            Some(id) => id,
            None => fallback,
        };
        self.event_buffer.add_event(target, event);
        focused_element
    }
}

} // verus!
