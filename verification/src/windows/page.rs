//! A page: a titled component tree that a shortcut brings up.

use super::menu::{Menu, MenuEvent, MenuItem};
use crate::area_calculation::{
    found_with, lemma_unrolled_ignores_growth, pointed_ids, unroll, unrolled, Cut,
    UnrolledComponents,
};
use crate::component::{
    asked_at, built_on, drawn, stopped_at, went_through, ComponentBuffer, RenderComponent, RenderFlow,
    RenderNode, VRenderProps, FACTORY_NESTING_LIMIT,
};
use crate::geometry::{Position, Rect};
use crate::id::RenderId;
use crate::shape::{focusable_ids, grown, leaf_ids, lemma_realized_has_grown, realized, Shape};
use crate::surface::plain_style;
use ratatui::buffer::Buffer;
use ratatui::style::Style;
use vstd::prelude::*;
use vstd::std_specs::convert::IntoSpec;

verus! {

pub struct Page {
    id: RenderId,
    pub(crate) title: String,
    pub(crate) shortcut: char,
    root: RenderComponent,
    unrolled: UnrolledComponents,
    menu: Menu,
    pub(crate) style: Style,
}

impl Page {
    /// The identity of the page.
    pub closed spec fn id(self) -> RenderId {
        self.id
    }

    pub closed spec fn title(self) -> Seq<char> {
        self.title@
    }

    /// The key that brings the page up.
    pub closed spec fn shortcut(self) -> char {
        self.shortcut
    }

    /// The page's component tree.
    pub closed spec fn root(self) -> RenderComponent {
        self.root
    }

    /// The shape of the page's component tree.
    pub closed spec fn root_shape(self) -> Shape {
        self.root.shape()
    }

    /// The leaves of the page's component tree, depth first, as far as they
    /// are built.
    pub closed spec fn root_leaves(self) -> Seq<RenderNode> {
        self.root.leaves()
    }

    /// The page's area table: for each leaf that no factory stands above,
    /// its identifier and the cuts that lead to its rectangle.
    pub closed spec fn table(self) -> Seq<(RenderId, Seq<Cut>)> {
        self.unrolled@
    }

    /// The entries of the page's own menu.
    pub closed spec fn menu(self) -> Seq<MenuItem> {
        self.menu@
    }

    pub closed spec fn style(self) -> Style {
        self.style
    }

    /// The same page before and after, but for what its factories have
    /// built.
    pub open spec fn same_but_grown(self, before: Page) -> bool {
        &&& self.id() == before.id()
        &&& self.title() == before.title()
        &&& self.shortcut() == before.shortcut()
        &&& self.table() == before.table()
        &&& self.menu() == before.menu()
        &&& self.style() == before.style()
        &&& grown(before.root_shape(), self.root_shape())
    }

    /// Whether the page's area table is the one that unrolling the page's
    /// tree gives.
    pub open spec fn table_fits_root(self) -> bool {
        self.table() == unrolled(self.root_shape(), Seq::empty())
    }

    /// The area table of a page is written down once and stays right: what
    /// factories build afterwards is left out of it.
    pub proof fn lemma_table_survives_growth(self, before: Page)
        requires
            before.table_fits_root(),
            self.same_but_grown(before),
        ensures
            self.table_fits_root(),
    {
        lemma_unrolled_ignores_growth(before.root_shape(), self.root_shape(), Seq::empty());
    }

    pub fn get_page_id(&self) -> (id: &RenderId)
        ensures
            *id == self.id(),
    {
        &self.id
    }

    /// The key that brings the page up.
    pub fn get_shortcut(&self) -> (shortcut: char)
        ensures
            shortcut == self.shortcut(),
    {
        self.shortcut
    }

    pub fn get_title(&self) -> (title: &String)
        ensures
            title@ == self.title(),
    {
        &self.title
    }

    pub fn get_style(&self) -> (style: &Style)
        ensures
            *style == self.style(),
    {
        &self.style
    }

    /// A page with a fresh identity, an empty menu and the plain style. The
    /// area table is written down here, once.
    pub fn new<T: Into<RenderComponent>, S: Into<String>>(title: S, shortcut: char, root: T) -> (page:
        Self)
        ensures
            page.shortcut() == shortcut,
            S::obeys_into_spec() ==> page.title() == title.into_spec()@,
            T::obeys_into_spec() ==> page.root() == root.into_spec(),
            T::obeys_into_spec() ==> page.root_shape() == root.into_spec().shape(),
            page.table() == unrolled(page.root_shape(), Seq::empty()),
            page.menu() == Seq::<MenuItem>::empty(),
    {
        Self::from_root(title.into(), shortcut, root.into())
    }

    /// A page of the tree, with the title as given, a fresh identity, an
    /// empty menu and the plain style. The area table is written down here,
    /// once.
    pub fn from_root(title: String, shortcut: char, root: RenderComponent) -> (page: Self)
        ensures
            page.shortcut() == shortcut,
            page.title() == title@,
            page.root() == root,
            page.root_shape() == root.shape(),
            page.table() == unrolled(root.shape(), Seq::empty()),
            page.menu() == Seq::<MenuItem>::empty(),
    {
        let layout_factories = unroll(&root);
        Self {
            id: RenderId::new(),
            shortcut,
            title,
            root,
            menu: Menu::default(),
            unrolled: layout_factories,
            style: plain_style(),
        }
    }

    pub fn with_style(self, style: Style) -> (page: Self)
        ensures
            page.style() == style,
            page.id() == self.id(),
            page.title() == self.title(),
            page.shortcut() == self.shortcut(),
            page.table() == self.table(),
            page.menu() == self.menu(),
            page.root() == self.root(),
            page.root_shape() == self.root_shape(),
    {
        let mut page = self;
        page.style = style;
        page
    }

    pub fn with_menu(&mut self, menu: Menu) -> (page: &mut Self)
        ensures
            page.menu() == menu@,
            page.id() == old(self).id(),
            page.title() == old(self).title(),
            page.shortcut() == old(self).shortcut(),
            page.table() == old(self).table(),
            page.style() == old(self).style(),
            page.root() == old(self).root(),
            page.root_shape() == old(self).root_shape(),
            *final(self) == *final(page),
    {
        self.menu = menu;
        self
    }

    pub fn with_menu_entries<T: Into<String>, F: Fn(MenuEvent) + 'static>(
        &mut self,
        entries: Vec<(char, T, F)>,
    ) -> (page: &mut Self)
        requires
            forall|i: int, event: MenuEvent|
                0 <= i < entries@.len() ==> #[trigger] call_requires(entries@[i].2, (event,)),
        ensures
            page.menu().len() == entries@.len(),
            forall|i: int|
                0 <= i < entries@.len() ==> (#[trigger] page.menu()[i]).shortcut() == entries@[i].0,
            T::obeys_into_spec() ==> forall|i: int|
                0 <= i < entries@.len() ==> (#[trigger] page.menu()[i]).display_name()
                    == entries@[i].1.into_spec()@,
            page.id() == old(self).id(),
            page.title() == old(self).title(),
            page.shortcut() == old(self).shortcut(),
            page.table() == old(self).table(),
            page.style() == old(self).style(),
            page.root() == old(self).root(),
            page.root_shape() == old(self).root_shape(),
            *final(self) == *final(page),
    {
        self.menu = Menu::from_entries(entries);
        self
    }

    /// The menu becomes one entry for each triple of shortcut, name and
    /// handler, in the order of the triples, with the names as given.
    pub fn with_named_menu_entries<F: Fn(MenuEvent) + 'static>(
        &mut self,
        entries: Vec<(char, String, F)>,
    ) -> (page: &mut Self)
        requires
            forall|i: int, event: MenuEvent|
                0 <= i < entries@.len() ==> #[trigger] call_requires(entries@[i].2, (event,)),
        ensures
            page.menu().len() == entries@.len(),
            forall|i: int|
                0 <= i < entries@.len() ==> (#[trigger] page.menu()[i]).shortcut() == entries@[i].0
                    && page.menu()[i].display_name() == entries@[i].1@,
            page.id() == old(self).id(),
            page.title() == old(self).title(),
            page.shortcut() == old(self).shortcut(),
            page.table() == old(self).table(),
            page.style() == old(self).style(),
            page.root() == old(self).root(),
            *final(self) == *final(page),
    {
        self.menu = Menu::from_named_entries(entries);
        self
    }

    /// Calls `f` on the leaves of the page's tree, depth first, for as long
    /// as it answers `true`: either it answered `true` on every leaf, or the
    /// walk ended on the first leaf on which it answered `false`.
    pub fn visit<F: FnMut(&RenderNode) -> bool>(&mut self, f: &mut F)
        requires
            forall|node: &RenderNode| call_requires(*old(f), (node,)),
        ensures
            final(self).same_but_grown(*old(self)),
            built_on(old(self).root(), final(self).root()),
            went_through::<F>(final(self).root_leaves()) || exists|stop: int|
                stopped_at::<F>(final(self).root_leaves(), stop),
            forall|node: &RenderNode| call_requires(*final(f), (node,)),
    {
        self.root.visit(f);
    }

    /// The identifiers of the leaves whose rectangle covers the position when
    /// the page is given `area`, in the order of the area table. The
    /// rectangles are calculated anew; each lies inside `area`.
    pub fn components_at_position(&self, pos: &Position, area: &Rect) -> (found: Vec<&RenderId>)
        ensures
            exists|areas: Seq<Rect>| #[trigger]
                found_with(self.table(), areas, *area, *pos, pointed_ids(found@)),
    {
        let areas = self.unrolled.areas(*area);
        let found = self.unrolled.containing(&areas, *pos);
        assert(found_with(self.table(), areas@, *area, *pos, pointed_ids(found@)));
        found
    }

    /// Whether `menu` is what the leaf of the page that has the focus offers:
    /// none where no leaf has the focus or the page has no leaf with that
    /// identifier; else what the first leaf with the identifier, depth first,
    /// answered when it was asked.
    pub open spec fn offers(self, focused_element: Option<RenderId>, menu: Option<Menu>) -> bool {
        match focused_element {
            Some(id) => (!leaf_ids(self.root_shape()).contains(id) ==> menu is None) && (menu
                is Some ==> exists|at: int| #[trigger]
                asked_at(self.root_leaves(), at, id, menu)),
            None => menu is None,
        }
    }

    /// The menu of the leaf that has the focus, if a leaf has it and offers
    /// one.
    pub fn get_active_element_menu(&self, focused_element: &Option<RenderId>) -> (menu: Option<
        Menu,
    >)
        ensures
            self.offers(*focused_element, menu),
    {
        if let Some(fe) = focused_element {
            let menu = self.root.menu_of_leaf(*fe);
            assert(self.root_leaves() == self.root.leaves());
            menu
        } else {
            None
        }
    }
}

impl RenderFlow for Page {
    fn render(
        &mut self,
        opts: &VRenderProps,
        component_buffer: &mut ComponentBuffer,
        buff: &mut Buffer,
        area: Rect,
    )
        ensures
            final(self).same_but_grown(*old(self)),
            realized(
                old(self).root_shape(),
                final(self).root_shape(),
                FACTORY_NESTING_LIMIT as nat,
            ),
            drawn(
                old(self).root(),
                final(self).root(),
                *opts,
                old(component_buffer)@,
                area,
                *old(buff),
                *final(buff),
            ),
            final(component_buffer)@ == old(component_buffer)@,
    {
        let ghost before = self.root.shape();
        self.root.render(opts, component_buffer, buff, area);
        proof {
            lemma_realized_has_grown(before, self.root.shape(), FACTORY_NESTING_LIMIT as nat);
        }
    }

    fn get_menu(&self) -> (menu: Option<Menu>)
        ensures
            menu matches Some(m) && m@ == self.menu(),
    {
        Some(self.menu.clone())
    }

    fn get_focusable_elements(&mut self) -> (ids: Vec<RenderId>)
        ensures
            final(self).same_but_grown(*old(self)),
            realized(
                old(self).root_shape(),
                final(self).root_shape(),
                FACTORY_NESTING_LIMIT as nat,
            ),
            ids@ == focusable_ids(final(self).root_shape()),
            built_on(old(self).root(), final(self).root()),
    {
        let ghost before = self.root.shape();
        let ids = self.root.get_focusable_elements();
        proof {
            lemma_realized_has_grown(before, self.root.shape(), FACTORY_NESTING_LIMIT as nat);
        }
        ids
    }
}

} // verus!
