//! What the leaves of a component tree are made of: behaviours that draw
//! themselves, and factories that build a subtree on demand.

use crate::component::{InputEvent, RenderComponent};
use crate::geometry::Rect;
use crate::windows::menu::Menu;
use ratatui::buffer::Buffer;
use vstd::prelude::*;

verus! {

/// What a leaf is told when it is drawn.
#[derive(Debug)]
pub struct RenderProps {
    /// Whether the leaf has the focus.
    pub is_focused: bool,
    /// The frame's event, for the leaf that has the focus.
    pub event: Option<InputEvent>,
    /// The events that were delivered to the leaf so far, oldest first.
    pub event_buffer: Vec<InputEvent>,
}

impl RenderProps {
    /// Only the leaf that has the focus is handed the frame's event.
    pub open spec fn well_formed(self) -> bool {
        self.event is Some ==> self.is_focused
    }
}

/// A behaviour that draws itself on a rectangle of the surface.
pub trait Render {
    /// Whether the behaviour, told `render_props` and given `area`, may turn
    /// the surface `before` into `drawn`.
    open spec fn may_draw(
        &self,
        render_props: RenderProps,
        before: Buffer,
        drawn: Buffer,
        area: Rect,
    ) -> bool {
        true
    }

    fn render(&mut self, render_props: &RenderProps, buff: &mut Buffer, area: Rect)
        requires
            render_props.well_formed(),
        ensures
            old(self).may_draw(*render_props, *old(buff), *final(buff), area),
    ;

    /// Whether a leaf made of this behaviour takes the focus.
    fn is_focusable(&self) -> bool {
        false
    }

    /// Whether `menu` is a menu that the behaviour may offer.
    open spec fn may_offer(&self, menu: Menu) -> bool {
        true
    }

    /// The menu that the behaviour offers while its leaf has the focus, if it
    /// offers one.
    fn get_menu(&self) -> (menu: Option<Menu>)
        ensures
            menu matches Some(offered) ==> self.may_offer(offered),
    {
        None
    }
}

/// A behaviour whose leaf takes the focus.
pub trait FocusableRender: Render {
    /// Whether the behaviour, told `render_props` and given `area`, may turn
    /// the surface `before` into `drawn` and itself into `after`.
    open spec fn may_draw_focused(
        &self,
        after: &Self,
        render_props: RenderProps,
        before: Buffer,
        drawn: Buffer,
        area: Rect,
    ) -> bool {
        true
    }

    fn render(&mut self, render_props: &RenderProps, buff: &mut Buffer, area: Rect)
        requires
            render_props.well_formed(),
        ensures
            old(self).may_draw_focused(final(self), *render_props, *old(buff), *final(buff), area),
    ;

    #[allow(unused_variables)]
    fn render_footer(&mut self, render_props: &RenderProps, buff: &mut Buffer, area: Rect) {
    }

    fn get_menu(&self) -> Option<Menu> {
        None
    }
}

impl<T: FocusableRender> Render for T {
    /// A drawing that the behaviour's own `render` may make.
    open spec fn may_draw(
        &self,
        render_props: RenderProps,
        before: Buffer,
        drawn: Buffer,
        area: Rect,
    ) -> bool {
        exists|after: T| #[trigger] self.may_draw_focused(&after, render_props, before, drawn, area)
    }

    /// What the behaviour's own `render` draws.
    fn render(&mut self, render_props: &RenderProps, buff: &mut Buffer, area: Rect) {
        FocusableRender::render(self, render_props, buff, area)
    }

    /// A behaviour of this kind always takes the focus.
    fn is_focusable(&self) -> (focusable: bool)
        ensures
            focusable,
    {
        true
    }

    /// A menu that the behaviour's own `get_menu` may give.
    open spec fn may_offer(&self, menu: Menu) -> bool {
        call_ensures(<T as FocusableRender>::get_menu, (self,), Some(menu))
    }

    /// What the behaviour's own `get_menu` gives.
    fn get_menu(&self) -> (menu: Option<Menu>) {
        FocusableRender::get_menu(self)
    }
}

/// A behaviour that builds a subtree when it is first needed.
pub trait RenderFactory {
    fn render(&mut self) -> RenderComponent;
}

} // verus!
