//! The component tree, the input events, and the per-component history of
//! events.

use crate::geometry::{equal_fill, split_equal, split_of, Direction, Position, Rect};
use crate::id::RenderId;
use crate::render::{Render, RenderFactory, RenderProps};
use crate::shape::{
    budget_inside, focusable_count, focusable_ids, focusable_ids_of, grown, leaf_ids, leaf_ids_of,
    lemma_focusable_ids_len, lemma_grown_reflexive, lemma_leaf_ids_of_grows,
    lemma_realized_has_grown, lemma_realized_is_settled_within, realized, settled_within, Shape,
};
use crate::windows::menu::Menu;
use ratatui::buffer::Buffer;
use std::collections::HashMap;
use vstd::prelude::*;

verus! {

broadcast use vstd::std_specs::hash::group_hash_axioms;

/// How a layout node arranges its children.
#[derive(Debug, Clone, Copy, PartialEq, Eq, Structural)]
pub enum LayoutDirection {
    /// The children stand one above the other.
    Column,
    /// The children stand side by side.
    Row,
}

impl LayoutDirection {
    /// The axis along which the node's rectangle is cut.
    pub open spec fn spec_axis(self) -> Direction {
        match self {
            LayoutDirection::Column => Direction::Vertical,
            LayoutDirection::Row => Direction::Horizontal,
        }
    }

    /// The axis along which the node's rectangle is cut.
    pub fn axis(&self) -> (direction: Direction)
        ensures
            direction == self.spec_axis(),
    {
        match self {
            LayoutDirection::Column => Direction::Vertical,
            LayoutDirection::Row => Direction::Horizontal,
        }
    }
}

/// What the user did, in the toolkit's own terms.
#[derive(Debug, Clone, Copy, PartialEq, Eq, Structural)]
pub enum InputEvent {
    Key(char),
    FocusWindow,
    FocusNext,
    FocusPrevious,
    Click(Position),
}

/// What a frame hands down the tree: who has the focus, and the frame's
/// event.
pub struct VRenderProps {
    pub focused_element: Option<RenderId>,
    pub event: Option<InputEvent>,
}

/// The events recorded for `id` in a history, oldest first; none where the
/// history has never seen `id`.
pub open spec fn history_of(
    histories: Map<RenderId, Seq<InputEvent>>,
    id: RenderId,
) -> Seq<InputEvent> {
    if histories.contains_key(id) {
        histories[id]
    } else {
        Seq::empty()
    }
}

/// The histories after `event` was recorded for `id`. No event, no change.
pub open spec fn record(
    histories: Map<RenderId, Seq<InputEvent>>,
    id: RenderId,
    event: Option<InputEvent>,
) -> Map<RenderId, Seq<InputEvent>> {
    match event {
        Some(ev) => histories.insert(id, history_of(histories, id).push(ev)),
        None => histories,
    }
}

/// The histories after each of `events` was recorded for `id`, in order.
pub open spec fn record_all(
    histories: Map<RenderId, Seq<InputEvent>>,
    id: RenderId,
    events: Seq<InputEvent>,
) -> Map<RenderId, Seq<InputEvent>>
    decreases events.len(),
{
    if events.len() == 0 {
        histories
    } else {
        record(record_all(histories, id, events.drop_last()), id, Some(events.last()))
    }
}

/// For each component, the events that were delivered to it, oldest first.
pub struct ComponentBuffer {
    buff: HashMap<u128, Vec<InputEvent>>,
}

impl View for ComponentBuffer {
    type V = Map<RenderId, Seq<InputEvent>>;

    closed spec fn view(&self) -> Map<RenderId, Seq<InputEvent>> {
        Map::new(
            |id: RenderId| self.buff@.contains_key(id.value()),
            |id: RenderId| self.buff@[id.value()]@,
        )
    }
}

impl Default for ComponentBuffer {
    fn default() -> (buffer: Self)
        ensures
            buffer@ == Map::<RenderId, Seq<InputEvent>>::empty(),
    {
        let buffer = ComponentBuffer { buff: HashMap::new() };
        assert(buffer@ =~= Map::<RenderId, Seq<InputEvent>>::empty());
        buffer
    }
}

impl ComponentBuffer {
    pub fn add_event(&mut self, id: RenderId, event: &Option<InputEvent>)
        ensures
            final(self)@ == record(old(self)@, id, *event),
    {
        if let Some(ev) = event {
            let key = id.as_u128();
            let mut events = match self.buff.remove(&key) {
                Some(events) => events,
                None => Vec::new(),
            };
            events.push(*ev);
            self.buff.insert(key, events);
            assert(self@ =~= record(old(self)@, id, *event)) by {
                assert forall|other: RenderId| other.value() == key implies other == id by {
                    crate::id::lemma_id_equal_by_value(other, id);
                }
            }
        }
    }

    pub fn get_buffer(&self, id: &RenderId) -> (events: Vec<InputEvent>)
        ensures
            events@ == history_of(self@, *id),
    {
        let key = id.as_u128();
        match self.buff.get(&key) {
            Some(events) => {
                let copy = events.clone();
                assert(copy@ =~= events@);
                copy
            },
            None => Vec::new(),
        }
    }
}

/// Querying an identifier that no event was ever recorded for yields the empty
/// history.
pub proof fn lemma_unseen_history_is_empty(id: RenderId)
    ensures
        history_of(Map::<RenderId, Seq<InputEvent>>::empty(), id) == Seq::<InputEvent>::empty(),
{
}

/// After `events` were recorded for `id`, the history of `id` is what it was
/// before, followed by exactly those events in the order they were recorded,
/// and every other history is as before.
pub proof fn lemma_record_all_appends(
    histories: Map<RenderId, Seq<InputEvent>>,
    id: RenderId,
    events: Seq<InputEvent>,
)
    ensures
        history_of(record_all(histories, id, events), id) == history_of(histories, id) + events,
        forall|other: RenderId|
            other != id ==> history_of(record_all(histories, id, events), other) == history_of(
                histories,
                other,
            ),
    decreases events.len(),
{
    if events.len() == 0 {
        assert(history_of(histories, id) + events =~= history_of(histories, id));
    } else {
        lemma_record_all_appends(histories, id, events.drop_last());
        assert(history_of(histories, id) + events =~= (history_of(histories, id)
            + events.drop_last()).push(events.last()));
    }
}

/// A factory behaviour, kept out of sight: Verus takes no trait object whose
/// method hands back the type that holds the object.
#[verifier::external_body]
pub struct FactorySource {
    inner: Box<dyn RenderFactory>,
}

impl FactorySource {
    /// Boxes the behaviour.
    #[verifier::external_body]
    fn new<T: RenderFactory + 'static>(render_factory: T) -> (source: Self) {
        FactorySource { inner: Box::new(render_factory) }
    }

    /// Calls `RenderFactory::render` of the behaviour: the subtree that it
    /// builds, of which nothing is known beforehand.
    #[verifier::external_body]
    fn build(&mut self) -> (built: RenderComponent) {
        self.inner.render()
    }
}

/// Wrapper for factory of components: the factory, and what it has built
/// once it was asked.
pub struct RenderFactoryBox {
    cached: Option<RenderComponent>,
    render: FactorySource,
}

pub struct RenderNode {
    pub id: RenderId,
    pub focusable: bool,
    pub render: Box<dyn Render>,
}

pub enum RenderComponent {
    Layout(RenderId, LayoutDirection, Vec<RenderComponent>),
    Render(RenderNode),
    Factory(Box<RenderFactoryBox>),
}

/// How many factories may build one inside the other while a tree is walked.
/// A factory that sits deeper is left as it is.
pub const FACTORY_NESTING_LIMIT: usize = usize::MAX;

/// The budget that is left inside a factory: one less, and none once none is
/// left.
fn budget_left(budget: usize) -> (rest: usize)
    ensures
        rest == budget_inside(budget as nat),
{
    if budget > 0 {
        budget - 1
    } else {
        0
    }
}

impl RenderFactoryBox {
    /// What the factory has built, once it was asked.
    pub closed spec fn cached(self) -> Option<RenderComponent> {
        self.cached
    }

    fn new<T: RenderFactory + 'static>(render_factory: T) -> (factory: Self)
        ensures
            factory.cached() is None,
    {
        RenderFactoryBox { cached: None, render: FactorySource::new(render_factory) }
    }
}

impl RenderNode {
    /// Whether the leaf's behaviour is `render_fn`, as far as a behaviour
    /// says of itself: it may offer the menus and make the drawings that
    /// `render_fn` may, and no others.
    pub open spec fn holds<T: Render>(self, render_fn: T) -> bool {
        &&& forall|menu: Menu| #[trigger]
            self.render.may_offer(menu) == render_fn.may_offer(menu)
        &&& forall|render_props: RenderProps, before: Buffer, drawn: Buffer, area: Rect| #[trigger]
            self.render.may_draw(render_props, before, drawn, area) == render_fn.may_draw(
                render_props,
                before,
                drawn,
                area,
            )
    }

    fn new<T: Render + 'static>(focusable: bool, render_fn: T) -> (node: Self)
        ensures
            node.focusable == focusable,
            node.holds(render_fn),
    {
        RenderNode { id: RenderId::new(), focusable, render: Box::new(render_fn) }
    }
}

/// The shapes of the trees, in their order.
pub open spec fn shapes_of(children: Seq<RenderComponent>) -> Seq<Shape> {
    Seq::new(children.len(), |i: int| children[i].shape())
}

/// The leaves of the first `count` of the trees, depth first, as far as they
/// are built.
pub open spec fn leaves_of(children: Seq<RenderComponent>, count: nat) -> Seq<RenderNode>
    decreases children, count,
{
    if count == 0 || count > children.len() {
        Seq::empty()
    } else {
        leaves_of(children, (count - 1) as nat) + children[count - 1].leaves()
    }
}

/// Whether the callback may answer `answer` when it is called on the leaf.
pub open spec fn answered<F: FnMut(&RenderNode) -> bool>(node: RenderNode, answer: bool) -> bool {
    exists|g: F| #[trigger] call_ensures(g, (&node,), answer)
}

/// Whether a walk over the leaves ended on the leaf at `stop`: the callback
/// answered `true` on every leaf before it, and `false` on that leaf.
pub open spec fn stopped_at<F: FnMut(&RenderNode) -> bool>(
    leaves: Seq<RenderNode>,
    stop: int,
) -> bool {
    &&& 0 <= stop < leaves.len()
    &&& answered::<F>(leaves[stop], false)
    &&& forall|j: int| 0 <= j < stop ==> answered::<F>(#[trigger] leaves[j], true)
}

/// Whether a walk over the leaves went through: the callback answered `true`
/// on every leaf.
pub open spec fn went_through<F: FnMut(&RenderNode) -> bool>(leaves: Seq<RenderNode>) -> bool {
    forall|j: int| 0 <= j < leaves.len() ==> answered::<F>(#[trigger] leaves[j], true)
}

/// Whether `menu` is what the leaf at `at` answered when it was asked for its
/// menu, and that leaf is the first of the leaves with the identifier: a menu
/// that it hands out is one that its behaviour may offer.
pub open spec fn asked_at(
    leaves: Seq<RenderNode>,
    at: int,
    target: RenderId,
    menu: Option<Menu>,
) -> bool {
    &&& 0 <= at < leaves.len()
    &&& leaves[at].id == target
    &&& forall|j: int| 0 <= j < at ==> (#[trigger] leaves[j]).id != target
    &&& menu matches Some(offered) ==> leaves[at].render.may_offer(offered)
}

/// The leaves found in the first `count` trees depend on those trees alone.
pub proof fn lemma_leaves_of_prefix(a: Seq<RenderComponent>, b: Seq<RenderComponent>, count: nat)
    requires
        count <= a.len(),
        count <= b.len(),
        forall|i: int| 0 <= i < count ==> a[i] == b[i],
    ensures
        leaves_of(a, count) == leaves_of(b, count),
    decreases count,
{
    if count > 0 {
        lemma_leaves_of_prefix(a, b, (count - 1) as nat);
    }
}

/// The leaves found in fewer trees are the first of those found in more
/// trees.
pub proof fn lemma_leaves_of_grows(children: Seq<RenderComponent>, fewer: nat, more: nat)
    requires
        fewer <= more <= children.len(),
    ensures
        leaves_of(children, fewer).is_prefix_of(leaves_of(children, more)),
    decreases more - fewer,
{
    if fewer < more {
        lemma_leaves_of_grows(children, fewer, (more - 1) as nat);
    }
}

/// Whether `after` is the tree `before` with nothing changed but that
/// factories may have built: every node and every leaf is kept as it was,
/// with its behaviour, and so is what a factory had built before.
pub open spec fn built_on(before: RenderComponent, after: RenderComponent) -> bool
    decreases after,
{
    match after {
        RenderComponent::Layout(id, direction, children) => before matches RenderComponent::Layout(
            old_id,
            old_direction,
            old_children,
        ) && id == old_id && direction == old_direction && children@.len() == old_children@.len()
            && forall|i: int|
            0 <= i < children@.len() ==> built_on(old_children@[i], #[trigger] children@[i]),
        RenderComponent::Render(node) => before == after,
        RenderComponent::Factory(factory) => before matches RenderComponent::Factory(old_factory)
            && match old_factory.cached() {
            Some(old_built) => factory.cached() matches Some(built) && built_on(old_built, built),
            None => true,
        },
    }
}

/// Every tree is built on itself.
pub proof fn lemma_built_on_reflexive(tree: RenderComponent)
    ensures
        built_on(tree, tree),
    decreases tree,
{
    match tree {
        RenderComponent::Layout(_, _, children) => {
            assert forall|i: int| 0 <= i < children@.len() implies built_on(
                children@[i],
                #[trigger] children@[i],
            ) by {
                lemma_built_on_reflexive(children@[i]);
            }
        },
        RenderComponent::Render(_) => {},
        RenderComponent::Factory(factory) => {
            match factory.cached() {
                Some(built) => lemma_built_on_reflexive(built),
                None => {},
            }
        },
    }
}

/// Whether `props` are what the leaf `id` is told when it is drawn: whether
/// it has the focus, the frame's event if it has, and the events delivered to
/// it so far.
pub open spec fn told(
    props: RenderProps,
    id: RenderId,
    opts: VRenderProps,
    histories: Map<RenderId, Seq<InputEvent>>,
) -> bool {
    &&& props.is_focused == (opts.focused_element == Some(id))
    &&& props.event == if props.is_focused {
        opts.event
    } else {
        None
    }
    &&& props.event_buffer@ == history_of(histories, id)
}

/// Whether the surfaces are one more than the parts: the surface before the
/// first part is drawn on, and the surface after each.
pub open spec fn chained(parts: Seq<Rect>, steps: Seq<Buffer>) -> bool {
    steps.len() == parts.len() + 1
}

/// Whether drawing the tree `before` on `area` may turn the surface `surface`
/// into `result` and the tree into `after`.
///
/// A leaf is told what `told` says and makes a drawing that its behaviour
/// may make. A layout node splits `area` along its axis into one part of
/// equal weight for each child; the children are drawn one after the other,
/// child `i` on part `i`, each on the surface that the one before it left. A
/// factory has what it had built drawn on `area`, or what it builds now; one
/// that is left unbuilt draws nothing.
pub open spec fn drawn(
    before: RenderComponent,
    after: RenderComponent,
    opts: VRenderProps,
    histories: Map<RenderId, Seq<InputEvent>>,
    area: Rect,
    surface: Buffer,
    result: Buffer,
) -> bool
    decreases after,
{
    match after {
        RenderComponent::Layout(id, direction, children) => before matches RenderComponent::Layout(
            old_id,
            old_direction,
            old_children,
        ) && id == old_id && direction == old_direction && children@.len() == old_children@.len()
            && exists|parts: Seq<Rect>, steps: Seq<Buffer>| #[trigger]
            chained(parts, steps) && split_of(
                direction.spec_axis(),
                equal_fill(children@.len()),
                area,
                parts,
            ) && steps[0] == surface && steps[children@.len() as int] == result && forall|i: int|
                0 <= i < children@.len() ==> drawn(
                    old_children@[i],
                    #[trigger] children@[i],
                    opts,
                    histories,
                    parts[i],
                    steps[i],
                    steps[i + 1],
                ),
        RenderComponent::Render(node) => before matches RenderComponent::Render(old_node)
            && node.id == old_node.id && node.focusable == old_node.focusable && exists|
            props: RenderProps,
        | #[trigger]
            told(props, node.id, opts, histories) && old_node.render.may_draw(
                props,
                surface,
                result,
                area,
            ),
        RenderComponent::Factory(factory) => before matches RenderComponent::Factory(old_factory)
            && match factory.cached() {
            Some(built) => match old_factory.cached() {
                Some(old_built) => drawn(old_built, built, opts, histories, area, surface, result),
                None => exists|fresh: RenderComponent| #[trigger]
                    grown(fresh.shape(), built.shape()) && drawn(
                        fresh,
                        built,
                        opts,
                        histories,
                        area,
                        surface,
                        result,
                    ),
            },
            None => old_factory.cached() is None && result == surface,
        },
    }
}

/// What the leaf `id` is told when it is drawn: whether it has the focus,
/// the frame's event if it has, and the events delivered to it so far.
pub fn leaf_props(id: RenderId, opts: &VRenderProps, component_buffer: &ComponentBuffer) -> (props:
    RenderProps)
    ensures
        props.is_focused == (opts.focused_element == Some(id)),
        props.event == if props.is_focused {
            opts.event
        } else {
            None
        },
        props.event_buffer@ == history_of(component_buffer@, id),
        props.well_formed(),
{
    let is_focused = match opts.focused_element {
        Some(fid) => fid == id,
        None => false,
    };
    RenderProps {
        is_focused,
        event: if is_focused {
            opts.event
        } else {
            None
        },
        event_buffer: component_buffer.get_buffer(&id),
    }
}

impl RenderComponent {
    /// The tree without its behaviours.
    pub open spec fn shape(self) -> Shape
        decreases self,
    {
        match self {
            RenderComponent::Layout(id, direction, children) => Shape::Layout(
                id,
                direction,
                Seq::new(
                    children@.len(),
                    |i: int|
                        if 0 <= i < children@.len() {
                            children@[i].shape()
                        } else {
                            Shape::Factory(None)
                        },
                ),
            ),
            RenderComponent::Render(details) => Shape::Leaf(details.id, details.focusable),
            RenderComponent::Factory(factory) => match factory.cached() {
                Some(built) => Shape::Factory(Some(Box::new(built.shape()))),
                None => Shape::Factory(None),
            },
        }
    }

    /// The leaves of the tree, depth first, as far as they are built: a
    /// factory stands for the leaves of what it has built.
    pub open spec fn leaves(self) -> Seq<RenderNode>
        decreases self, 0nat,
    {
        match self {
            RenderComponent::Layout(_, _, children) => leaves_of(children@, children@.len()),
            RenderComponent::Render(details) => seq![details],
            RenderComponent::Factory(factory) => match factory.cached() {
                Some(built) => built.leaves(),
                None => Seq::empty(),
            },
        }
    }

    /// The shape of a layout node holds the shapes of its children.
    pub proof fn lemma_layout_shape(self)
        requires
            self is Layout,
        ensures
            self.shape() == Shape::Layout(
                self->Layout_0,
                self->Layout_1,
                shapes_of(self->Layout_2@),
            ),
    {
        assert(self.shape()->Layout_2 =~= shapes_of(self->Layout_2@));
    }

    /// A leaf that does not take the focus, made of the behaviour.
    pub fn new<T: Render + 'static>(render_fn: T) -> (component: Self)
        ensures
            component.shape() matches Shape::Leaf(_, focusable) && !focusable,
            component matches RenderComponent::Render(node) && node.holds(render_fn),
    {
        Self::Render(RenderNode::new(false, render_fn))
    }

    /// A leaf that takes the focus, made of the behaviour.
    pub fn new_focusable<T: Render + 'static>(render_fn: T) -> (component: Self)
        ensures
            component.shape() matches Shape::Leaf(_, focusable) && focusable,
            component matches RenderComponent::Render(node) && node.holds(render_fn),
    {
        Self::Render(RenderNode::new(true, render_fn))
    }

    /// A subtree that the factory builds when it is first needed.
    pub fn new_factory<T: RenderFactory + 'static>(render_factory: T) -> (component: Self)
        ensures
            component.shape() == Shape::Factory(None),
    {
        Self::Factory(Box::new(RenderFactoryBox::new(render_factory)))
    }

    pub fn is_focusable(&self) -> (focusable: bool)
        ensures
            focusable == (self.shape() matches Shape::Leaf(_, f) && f),
    {
        match self {
            RenderComponent::Layout(_, _, _) => false,
            RenderComponent::Render(details) => details.focusable,
            RenderComponent::Factory(_) => false,
        }
    }

    /// A node that stacks the children one above the other.
    pub fn column(children: Vec<RenderComponent>) -> (component: Self)
        ensures
            component matches RenderComponent::Layout(_, direction, kept) && direction
                == LayoutDirection::Column && kept == children,
            component.shape() matches Shape::Layout(_, direction, shapes) && direction
                == LayoutDirection::Column && shapes == shapes_of(children@),
    {
        let component = RenderComponent::Layout(RenderId::new(), LayoutDirection::Column, children);
        proof {
            component.lemma_layout_shape();
        }
        component
    }

    /// A node that sets the children side by side.
    pub fn row(children: Vec<RenderComponent>) -> (component: Self)
        ensures
            component matches RenderComponent::Layout(_, direction, kept) && direction
                == LayoutDirection::Row && kept == children,
            component.shape() matches Shape::Layout(_, direction, shapes) && direction
                == LayoutDirection::Row && shapes == shapes_of(children@),
    {
        let component = RenderComponent::Layout(RenderId::new(), LayoutDirection::Row, children);
        proof {
            component.lemma_layout_shape();
        }
        component
    }

    /// Makes the factories of the tree build, with at most `budget` of them
    /// built one inside the other.
    fn realize_within(&mut self, budget: usize)
        ensures
            realized(old(self).shape(), final(self).shape(), budget as nat),
            built_on(*old(self), *final(self)),
        decreases budget, *old(self),
    {
        match self {
            RenderComponent::Layout(_, _, children) => {
                let ghost before = children@;
                let mut i: usize = 0;
                while i < children.len()
                    invariant
                        i <= children.len(),
                        children.len() == before.len(),
                        *old(self) matches RenderComponent::Layout(_, _, v) && v@ == before,
                        forall|j: int| i <= j < before.len() ==> children@[j] == before[j],
                        forall|j: int|
                            0 <= j < i ==> realized(
                                before[j].shape(),
                                #[trigger] children@[j].shape(),
                                budget as nat,
                            ),
                        forall|j: int| 0 <= j < i ==> built_on(before[j], #[trigger] children@[j]),
                    decreases children.len() - i,
                {
                    proof {
                        let v = old(self)->Layout_2;
                        assert(decreases_to!(v => v[i as int]));
                    }
                    children[i].realize_within(budget);
                    i += 1;
                }
                proof {
                    let shapes = self.shape()->Layout_2;
                    let old_shapes = old(self).shape()->Layout_2;
                    assert forall|j: int| 0 <= j < shapes.len() implies realized(
                        old_shapes[j],
                        #[trigger] shapes[j],
                        budget as nat,
                    ) by {
                        assert(shapes[j] == children@[j].shape());
                        assert(old_shapes[j] == before[j].shape());
                    }
                }
            },
            RenderComponent::Render(_) => {},
            RenderComponent::Factory(factory) => {
                if factory.cached.is_none() {
                    if budget > 0 {
                        let mut built = factory.render.build();
                        let ghost fresh = built.shape();
                        built.realize_within(budget - 1);
                        proof {
                            lemma_realized_has_grown(fresh, built.shape(), (budget - 1) as nat);
                        }
                        factory.cached = Some(built);
                    }
                } else {
                    match &mut factory.cached {
                        Some(built) => built.realize_within(budget_left(budget)),
                        None => {},
                    }
                }
            },
        }
    }

    /// Puts the identifiers of the leaves that take the focus behind `out`,
    /// depth first. No factory is made to build.
    fn collect_ids(&self, out: &mut Vec<RenderId>)
        ensures
            final(out)@ == old(out)@ + focusable_ids(self.shape()),
        decreases self,
    {
        match self {
            RenderComponent::Layout(_, _, children) => {
                let ghost shapes = self.shape()->Layout_2;
                let mut i: usize = 0;
                while i < children.len()
                    invariant
                        i <= children.len(),
                        *self matches RenderComponent::Layout(_, _, v) && v == children,
                        shapes == self.shape()->Layout_2,
                        out@ == old(out)@ + focusable_ids_of(shapes, i as nat),
                    decreases children.len() - i,
                {
                    assert(shapes[i as int] == children@[i as int].shape());
                    children[i].collect_ids(out);
                    assert(out@ =~= old(out)@ + focusable_ids_of(shapes, (i + 1) as nat));
                    i += 1;
                }
            },
            RenderComponent::Render(details) => {
                if details.focusable {
                    out.push(details.id);
                    assert(out@ =~= old(out)@ + seq![details.id]);
                } else {
                    assert(out@ =~= old(out)@ + Seq::<RenderId>::empty());
                }
            },
            RenderComponent::Factory(factory) => match &factory.cached {
                Some(built) => built.collect_ids(out),
                None => {
                    assert(out@ =~= old(out)@ + Seq::<RenderId>::empty());
                },
            },
        }
    }

    /// The identifiers of the leaves that take the focus, depth first. Every
    /// factory is made to build first, so a factory counts with the leaves of
    /// what it built; what was built once is kept and never built again.
    pub fn flatten_ids(&mut self) -> (ids: Vec<RenderId>)
        ensures
            realized(old(self).shape(), final(self).shape(), FACTORY_NESTING_LIMIT as nat),
            built_on(*old(self), *final(self)),
            settled_within(final(self).shape(), FACTORY_NESTING_LIMIT as nat),
            ids@ == focusable_ids(final(self).shape()),
            ids@.len() == focusable_count(final(self).shape()),
    {
        let ghost before = self.shape();
        self.realize_within(FACTORY_NESTING_LIMIT);
        let mut ids: Vec<RenderId> = Vec::new();
        self.collect_ids(&mut ids);
        proof {
            lemma_focusable_ids_len(self.shape());
            lemma_realized_is_settled_within(before, self.shape(), FACTORY_NESTING_LIMIT as nat);
        }
        ids
    }

    /// Looks for the first leaf, depth first, that has the identifier, and
    /// asks its behaviour for its menu. No factory is made to build.
    fn find_menu(&self, target: RenderId) -> (found: Option<Option<Menu>>)
        ensures
            found is Some <==> leaf_ids(self.shape()).contains(target),
            match found {
                Some(menu) => exists|at: int| #[trigger] asked_at(self.leaves(), at, target, menu),
                None => forall|k: int|
                    0 <= k < self.leaves().len() ==> (#[trigger] self.leaves()[k]).id != target,
            },
        decreases self,
    {
        match self {
            RenderComponent::Layout(_, _, children) => {
                let ghost shapes = self.shape()->Layout_2;
                let mut i: usize = 0;
                while i < children.len()
                    invariant
                        i <= children.len(),
                        *self matches RenderComponent::Layout(_, _, v) && v == children,
                        shapes == self.shape()->Layout_2,
                        !leaf_ids_of(shapes, i as nat).contains(target),
                        forall|k: int|
                            0 <= k < leaves_of(children@, i as nat).len() ==> (#[trigger] leaves_of(
                                children@,
                                i as nat,
                            )[k]).id != target,
                    decreases children.len() - i,
                {
                    assert(shapes[i as int] == children@[i as int].shape());
                    let found = children[i].find_menu(target);
                    let ghost so_far = leaves_of(children@, i as nat);
                    let ghost here = children@[i as int].leaves();
                    let ghost upto = leaves_of(children@, (i + 1) as nat);
                    assert(upto == so_far + here);
                    if found.is_some() {
                        proof {
                            lemma_leaf_ids_of_grows(shapes, (i + 1) as nat, shapes.len());
                            let k = choose|k: int|
                                0 <= k < leaf_ids(shapes[i as int]).len() && leaf_ids(
                                    shapes[i as int],
                                )[k] == target;
                            let ids_upto = leaf_ids_of(shapes, (i + 1) as nat);
                            assert(ids_upto[leaf_ids_of(shapes, i as nat).len() + k] == target);

                            let menu = found->0;
                            let at = choose|at: int| #[trigger] asked_at(here, at, target, menu);
                            let all = self.leaves();
                            lemma_leaves_of_grows(children@, (i + 1) as nat, children@.len());
                            let place = so_far.len() + at;
                            assert(upto[place] == here[at]);
                            assert(all[place] == upto[place]);
                            assert forall|j: int| 0 <= j < place implies (#[trigger] all[j]).id
                                != target by {
                                assert(all[j] == upto[j]);
                                if j < so_far.len() {
                                    assert(upto[j] == so_far[j]);
                                } else {
                                    assert(upto[j] == here[j - so_far.len()]);
                                }
                            }
                            assert(asked_at(all, place, target, menu));
                        }
                        return found;
                    }
                    proof {
                        let ids_here = leaf_ids(shapes[i as int]);
                        let ids_so_far = leaf_ids_of(shapes, i as nat);
                        assert forall|k: int| 0 <= k < (ids_so_far + ids_here).len() implies (
                        ids_so_far + ids_here)[k] != target by {
                            if k < ids_so_far.len() {
                                assert(ids_so_far[k] != target);
                            } else {
                                assert(ids_here[k - ids_so_far.len()] != target);
                            }
                        }
                        assert forall|k: int| 0 <= k < upto.len() implies (#[trigger] upto[k]).id
                            != target by {
                            if k < so_far.len() {
                                assert(upto[k] == so_far[k]);
                            } else {
                                assert(upto[k] == here[k - so_far.len()]);
                            }
                        }
                    }
                    i += 1;
                }
                assert(self.leaves() == leaves_of(children@, children@.len()));
                None
            },
            RenderComponent::Render(details) => {
                if details.id == target {
                    assert(seq![details.id][0] == target);
                    let menu = details.render.get_menu();
                    assert(asked_at(self.leaves(), 0, target, menu));
                    Some(menu)
                } else {
                    None
                }
            },
            RenderComponent::Factory(factory) => match &factory.cached {
                Some(built) => {
                    let found = built.find_menu(target);
                    assert(self.leaves() == built.leaves());
                    found
                },
                None => None,
            },
        }
    }

    /// The menu that the leaf with the identifier offers: the first such
    /// leaf, depth first, is asked. No factory is made to build for it: a
    /// leaf that is not built yet has no identifier to ask for. Where the
    /// tree has no leaf with the identifier, there is no menu.
    pub fn menu_of_leaf(&self, target: RenderId) -> (menu: Option<Menu>)
        ensures
            !leaf_ids(self.shape()).contains(target) ==> menu is None,
            menu is Some ==> exists|at: int| #[trigger]
                asked_at(self.leaves(), at, target, menu),
    {
        match self.find_menu(target) {
            Some(menu) => menu,
            None => None,
        }
    }

    /// Calls `f` on the leaves, depth first, until it answers `false` or
    /// the leaves are used up, with at most `budget` factories built one
    /// inside the other.
    fn visit_within<F: FnMut(&RenderNode) -> bool>(&mut self, budget: usize, f: &mut F) -> (proceed:
        bool)
        requires
            forall|node: &RenderNode| call_requires(*old(f), (node,)),
        ensures
            forall|node: &RenderNode| call_requires(*final(f), (node,)),
            grown(old(self).shape(), final(self).shape()),
            built_on(*old(self), *final(self)),
            proceed ==> realized(old(self).shape(), final(self).shape(), budget as nat),
            proceed ==> went_through::<F>(final(self).leaves()),
            !proceed ==> exists|stop: int| stopped_at::<F>(final(self).leaves(), stop),
        decreases budget, *old(self),
    {
        match self {
            RenderComponent::Layout(_, _, children) => {
                let ghost before = children@;
                let mut i: usize = 0;
                let mut proceed = true;
                while proceed && i < children.len()
                    invariant
                        i <= children.len(),
                        children.len() == before.len(),
                        forall|node: &RenderNode| call_requires(*f, (node,)),
                        *old(self) matches RenderComponent::Layout(_, _, v) && v@ == before,
                        forall|j: int| i <= j < before.len() ==> children@[j] == before[j],
                        forall|j: int|
                            0 <= j < i ==> grown(
                                before[j].shape(),
                                #[trigger] children@[j].shape(),
                            ),
                        forall|j: int| 0 <= j < i ==> built_on(before[j], #[trigger] children@[j]),
                        proceed ==> forall|j: int|
                            0 <= j < i ==> realized(
                                before[j].shape(),
                                #[trigger] children@[j].shape(),
                                budget as nat,
                            ),
                        proceed ==> went_through::<F>(leaves_of(children@, i as nat)),
                        !proceed ==> exists|stop: int|
                            stopped_at::<F>(leaves_of(children@, i as nat), stop),
                    decreases children.len() - i,
                {
                    proof {
                        let v = old(self)->Layout_2;
                        assert(decreases_to!(v => v[i as int]));
                    }
                    let ghost earlier = children@;
                    proceed = children[i].visit_within(budget, f);
                    proof {
                        let so_far = leaves_of(earlier, i as nat);
                        let here = children@[i as int].leaves();
                        lemma_leaves_of_prefix(earlier, children@, i as nat);
                        let upto = leaves_of(children@, (i + 1) as nat);
                        assert(upto == so_far + here);
                        if proceed {
                            assert forall|j: int| 0 <= j < upto.len() implies answered::<F>(
                                #[trigger] upto[j],
                                true,
                            ) by {
                                if j < so_far.len() {
                                    assert(upto[j] == so_far[j]);
                                } else {
                                    assert(upto[j] == here[j - so_far.len()]);
                                }
                            }
                        } else {
                            let stop = choose|stop: int| stopped_at::<F>(here, stop);
                            let at = so_far.len() + stop;
                            assert(upto[at] == here[stop]);
                            assert forall|j: int| 0 <= j < at implies answered::<F>(
                                #[trigger] upto[j],
                                true,
                            ) by {
                                if j < so_far.len() {
                                    assert(upto[j] == so_far[j]);
                                } else {
                                    assert(upto[j] == here[j - so_far.len()]);
                                }
                            }
                            assert(stopped_at::<F>(upto, at));
                        }
                    }
                    i += 1;
                }
                proof {
                    let all = leaves_of(children@, children@.len());
                    let seen = leaves_of(children@, i as nat);
                    lemma_leaves_of_grows(children@, i as nat, children@.len());
                    if !proceed {
                        let stop = choose|stop: int| stopped_at::<F>(seen, stop);
                        assert(all[stop] == seen[stop]);
                        assert forall|j: int| 0 <= j < stop implies answered::<F>(
                            #[trigger] all[j],
                            true,
                        ) by {
                            assert(all[j] == seen[j]);
                        }
                        assert(stopped_at::<F>(all, stop));
                    }
                }
                proof {
                    let shapes = self.shape()->Layout_2;
                    let old_shapes = old(self).shape()->Layout_2;
                    assert forall|j: int| 0 <= j < shapes.len() implies grown(
                        old_shapes[j],
                        #[trigger] shapes[j],
                    ) by {
                        assert(shapes[j] == children@[j].shape());
                        assert(old_shapes[j] == before[j].shape());
                        if j >= i {
                            lemma_grown_reflexive(shapes[j]);
                        }
                    }
                    if proceed {
                        assert forall|j: int| 0 <= j < shapes.len() implies realized(
                            old_shapes[j],
                            #[trigger] shapes[j],
                            budget as nat,
                        ) by {
                            assert(shapes[j] == children@[j].shape());
                            assert(old_shapes[j] == before[j].shape());
                        }
                    }
                }
                assert(built_on(*old(self), *self)) by {
                    assert forall|j: int| 0 <= j < children@.len() implies built_on(
                        before[j],
                        #[trigger] children@[j],
                    ) by {
                        if j >= i {
                            lemma_built_on_reflexive(children@[j]);
                        }
                    }
                }
                proceed
            },
            RenderComponent::Render(details) => {
                let ghost g = *f;
                let proceed = f(details);
                proof {
                    assert(call_ensures(g, (&*details,), proceed));
                    assert(answered::<F>(*details, proceed));
                    assert(self.leaves()[0] == *details);
                    if !proceed {
                        assert(stopped_at::<F>(self.leaves(), 0));
                    }
                }
                proceed
            },
            RenderComponent::Factory(factory) => {
                if factory.cached.is_none() {
                    if budget > 0 {
                        let mut built = factory.render.build();
                        let ghost fresh = built.shape();
                        let proceed = built.visit_within(budget - 1, f);
                        let ghost walked = built.leaves();
                        factory.cached = Some(built);
                        assert(self.leaves() == walked);
                        proceed
                    } else {
                        true
                    }
                } else {
                    let proceed = match &mut factory.cached {
                        Some(built) => built.visit_within(budget_left(budget), f),
                        None => true,
                    };
                    assert(self.leaves() == self->Factory_0.cached()->0.leaves());
                    proceed
                }
            },
        }
    }

    /// Calls `f` on every leaf, depth first, for as long as it answers
    /// `true`; the first `false` ends the walk and is the result. A factory
    /// that the walk reaches is made to build, and what it built is walked
    /// in its place.
    pub fn visit<F: FnMut(&RenderNode) -> bool>(&mut self, f: &mut F) -> (proceed: bool)
        requires
            forall|node: &RenderNode| call_requires(*old(f), (node,)),
        ensures
            grown(old(self).shape(), final(self).shape()),
            built_on(*old(self), *final(self)),
            proceed ==> realized(
                old(self).shape(),
                final(self).shape(),
                FACTORY_NESTING_LIMIT as nat,
            ),
            proceed ==> went_through::<F>(final(self).leaves()),
            !proceed ==> exists|stop: int| stopped_at::<F>(final(self).leaves(), stop),
            forall|node: &RenderNode| call_requires(*final(f), (node,)),
    {
        self.visit_within(FACTORY_NESTING_LIMIT, f)
    }

    /// Draws the tree on `area`, with at most `budget` factories built one
    /// inside the other.
    fn render_within(
        &mut self,
        budget: usize,
        opts: &VRenderProps,
        component_buffer: &ComponentBuffer,
        buff: &mut Buffer,
        area: Rect,
    )
        ensures
            realized(old(self).shape(), final(self).shape(), budget as nat),
            drawn(
                *old(self),
                *final(self),
                *opts,
                component_buffer@,
                area,
                *old(buff),
                *final(buff),
            ),
        decreases budget, *old(self),
    {
        match self {
            RenderComponent::Layout(_, direction, children) => {
                let parts = split_equal(direction.axis(), children.len(), area);
                let ghost before = children@;
                let ghost mut steps: Seq<Buffer> = seq![*buff];
                let mut i: usize = 0;
                while i < children.len()
                    invariant
                        i <= children.len(),
                        children.len() == before.len(),
                        parts.len() == before.len(),
                        *old(self) matches RenderComponent::Layout(_, _, v) && v@ == before,
                        forall|j: int| i <= j < before.len() ==> children@[j] == before[j],
                        forall|j: int|
                            0 <= j < i ==> realized(
                                before[j].shape(),
                                #[trigger] children@[j].shape(),
                                budget as nat,
                            ),
                        steps.len() == i + 1,
                        steps[0] == *old(buff),
                        steps[i as int] == *buff,
                        forall|j: int|
                            0 <= j < i ==> drawn(
                                before[j],
                                #[trigger] children@[j],
                                *opts,
                                component_buffer@,
                                parts@[j],
                                steps[j],
                                steps[j + 1],
                            ),
                    decreases children.len() - i,
                {
                    proof {
                        let v = old(self)->Layout_2;
                        assert(decreases_to!(v => v[i as int]));
                    }
                    children[i].render_within(budget, opts, component_buffer, buff, parts[i]);
                    proof {
                        steps = steps.push(*buff);
                    }
                    i += 1;
                }
                proof {
                    let shapes = self.shape()->Layout_2;
                    let old_shapes = old(self).shape()->Layout_2;
                    assert forall|j: int| 0 <= j < shapes.len() implies realized(
                        old_shapes[j],
                        #[trigger] shapes[j],
                        budget as nat,
                    ) by {
                        assert(shapes[j] == children@[j].shape());
                        assert(old_shapes[j] == before[j].shape());
                    }
                    assert(chained(parts@, steps));
                }
            },
            RenderComponent::Render(details) => {
                let props = leaf_props(details.id, opts, component_buffer);
                details.render.render(&props, buff, area);
                assert(told(props, details.id, *opts, component_buffer@));
            },
            RenderComponent::Factory(factory) => {
                if factory.cached.is_none() {
                    if budget > 0 {
                        let mut built = factory.render.build();
                        let ghost fresh = built;
                        built.render_within(budget - 1, opts, component_buffer, buff, area);
                        proof {
                            lemma_realized_has_grown(
                                fresh.shape(),
                                built.shape(),
                                (budget - 1) as nat,
                            );
                        }
                        factory.cached = Some(built);
                    }
                } else {
                    match &mut factory.cached {
                        Some(built) => built.render_within(
                            budget_left(budget),
                            opts,
                            component_buffer,
                            buff,
                            area,
                        ),
                        None => {},
                    }
                }
            },
        }
    }
}

impl<T: Render + 'static> From<T> for RenderComponent {
    /// A leaf made of the behaviour, which takes the focus if the behaviour
    /// says so.
    fn from(value: T) -> (component: Self)
        ensures
            component.shape() is Leaf,
            component matches RenderComponent::Render(node) && node.holds(value),
    {
        let focusable = value.is_focusable();
        Self::Render(RenderNode::new(focusable, value))
    }
}

impl<T: Render + 'static> vstd::std_specs::convert::FromSpecImpl<T> for RenderComponent {
    open spec fn obeys_from_spec() -> bool {
        false
    }

    open spec fn from_spec(v: T) -> Self {
        arbitrary()
    }
}

/// What drives a loop of frames by hand: for each frame an event and who has
/// the focus.
pub trait LoopManager<'a>: Iterator<Item = (Option<InputEvent>, Option<RenderId>)> {}

pub trait Greet {
    fn greet(&self) -> String;
}

/// What can be drawn as part of a frame.
pub trait RenderFlow {
    /// Whether there is something to draw.
    open spec fn renderable(&self) -> bool {
        true
    }

    fn render(
        &mut self,
        opts: &VRenderProps,
        component_buffer: &mut ComponentBuffer,
        buff: &mut Buffer,
        area: Rect,
    )
        requires
            old(self).renderable(),
    ;

    fn get_focusable_elements(&mut self) -> Vec<RenderId>
        requires
            old(self).renderable(),
    ;

    fn get_menu(&self) -> Option<Menu> {
        None
    }
}

impl RenderFlow for RenderComponent {
    /// Draws the tree on `area`. A layout node cuts its rectangle into one
    /// part of equal weight for each child, along its axis, and hands the
    /// parts to the children in order; a leaf draws itself with what
    /// `leaf_props` tells it; a factory builds if it has not yet, and what it
    /// built is drawn in its place.
    fn render(
        &mut self,
        opts: &VRenderProps,
        component_buffer: &mut ComponentBuffer,
        buff: &mut Buffer,
        area: Rect,
    )
        ensures
            realized(old(self).shape(), final(self).shape(), FACTORY_NESTING_LIMIT as nat),
            drawn(
                *old(self),
                *final(self),
                *opts,
                old(component_buffer)@,
                area,
                *old(buff),
                *final(buff),
            ),
            final(component_buffer)@ == old(component_buffer)@,
    {
        self.render_within(FACTORY_NESTING_LIMIT, opts, component_buffer, buff, area);
    }

    fn get_focusable_elements(&mut self) -> (ids: Vec<RenderId>)
        ensures
            realized(old(self).shape(), final(self).shape(), FACTORY_NESTING_LIMIT as nat),
            built_on(*old(self), *final(self)),
            ids@ == focusable_ids(final(self).shape()),
    {
        self.flatten_ids()
    }
}

} // verus!
