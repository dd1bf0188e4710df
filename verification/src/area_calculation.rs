//! From a component tree to the rectangle of each of its leaves: the cuts on
//! the way from the root to a leaf are written down once, and followed again
//! whenever the rectangle is asked for.

use crate::component::{LayoutDirection, RenderComponent};
use crate::geometry::{equal_fill, split_equal, split_of, Direction, Position, Rect};
use crate::id::RenderId;
use crate::shape::{grown, Shape};
use vstd::prelude::*;

verus! {

/// One cut on the way from the root to a leaf: the rectangle is cut along
/// `direction` into `parts` parts of equal weight, and the way goes on in
/// part `index`.
#[derive(Debug, Clone, Copy, PartialEq, Eq, Structural)]
pub struct AreaStep {
    pub direction: Direction,
    pub parts: usize,
    pub index: usize,
}

/// A cut as a plain value.
pub struct Cut {
    pub direction: Direction,
    pub parts: nat,
    pub index: nat,
}

impl View for AreaStep {
    type V = Cut;

    open spec fn view(&self) -> Cut {
        Cut { direction: self.direction, parts: self.parts as nat, index: self.index as nat }
    }
}

/// Whether every cut of the way goes on in one of its own parts.
pub open spec fn steps_valid(steps: Seq<AreaStep>) -> bool {
    forall|i: int| 0 <= i < steps.len() ==> (#[trigger] steps[i]).index < steps[i].parts
}

/// The cuts as plain values.
pub open spec fn cuts_of(steps: Seq<AreaStep>) -> Seq<Cut> {
    Seq::new(steps.len(), |i: int| steps[i]@)
}

/// Whether `area` is a rectangle that the cuts can lead to from `overall`:
/// each cut is a split of the rectangle before it into parts of equal
/// weight, of which the part at the cut's index is taken.
pub open spec fn follows(overall: Rect, cuts: Seq<Cut>, area: Rect) -> bool
    decreases cuts.len(),
{
    if cuts.len() == 0 {
        area == overall
    } else {
        let cut = cuts.last();
        exists|before: Rect, parts: Seq<Rect>| #[trigger]
            taken(before, parts, cut, area) && follows(overall, cuts.drop_last(), before)
    }
}

/// Whether `area` is the part that the cut takes of `parts`, a split of
/// `before`.
pub open spec fn taken(before: Rect, parts: Seq<Rect>, cut: Cut, area: Rect) -> bool {
    &&& split_of(cut.direction, equal_fill(cut.parts), before, parts)
    &&& cut.index < parts.len()
    &&& area == parts[cut.index as int]
}

/// A rectangle that cuts lead to lies inside the rectangle that they start
/// from.
pub proof fn lemma_follows_stays_inside(overall: Rect, cuts: Seq<Cut>, area: Rect)
    requires
        follows(overall, cuts, area),
    ensures
        area.within(overall),
    decreases cuts.len(),
{
    if cuts.len() > 0 {
        let cut = cuts.last();
        let (before, parts) = choose|before: Rect, parts: Seq<Rect>| #[trigger]
            taken(before, parts, cut, area) && follows(overall, cuts.drop_last(), before);
        lemma_follows_stays_inside(overall, cuts.drop_last(), before);
        crate::geometry::lemma_split_parts_disjoint_in_order(
            cut.direction,
            equal_fill(cut.parts),
            before,
            parts,
        );
    }
}

/// The cuts that lead from an overall rectangle to the rectangle of one
/// leaf.
pub struct AreaCalculator {
    steps: Vec<AreaStep>,
}

impl View for AreaCalculator {
    type V = Seq<Cut>;

    closed spec fn view(&self) -> Seq<Cut> {
        cuts_of(self.steps@)
    }
}

impl AreaCalculator {
    #[verifier::type_invariant]
    spec fn every_step_valid(self) -> bool {
        steps_valid(self.steps@)
    }

    fn new(steps: Vec<AreaStep>) -> (calculator: Self)
        requires
            steps_valid(steps@),
        ensures
            calculator@ == cuts_of(steps@),
    {
        AreaCalculator { steps }
    }

    /// The rectangle that the cuts lead to from `overall`. Each cut is made
    /// anew, so the sizes are what the layout solver gives this time; the
    /// rectangle always lies inside `overall`, and without a cut it is
    /// `overall`.
    pub fn area(&self, overall: Rect) -> (area: Rect)
        ensures
            follows(overall, self@, area),
            area.within(overall),
    {
        proof {
            use_type_invariant(self);
        }
        let mut current = overall;
        let mut i: usize = 0;
        while i < self.steps.len()
            invariant
                i <= self.steps.len(),
                steps_valid(self.steps@),
                follows(overall, self@.take(i as int), current),
            decreases self.steps.len() - i,
        {
            let step = self.steps[i];
            let parts = split_equal(step.direction, step.parts, current);
            let ghost before = current;
            current = parts[step.index];
            proof {
                let cuts = self@.take(i + 1);
                assert(cuts.last() == step@);
                assert(cuts.drop_last() =~= self@.take(i as int));
                assert(taken(before, parts@, step@, current));
            }
            i += 1;
        }
        proof {
            assert(self@.take(i as int) =~= self@);
            lemma_follows_stays_inside(overall, self@, current);
        }
        current
    }
}

pub type AreaCalculatorById = Vec<(RenderId, AreaCalculator)>;

/// For each leaf of a tree that no factory stands above, its identifier and
/// the cuts that lead to its rectangle.
pub struct UnrolledComponents(pub(crate) AreaCalculatorById);

impl View for UnrolledComponents {
    type V = Seq<(RenderId, Seq<Cut>)>;

    closed spec fn view(&self) -> Seq<(RenderId, Seq<Cut>)> {
        table_view(self.0@)
    }
}

/// The entries of a table as plain values.
pub open spec fn table_view(table: Seq<(RenderId, AreaCalculator)>) -> Seq<(RenderId, Seq<Cut>)> {
    Seq::new(table.len(), |i: int| (table[i].0, table[i].1@))
}

/// The cut that a layout node with `parts` children makes for its child
/// `index`.
pub open spec fn step_to(direction: LayoutDirection, parts: nat, index: nat) -> Cut {
    Cut { direction: direction.spec_axis(), parts, index }
}

/// The leaves of the tree, depth first, each with the cuts that lead to it,
/// behind the cuts of `prefix`. What a factory has built or will build is
/// left out.
pub open spec fn unrolled(shape: Shape, prefix: Seq<Cut>) -> Seq<(RenderId, Seq<Cut>)>
    decreases shape, 0nat,
{
    match shape {
        Shape::Layout(_, direction, children) => unrolled_of(
            children,
            direction,
            prefix,
            children.len(),
        ),
        Shape::Leaf(id, _) => seq![(id, prefix)],
        Shape::Factory(_) => Seq::empty(),
    }
}

/// The leaves of the first `count` children of a layout node, depth first,
/// each with the cuts that lead to it.
pub open spec fn unrolled_of(
    children: Seq<Shape>,
    direction: LayoutDirection,
    prefix: Seq<Cut>,
    count: nat,
) -> Seq<(RenderId, Seq<Cut>)>
    decreases children, count,
{
    if count == 0 || count > children.len() {
        Seq::empty()
    } else {
        unrolled_of(children, direction, prefix, (count - 1) as nat) + unrolled(
            children[count - 1],
            prefix.push(step_to(direction, children.len(), (count - 1) as nat)),
        )
    }
}

/// The leaf that the cuts lead to in the tree: at every layout node the cut
/// must be the one that the node makes when it is drawn, along the node's
/// axis and into as many parts as the node has children, and the way goes on
/// in the child of that index. A way that ends anywhere but on a leaf, or
/// that does not fit the tree, leads nowhere.
pub open spec fn leaf_at(shape: Shape, steps: Seq<Cut>) -> Option<RenderId>
    decreases steps.len(),
{
    match shape {
        Shape::Leaf(id, _) => if steps.len() == 0 {
            Some(id)
        } else {
            None
        },
        Shape::Layout(_, direction, children) => if steps.len() > 0 && steps[0].index
            < children.len() && steps[0] == step_to(
            direction,
            children.len(),
            steps[0].index,
        ) {
            leaf_at(children[steps[0].index as int], steps.skip(1))
        } else {
            None
        },
        Shape::Factory(_) => None,
    }
}

/// Copies the cuts and puts one more behind them.
fn extended(prefix: &Vec<AreaStep>, step: AreaStep) -> (steps: Vec<AreaStep>)
    ensures
        steps@ == prefix@.push(step),
{
    let mut steps = prefix.clone();
    assert(steps@ =~= prefix@);
    steps.push(step);
    steps
}

/// Puts the leaves of the tree behind `ops`, depth first, each with the cuts
/// that lead to it behind those of `prefix`.
fn unroll_into(c: &RenderComponent, prefix: Vec<AreaStep>, ops: &mut AreaCalculatorById)
    requires
        steps_valid(prefix@),
    ensures
        table_view(final(ops)@) == table_view(old(ops)@) + unrolled(c.shape(), cuts_of(prefix@)),
    decreases c,
{
    match c {
        RenderComponent::Layout(_, direction, children) => {
            let ghost shapes = c.shape()->Layout_2;
            let mut i: usize = 0;
            while i < children.len()
                invariant
                    i <= children.len(),
                    steps_valid(prefix@),
                    *c matches RenderComponent::Layout(_, d, v) && v == children && d == direction,
                    shapes == c.shape()->Layout_2,
                    table_view(ops@) == table_view(old(ops)@) + unrolled_of(
                        shapes,
                        *direction,
                        cuts_of(prefix@),
                        i as nat,
                    ),
                decreases children.len() - i,
            {
                assert(shapes[i as int] == children@[i as int].shape());
                let step = AreaStep { direction: direction.axis(), parts: children.len(), index: i };
                assert(step@ == step_to(*direction, shapes.len(), i as nat));
                let longer = extended(&prefix, step);
                assert(cuts_of(longer@) =~= cuts_of(prefix@).push(step@));
                unroll_into(&children[i], longer, ops);
                assert(table_view(ops@) =~= table_view(old(ops)@) + unrolled_of(
                    shapes,
                    *direction,
                    cuts_of(prefix@),
                    (i + 1) as nat,
                ));
                i += 1;
            }
        },
        RenderComponent::Render(details) => {
            let ghost cuts = cuts_of(prefix@);
            ops.push((details.id, AreaCalculator::new(prefix)));
            assert(table_view(ops@) =~= table_view(old(ops)@) + seq![(details.id, cuts)]);
        },
        RenderComponent::Factory(_) => {
            assert(table_view(ops@) =~= table_view(old(ops)@) + Seq::<
                (RenderId, Seq<Cut>),
            >::empty());
        },
    }
}

/// Writes down, for each leaf of the tree, the cuts that lead from the
/// tree's rectangle to the leaf's: the leaves come depth first, and what
/// stands under a factory is left out.
pub fn unroll(c: &RenderComponent) -> (table: UnrolledComponents)
    ensures
        table@ == unrolled(c.shape(), Seq::empty()),
{
    let mut ops: AreaCalculatorById = Vec::new();
    let start: Vec<AreaStep> = Vec::new();
    assert(cuts_of(start@) =~= Seq::<Cut>::empty());
    unroll_into(c, start, &mut ops);
    assert(table_view(ops@) =~= unrolled(c.shape(), Seq::empty()));
    UnrolledComponents(ops)
}

/// The identifiers of the first `count` entries whose rectangle covers the
/// position, in the order of the entries.
pub open spec fn hits(
    ids: Seq<RenderId>,
    areas: Seq<Rect>,
    position: Position,
    count: nat,
) -> Seq<RenderId>
    decreases count,
{
    if count == 0 || count > ids.len() || count > areas.len() {
        Seq::empty()
    } else if areas[count - 1].covers(position) {
        hits(ids, areas, position, (count - 1) as nat).push(ids[count - 1])
    } else {
        hits(ids, areas, position, (count - 1) as nat)
    }
}

/// The identifiers of a table, in the order of its entries.
pub open spec fn ids_of(table: Seq<(RenderId, Seq<Cut>)>) -> Seq<RenderId> {
    Seq::new(table.len(), |i: int| table[i].0)
}

/// The identifiers that the references point to.
pub open spec fn pointed_ids(found: Seq<&RenderId>) -> Seq<RenderId> {
    Seq::new(found.len(), |i: int| *found[i])
}

/// Whether `found` holds what a table gives for a position when `areas` are
/// the rectangles of its entries: every rectangle is one that the entry's
/// cuts lead to from `overall`, and
/// `found` holds the identifiers of the entries whose rectangle covers the
/// position, in the order of the entries.
pub open spec fn found_with(
    table: Seq<(RenderId, Seq<Cut>)>,
    areas: Seq<Rect>,
    overall: Rect,
    position: Position,
    found: Seq<RenderId>,
) -> bool {
    &&& areas.len() == table.len()
    &&& forall|i: int| 0 <= i < areas.len() ==> follows(overall, table[i].1, #[trigger] areas[i])
    &&& found == hits(ids_of(table), areas, position, table.len())
}

impl UnrolledComponents {
    /// The number of entries.
    pub fn len(&self) -> (len: usize)
        ensures
            len == self@.len(),
    {
        self.0.len()
    }

    /// The identifier of the entry at the position.
    pub fn id_at(&self, index: usize) -> (id: RenderId)
        requires
            index < self@.len(),
        ensures
            id == self@[index as int].0,
    {
        self.0[index].0
    }

    /// The rectangle of every leaf when the tree is given `overall`, in the
    /// order of the entries. Every rectangle lies inside `overall`.
    pub fn areas(&self, overall: Rect) -> (areas: Vec<Rect>)
        ensures
            areas@.len() == self@.len(),
            forall|i: int|
                0 <= i < areas@.len() ==> follows(overall, self@[i].1, #[trigger] areas@[i]),
            forall|i: int| 0 <= i < areas@.len() ==> (#[trigger] areas@[i]).within(overall),
    {
        let mut areas: Vec<Rect> = Vec::new();
        let mut i: usize = 0;
        while i < self.0.len()
            invariant
                i <= self.0.len(),
                areas@.len() == i,
                forall|k: int|
                    0 <= k < areas@.len() ==> follows(overall, self@[k].1, #[trigger] areas@[k]),
                forall|k: int| 0 <= k < areas@.len() ==> (#[trigger] areas@[k]).within(overall),
            decreases self.0.len() - i,
        {
            areas.push(self.0[i].1.area(overall));
            i += 1;
        }
        areas
    }

    /// The identifiers of the entries whose rectangle covers the position, in
    /// the order of the entries, where `areas` holds the rectangle of each
    /// entry.
    pub fn containing<'a>(&'a self, areas: &Vec<Rect>, position: Position) -> (found: Vec<
        &'a RenderId,
    >)
        requires
            areas@.len() == self@.len(),
        ensures
            pointed_ids(found@) == hits(ids_of(self@), areas@, position, self@.len()),
    {
        let mut found: Vec<&RenderId> = Vec::new();
        let mut i: usize = 0;
        while i < self.0.len()
            invariant
                i <= self.0.len(),
                areas@.len() == self@.len(),
                found@.len() == hits(ids_of(self@), areas@, position, i as nat).len(),
                forall|k: int|
                    0 <= k < found@.len() ==> *(#[trigger] found@[k]) == hits(
                        ids_of(self@),
                        areas@,
                        position,
                        i as nat,
                    )[k],
            decreases self.0.len() - i,
        {
            if areas[i].contains(position) {
                found.push(&self.0[i].0);
            }
            i += 1;
        }
        assert(pointed_ids(found@) =~= hits(ids_of(self@), areas@, position, self@.len()));
        found
    }
}

/// The rectangle that the cuts lead to from `overall` when `splitter` says
/// how a rectangle is split: along a direction, into a number of parts of
/// equal weight.
pub open spec fn area_by(
    splitter: spec_fn(Direction, nat, Rect) -> Seq<Rect>,
    overall: Rect,
    cuts: Seq<Cut>,
) -> Rect
    decreases cuts.len(),
{
    if cuts.len() == 0 {
        overall
    } else {
        let cut = cuts.last();
        splitter(cut.direction, cut.parts, area_by(splitter, overall, cuts.drop_last()))[cut.index as int]
    }
}

/// The rectangle that each leaf is handed when the tree is drawn on `area`
/// and `splitter` says how a rectangle is split, depth first: a layout node
/// splits its rectangle along its axis into one part for each child and
/// hands part `i` to child `i`. The leaves under a factory are left out.
pub open spec fn drawn_by(
    splitter: spec_fn(Direction, nat, Rect) -> Seq<Rect>,
    shape: Shape,
    area: Rect,
) -> Seq<(RenderId, Rect)>
    decreases shape, 0nat,
{
    match shape {
        Shape::Layout(_, direction, children) => drawn_of(
            splitter,
            children,
            direction,
            area,
            children.len(),
        ),
        Shape::Leaf(id, _) => seq![(id, area)],
        Shape::Factory(_) => Seq::empty(),
    }
}

/// The rectangle that each leaf of the first `count` children of a layout
/// node is handed when the node is drawn on `area`.
pub open spec fn drawn_of(
    splitter: spec_fn(Direction, nat, Rect) -> Seq<Rect>,
    children: Seq<Shape>,
    direction: LayoutDirection,
    area: Rect,
    count: nat,
) -> Seq<(RenderId, Rect)>
    decreases children, count,
{
    if count == 0 || count > children.len() {
        Seq::empty()
    } else {
        drawn_of(splitter, children, direction, area, (count - 1) as nat) + drawn_by(
            splitter,
            children[count - 1],
            splitter(direction.spec_axis(), children.len(), area)[count - 1],
        )
    }
}

/// However a rectangle is split, as long as the same rectangle is always
/// split the same way: following the cuts that unrolling wrote down for a
/// leaf leads to the very rectangle that the leaf is handed when the tree is
/// drawn. Entry by entry, the table holds the leaves in the order in which
/// they are drawn, each with its identifier.
pub proof fn lemma_table_reproduces_drawn_areas(
    splitter: spec_fn(Direction, nat, Rect) -> Seq<Rect>,
    shape: Shape,
    overall: Rect,
    prefix: Seq<Cut>,
)
    ensures
        unrolled(shape, prefix).len() == drawn_by(
            splitter,
            shape,
            area_by(splitter, overall, prefix),
        ).len(),
        forall|k: int|
            0 <= k < unrolled(shape, prefix).len() ==> drawn_by(
                splitter,
                shape,
                area_by(splitter, overall, prefix),
            )[k] == (
                (#[trigger] unrolled(shape, prefix)[k]).0,
                area_by(splitter, overall, unrolled(shape, prefix)[k].1),
            ),
    decreases shape, 0nat,
{
    match shape {
        Shape::Layout(_, direction, children) => {
            lemma_table_of_reproduces_drawn_areas(
                splitter,
                children,
                direction,
                overall,
                prefix,
                children.len(),
            );
        },
        Shape::Leaf(_, _) => {},
        Shape::Factory(_) => {},
    }
}

pub proof fn lemma_table_of_reproduces_drawn_areas(
    splitter: spec_fn(Direction, nat, Rect) -> Seq<Rect>,
    children: Seq<Shape>,
    direction: LayoutDirection,
    overall: Rect,
    prefix: Seq<Cut>,
    count: nat,
)
    requires
        count <= children.len(),
    ensures
        unrolled_of(children, direction, prefix, count).len() == drawn_of(
            splitter,
            children,
            direction,
            area_by(splitter, overall, prefix),
            count,
        ).len(),
        forall|k: int|
            0 <= k < unrolled_of(children, direction, prefix, count).len() ==> drawn_of(
                splitter,
                children,
                direction,
                area_by(splitter, overall, prefix),
                count,
            )[k] == (
                (#[trigger] unrolled_of(children, direction, prefix, count)[k]).0,
                area_by(splitter, overall, unrolled_of(children, direction, prefix, count)[k].1),
            ),
    decreases children, count,
{
    if count > 0 {
        lemma_table_of_reproduces_drawn_areas(
            splitter,
            children,
            direction,
            overall,
            prefix,
            (count - 1) as nat,
        );
        let cut = step_to(direction, children.len(), (count - 1) as nat);
        let longer = prefix.push(cut);
        assert(longer.drop_last() =~= prefix);
        lemma_table_reproduces_drawn_areas(splitter, children[count - 1], overall, longer);
    }
}

/// Where every split that `splitter` makes is one that the layout may give,
/// the rectangle that the cuts lead to by `splitter` is one that the cuts can
/// lead to.
pub proof fn lemma_area_by_follows(
    splitter: spec_fn(Direction, nat, Rect) -> Seq<Rect>,
    overall: Rect,
    cuts: Seq<Cut>,
)
    requires
        forall|direction: Direction, parts: nat, area: Rect|
            split_of(
                direction,
                equal_fill(parts),
                area,
                #[trigger] splitter(direction, parts, area),
            ),
        forall|i: int| 0 <= i < cuts.len() ==> (#[trigger] cuts[i]).index < cuts[i].parts,
    ensures
        follows(overall, cuts, area_by(splitter, overall, cuts)),
    decreases cuts.len(),
{
    if cuts.len() > 0 {
        let cut = cuts.last();
        let shorter = cuts.drop_last();
        lemma_area_by_follows(splitter, overall, shorter);
        let before = area_by(splitter, overall, shorter);
        let parts = splitter(cut.direction, cut.parts, before);
        assert(taken(before, parts, cut, area_by(splitter, overall, cuts)));
    }
}

/// What unrolling writes down does not change when factories build, for what
/// stands under a factory is left out.
pub proof fn lemma_unrolled_ignores_growth(before: Shape, after: Shape, prefix: Seq<Cut>)
    requires
        grown(before, after),
    ensures
        unrolled(before, prefix) == unrolled(after, prefix),
    decreases after, 0nat,
{
    match after {
        Shape::Layout(_, _, children) => {
            lemma_unrolled_of_ignores_growth(before, after, prefix, children.len());
        },
        Shape::Leaf(_, _) => {},
        Shape::Factory(_) => {},
    }
}

pub proof fn lemma_unrolled_of_ignores_growth(
    before: Shape,
    after: Shape,
    prefix: Seq<Cut>,
    count: nat,
)
    requires
        after is Layout,
        grown(before, after),
        count <= after->Layout_2.len(),
    ensures
        unrolled_of(before->Layout_2, before->Layout_1, prefix, count) == unrolled_of(
            after->Layout_2,
            after->Layout_1,
            prefix,
            count,
        ),
    decreases after->Layout_2, count,
{
    if count > 0 {
        lemma_unrolled_of_ignores_growth(before, after, prefix, (count - 1) as nat);
        let direction = after->Layout_1;
        let longer = prefix.push(step_to(direction, after->Layout_2.len(), (count - 1) as nat));
        lemma_unrolled_ignores_growth(
            before->Layout_2[count - 1],
            after->Layout_2[count - 1],
            longer,
        );
    }
}

/// Every entry that unrolling a tree behind `prefix` writes down holds the
/// cuts of `prefix` and, behind them, cuts that lead to a leaf of the tree
/// with the entry's identifier.
pub proof fn lemma_unrolled_leads_to_leaves(shape: Shape, prefix: Seq<Cut>, k: int)
    requires
        0 <= k < unrolled(shape, prefix).len(),
    ensures
        unrolled(shape, prefix)[k].1.len() >= prefix.len(),
        unrolled(shape, prefix)[k].1.take(prefix.len() as int) == prefix,
        leaf_at(shape, unrolled(shape, prefix)[k].1.skip(prefix.len() as int)) == Some(
            unrolled(shape, prefix)[k].0,
        ),
    decreases shape, 0nat,
{
    match shape {
        Shape::Layout(_, direction, children) => {
            lemma_unrolled_of_leads_to_leaves(shape, prefix, children.len(), k);
        },
        Shape::Leaf(id, _) => {
            assert(prefix.take(prefix.len() as int) =~= prefix);
            assert(prefix.skip(prefix.len() as int) =~= Seq::<Cut>::empty());
        },
        Shape::Factory(_) => {},
    }
}

pub proof fn lemma_unrolled_of_leads_to_leaves(shape: Shape, prefix: Seq<Cut>, count: nat, k: int)
    requires
        shape is Layout,
        count <= shape->Layout_2.len(),
        0 <= k < unrolled_of(shape->Layout_2, shape->Layout_1, prefix, count).len(),
    ensures
        ({
            let entry = unrolled_of(shape->Layout_2, shape->Layout_1, prefix, count)[k];
            &&& entry.1.len() >= prefix.len()
            &&& entry.1.take(prefix.len() as int) == prefix
            &&& leaf_at(shape, entry.1.skip(prefix.len() as int)) == Some(entry.0)
        }),
    decreases shape->Layout_2, count,
{
    let children = shape->Layout_2;
    let direction = shape->Layout_1;
    let before = unrolled_of(children, direction, prefix, (count - 1) as nat);
    if k < before.len() {
        lemma_unrolled_of_leads_to_leaves(shape, prefix, (count - 1) as nat, k);
    } else {
        let step = step_to(direction, children.len(), (count - 1) as nat);
        let longer = prefix.push(step);
        let child = children[count - 1];
        let j = k - before.len();
        lemma_unrolled_leads_to_leaves(child, longer, j);
        let entry = unrolled(child, longer)[j];
        assert(unrolled_of(children, direction, prefix, count)[k] == entry);
        assert(entry.1.take(prefix.len() as int) =~= entry.1.take(longer.len() as int).take(
            prefix.len() as int,
        ));
        assert(longer.take(prefix.len() as int) =~= prefix);
        let rest = entry.1.skip(prefix.len() as int);
        assert(rest[0] == entry.1.take(longer.len() as int)[prefix.len() as int]);
        assert(rest[0] == step);
        assert(rest.skip(1) =~= entry.1.skip(longer.len() as int));
    }
}

/// The cuts that unrolling writes down for a leaf are the cuts that lead to
/// that leaf when the tree is drawn: following them from the root, every
/// layout node on the way is cut along its own axis into as many parts as it
/// has children, and the way ends on a leaf with the entry's identifier.
pub proof fn lemma_unroll_matches_tree(shape: Shape, k: int)
    requires
        0 <= k < unrolled(shape, Seq::empty()).len(),
    ensures
        leaf_at(shape, unrolled(shape, Seq::empty())[k].1) == Some(
            unrolled(shape, Seq::empty())[k].0,
        ),
{
    lemma_unrolled_leads_to_leaves(shape, Seq::empty(), k);
    let entry = unrolled(shape, Seq::empty())[k];
    assert(entry.1.skip(0) =~= entry.1);
}

} // verus!
