//! The shape of a component tree: what stays when the behaviours are left
//! out.

use crate::component::LayoutDirection;
use crate::id::RenderId;
use vstd::prelude::*;

verus! {

/// A component tree without its behaviours.
pub enum Shape {
    /// A node that arranges its children.
    Layout(RenderId, LayoutDirection, Seq<Shape>),
    /// A leaf, with whether it takes the focus.
    Leaf(RenderId, bool),
    /// A subtree that is built on demand: what was built, once it was.
    Factory(Option<Box<Shape>>),
}

/// The identifiers of the leaves that take the focus, depth first. A factory
/// stands for what it has built; one that has built nothing stands for
/// nothing.
pub open spec fn focusable_ids(shape: Shape) -> Seq<RenderId>
    decreases shape, 0nat,
{
    match shape {
        Shape::Layout(_, _, children) => focusable_ids_of(children, children.len()),
        Shape::Leaf(id, focusable) => if focusable {
            seq![id]
        } else {
            Seq::empty()
        },
        Shape::Factory(Some(built)) => focusable_ids(*built),
        Shape::Factory(None) => Seq::empty(),
    }
}

/// The identifiers of the leaves that take the focus in the first `count` of
/// the children, depth first.
pub open spec fn focusable_ids_of(children: Seq<Shape>, count: nat) -> Seq<RenderId>
    decreases children, count,
{
    if count == 0 || count > children.len() {
        Seq::empty()
    } else {
        focusable_ids_of(children, (count - 1) as nat) + focusable_ids(children[count - 1])
    }
}

/// The number of leaves that take the focus.
pub open spec fn focusable_count(shape: Shape) -> nat
    decreases shape, 0nat,
{
    match shape {
        Shape::Layout(_, _, children) => focusable_count_of(children, children.len()),
        Shape::Leaf(_, focusable) => if focusable {
            1
        } else {
            0
        },
        Shape::Factory(Some(built)) => focusable_count(*built),
        Shape::Factory(None) => 0,
    }
}

/// The number of leaves that take the focus in the first `count` of the
/// children.
pub open spec fn focusable_count_of(children: Seq<Shape>, count: nat) -> nat
    decreases children, count,
{
    if count == 0 || count > children.len() {
        0
    } else {
        focusable_count_of(children, (count - 1) as nat) + focusable_count(children[count - 1])
    }
}

/// The identifiers of all leaves, depth first. A factory stands for what it
/// has built.
pub open spec fn leaf_ids(shape: Shape) -> Seq<RenderId>
    decreases shape, 0nat,
{
    match shape {
        Shape::Layout(_, _, children) => leaf_ids_of(children, children.len()),
        Shape::Leaf(id, _) => seq![id],
        Shape::Factory(Some(built)) => leaf_ids(*built),
        Shape::Factory(None) => Seq::empty(),
    }
}

/// The identifiers of all leaves in the first `count` of the children, depth
/// first.
pub open spec fn leaf_ids_of(children: Seq<Shape>, count: nat) -> Seq<RenderId>
    decreases children, count,
{
    if count == 0 || count > children.len() {
        Seq::empty()
    } else {
        leaf_ids_of(children, (count - 1) as nat) + leaf_ids(children[count - 1])
    }
}

/// Whether `after` is `before` with nothing changed but that factories may
/// have built.
pub open spec fn grown(before: Shape, after: Shape) -> bool
    decreases after,
{
    match after {
        Shape::Layout(id, direction, children) => before matches Shape::Layout(
            old_id,
            old_direction,
            old_children,
        ) && id == old_id && direction == old_direction && children.len() == old_children.len()
            && forall|i: int|
            0 <= i < children.len() ==> grown(old_children[i], #[trigger] children[i]),
        Shape::Leaf(_, _) => before == after,
        Shape::Factory(Some(built)) => match before {
            Shape::Factory(Some(old_built)) => grown(*old_built, *built),
            Shape::Factory(None) => true,
            _ => false,
        },
        Shape::Factory(None) => before == after,
    }
}

/// Whether every factory of the tree has built its subtree.
pub open spec fn settled(shape: Shape) -> bool
    decreases shape,
{
    match shape {
        Shape::Layout(_, _, children) => forall|i: int|
            0 <= i < children.len() ==> settled(#[trigger] children[i]),
        Shape::Leaf(_, _) => true,
        Shape::Factory(Some(built)) => settled(*built),
        Shape::Factory(None) => false,
    }
}

/// The budget that is left inside a factory: one less, and none once none is
/// left.
pub open spec fn budget_inside(budget: nat) -> nat {
    if budget > 0 {
        (budget - 1) as nat
    } else {
        0
    }
}

/// Whether every factory of the tree that lies inside fewer than `budget`
/// other factories has built its subtree.
pub open spec fn settled_within(shape: Shape, budget: nat) -> bool
    decreases shape,
{
    match shape {
        Shape::Layout(_, _, children) => forall|i: int|
            0 <= i < children.len() ==> settled_within(#[trigger] children[i], budget),
        Shape::Leaf(_, _) => true,
        Shape::Factory(Some(built)) => settled_within(*built, budget_inside(budget)),
        Shape::Factory(None) => budget == 0,
    }
}

/// Whether `after` is what `before` becomes when its factories are made to
/// build, down to `budget` factories one inside the other. Nodes, leaves and
/// what was built before stay as they are; a factory that had built nothing
/// has built now, unless the budget was used up where it stands. Every
/// factory on the way down takes one from the budget, whether it had built
/// before or builds now.
pub open spec fn realized(before: Shape, after: Shape, budget: nat) -> bool
    decreases after,
{
    match after {
        Shape::Layout(id, direction, children) => before matches Shape::Layout(
            old_id,
            old_direction,
            old_children,
        ) && id == old_id && direction == old_direction && children.len() == old_children.len()
            && forall|i: int|
            0 <= i < children.len() ==> realized(old_children[i], #[trigger] children[i], budget),
        Shape::Leaf(_, _) => before == after,
        Shape::Factory(Some(built)) => match before {
            Shape::Factory(Some(old_built)) => realized(*old_built, *built, budget_inside(budget)),
            Shape::Factory(None) => budget > 0 && {
                let rest = (budget - 1) as nat;
                exists|fresh: Shape| #[trigger] grown(fresh, *built) && realized(fresh, *built, rest)
            },
            _ => false,
        },
        Shape::Factory(None) => before == after && budget == 0,
    }
}

/// The identifiers that take the focus are as many as the leaves that take
/// the focus.
pub proof fn lemma_focusable_ids_len(shape: Shape)
    ensures
        focusable_ids(shape).len() == focusable_count(shape),
    decreases shape, 0nat,
{
    match shape {
        Shape::Layout(_, _, children) => lemma_focusable_ids_of_len(children, children.len()),
        Shape::Leaf(_, _) => {},
        Shape::Factory(Some(built)) => lemma_focusable_ids_len(*built),
        Shape::Factory(None) => {},
    }
}

pub proof fn lemma_focusable_ids_of_len(children: Seq<Shape>, count: nat)
    ensures
        focusable_ids_of(children, count).len() == focusable_count_of(children, count),
    decreases children, count,
{
    if count == 0 || count > children.len() {
    } else {
        lemma_focusable_ids_of_len(children, (count - 1) as nat);
        lemma_focusable_ids_len(children[count - 1]);
    }
}

/// The identifiers found in the first `count` children depend on those
/// children alone.
pub proof fn lemma_focusable_ids_of_prefix(a: Seq<Shape>, b: Seq<Shape>, count: nat)
    requires
        count <= a.len(),
        count <= b.len(),
        forall|i: int| 0 <= i < count ==> a[i] == b[i],
    ensures
        focusable_ids_of(a, count) == focusable_ids_of(b, count),
    decreases count,
{
    if count > 0 {
        lemma_focusable_ids_of_prefix(a, b, (count - 1) as nat);
    }
}

/// Every tree has grown from itself.
pub proof fn lemma_grown_reflexive(shape: Shape)
    ensures
        grown(shape, shape),
    decreases shape,
{
    match shape {
        Shape::Layout(_, _, children) => {
            assert forall|i: int| 0 <= i < children.len() implies grown(
                children[i],
                #[trigger] children[i],
            ) by {
                lemma_grown_reflexive(children[i]);
            }
        },
        Shape::Leaf(_, _) => {},
        Shape::Factory(Some(built)) => {
            lemma_grown_reflexive(*built);
        },
        Shape::Factory(None) => {},
    }
}

/// What has grown from a tree that has grown from another has grown from
/// that other.
pub proof fn lemma_grown_transitive(first: Shape, second: Shape, third: Shape)
    requires
        grown(first, second),
        grown(second, third),
    ensures
        grown(first, third),
    decreases third,
{
    match third {
        Shape::Layout(_, _, children) => {
            let mid = second->Layout_2;
            let old_children = first->Layout_2;
            assert forall|i: int| 0 <= i < children.len() implies grown(
                old_children[i],
                #[trigger] children[i],
            ) by {
                assert(grown(mid[i], children[i]));
                assert(grown(old_children[i], mid[i]));
                lemma_grown_transitive(old_children[i], mid[i], children[i]);
            }
        },
        Shape::Leaf(_, _) => {},
        Shape::Factory(Some(built)) => {
            match second {
                Shape::Factory(Some(mid)) => match first {
                    Shape::Factory(Some(old_built)) => {
                        lemma_grown_transitive(*old_built, *mid, *built);
                    },
                    _ => {},
                },
                _ => {},
            }
        },
        Shape::Factory(None) => {},
    }
}

/// A tree whose factories have all built cannot grow: what has grown from it
/// is the tree itself.
pub proof fn lemma_settled_cannot_grow(before: Shape, after: Shape)
    requires
        settled(before),
        grown(before, after),
    ensures
        after == before,
    decreases after,
{
    match after {
        Shape::Layout(_, _, children) => {
            let old_children = before->Layout_2;
            assert forall|i: int| 0 <= i < children.len() implies children[i]
                == old_children[i] by {
                lemma_settled_cannot_grow(old_children[i], children[i]);
            }
            assert(children =~= old_children);
        },
        Shape::Leaf(_, _) => {},
        Shape::Factory(Some(built)) => {
            match before {
                Shape::Factory(Some(old_built)) => {
                    lemma_settled_cannot_grow(*old_built, *built);
                },
                _ => {},
            }
        },
        Shape::Factory(None) => {},
    }
}

/// A tree that was realized has grown.
pub proof fn lemma_realized_has_grown(before: Shape, after: Shape, budget: nat)
    requires
        realized(before, after, budget),
    ensures
        grown(before, after),
    decreases after,
{
    match after {
        Shape::Layout(_, _, children) => {
            let old_children = before->Layout_2;
            assert forall|i: int| 0 <= i < children.len() implies grown(
                old_children[i],
                #[trigger] children[i],
            ) by {
                lemma_realized_has_grown(old_children[i], children[i], budget);
            }
        },
        Shape::Leaf(_, _) => {},
        Shape::Factory(Some(built)) => {
            match before {
                Shape::Factory(Some(old_built)) => {
                    lemma_realized_has_grown(*old_built, *built, budget_inside(budget));
                },
                _ => {},
            }
        },
        Shape::Factory(None) => {},
    }
}

/// The identifiers found in the first `count` children depend on those
/// children alone.
pub proof fn lemma_leaf_ids_of_prefix(a: Seq<Shape>, b: Seq<Shape>, count: nat)
    requires
        count <= a.len(),
        count <= b.len(),
        forall|i: int| 0 <= i < count ==> a[i] == b[i],
    ensures
        leaf_ids_of(a, count) == leaf_ids_of(b, count),
    decreases count,
{
    if count > 0 {
        lemma_leaf_ids_of_prefix(a, b, (count - 1) as nat);
    }
}

/// The identifiers found in fewer children are the first of those found in
/// more children.
pub proof fn lemma_leaf_ids_of_grows(children: Seq<Shape>, fewer: nat, more: nat)
    requires
        fewer <= more <= children.len(),
    ensures
        leaf_ids_of(children, fewer).is_prefix_of(leaf_ids_of(children, more)),
    decreases more - fewer,
{
    if fewer < more {
        lemma_leaf_ids_of_grows(children, fewer, (more - 1) as nat);
    }
}

/// A tree whose factories have all built stays as it is, whatever budget it
/// is realized with: nothing is built twice.
pub proof fn lemma_settled_is_stable(before: Shape, after: Shape, budget: nat)
    requires
        settled(before),
        realized(before, after, budget),
    ensures
        after == before,
    decreases after,
{
    match after {
        Shape::Layout(id, direction, children) => {
            let old_children = before->Layout_2;
            assert forall|i: int| 0 <= i < children.len() implies children[i]
                == old_children[i] by {
                lemma_settled_is_stable(old_children[i], children[i], budget);
            }
            assert(children =~= old_children);
        },
        Shape::Leaf(_, _) => {},
        Shape::Factory(Some(built)) => {
            match before {
                Shape::Factory(Some(old_built)) => {
                    lemma_settled_is_stable(*old_built, *built, budget_inside(budget));
                },
                _ => {},
            }
        },
        Shape::Factory(None) => {},
    }
}

/// A tree that was realized with a budget is settled within that budget.
pub proof fn lemma_realized_is_settled_within(before: Shape, after: Shape, budget: nat)
    requires
        realized(before, after, budget),
    ensures
        settled_within(after, budget),
    decreases after,
{
    match after {
        Shape::Layout(_, _, children) => {
            let old_children = before->Layout_2;
            assert forall|i: int| 0 <= i < children.len() implies settled_within(
                #[trigger] children[i],
                budget,
            ) by {
                lemma_realized_is_settled_within(old_children[i], children[i], budget);
            }
        },
        Shape::Leaf(_, _) => {},
        Shape::Factory(Some(built)) => {
            match before {
                Shape::Factory(Some(old_built)) => {
                    lemma_realized_is_settled_within(*old_built, *built, budget_inside(budget));
                },
                Shape::Factory(None) => {
                    let rest = (budget - 1) as nat;
                    let fresh = choose|fresh: Shape| #[trigger]
                        grown(fresh, *built) && realized(fresh, *built, rest);
                    lemma_realized_is_settled_within(fresh, *built, rest);
                },
                _ => {},
            }
        },
        Shape::Factory(None) => {},
    }
}

/// A tree that is settled within a budget stays as it is when it is realized
/// with that budget: nothing is built twice.
pub proof fn lemma_settled_within_is_stable(before: Shape, after: Shape, budget: nat)
    requires
        settled_within(before, budget),
        realized(before, after, budget),
    ensures
        after == before,
    decreases after,
{
    match after {
        Shape::Layout(_, _, children) => {
            let old_children = before->Layout_2;
            assert forall|i: int| 0 <= i < children.len() implies children[i]
                == old_children[i] by {
                lemma_settled_within_is_stable(old_children[i], children[i], budget);
            }
            assert(children =~= old_children);
        },
        Shape::Leaf(_, _) => {},
        Shape::Factory(Some(built)) => {
            match before {
                Shape::Factory(Some(old_built)) => {
                    lemma_settled_within_is_stable(*old_built, *built, budget_inside(budget));
                },
                _ => {},
            }
        },
        Shape::Factory(None) => {},
    }
}

/// Realizing a tree a second time with the same budget changes nothing:
/// what the first time built is kept, and nothing more is built. So asking a
/// tree for its focusable leaves a second time gives the same identifiers as
/// the first time, in the same order.
pub proof fn lemma_second_flatten_is_the_same(
    first: Shape,
    second: Shape,
    third: Shape,
    budget: nat,
)
    requires
        realized(first, second, budget),
        realized(second, third, budget),
    ensures
        third == second,
        focusable_ids(third) == focusable_ids(second),
{
    lemma_realized_is_settled_within(first, second, budget);
    lemma_settled_within_is_stable(second, third, budget);
}

} // verus!
