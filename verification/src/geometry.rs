//! Rectangles and positions of the character grid, and the split of a
//! rectangle along one axis.

use vstd::prelude::*;

verus! {

/// A cell of the character grid.
#[derive(Debug, Clone, Copy, PartialEq, Eq, Structural)]
pub struct Position {
    pub x: u16,
    pub y: u16,
}

/// A rectangle of the character grid, given by its top left cell and its
/// size.
#[derive(Debug, Clone, Copy, PartialEq, Eq, Structural)]
pub struct Rect {
    pub x: u16,
    pub y: u16,
    pub width: u16,
    pub height: u16,
}

/// The axis along which a rectangle is cut into parts.
#[derive(Debug, Clone, Copy, PartialEq, Eq, Structural)]
pub enum Direction {
    /// The parts stand side by side.
    Horizontal,
    /// The parts stand one above the other.
    Vertical,
}

/// What one part of a split asks for.
#[derive(Debug, Clone, Copy, PartialEq, Eq, Structural)]
pub enum Constraint {
    /// A share of what is left, in proportion to the weight.
    Fill(u16),
    /// A fixed number of cells.
    Length(u16),
}

impl Position {
    pub fn new(x: u16, y: u16) -> (p: Self)
        ensures
            p == (Position { x, y }),
    {
        Position { x, y }
    }
}

impl Rect {
    /// The first column to the right of the rectangle, held to the grid's
    /// last column.
    pub open spec fn right(self) -> int {
        if self.x + self.width > u16::MAX {
            u16::MAX as int
        } else {
            self.x + self.width
        }
    }

    /// The first row below the rectangle, held to the grid's last row.
    pub open spec fn bottom(self) -> int {
        if self.y + self.height > u16::MAX {
            u16::MAX as int
        } else {
            self.y + self.height
        }
    }

    /// Whether the cell lies inside the rectangle.
    pub open spec fn covers(self, position: Position) -> bool {
        &&& self.x <= position.x < self.right()
        &&& self.y <= position.y < self.bottom()
    }

    pub fn new(x: u16, y: u16, width: u16, height: u16) -> (r: Self)
        ensures
            r == (Rect { x, y, width, height }),
    {
        Rect { x, y, width, height }
    }

    /// Whether every cell of the rectangle is a cell of `outer`.
    pub open spec fn within(self, outer: Rect) -> bool {
        &&& outer.x <= self.x
        &&& outer.y <= self.y
        &&& self.x + self.width <= outer.x + outer.width
        &&& self.y + self.height <= outer.y + outer.height
    }

    /// The part of the rectangle that lies inside `bounds`: from the larger
    /// of the two left edges to the smaller of the two right edges, and
    /// likewise from top to bottom. Where the two share no cell, a rectangle
    /// without cells.
    pub open spec fn clipped(self, bounds: Rect) -> Rect {
        let x1 = if self.x > bounds.x {
            self.x
        } else {
            bounds.x
        };
        let y1 = if self.y > bounds.y {
            self.y
        } else {
            bounds.y
        };
        let x2 = if self.right() < bounds.right() {
            self.right()
        } else {
            bounds.right()
        };
        let y2 = if self.bottom() < bounds.bottom() {
            self.bottom()
        } else {
            bounds.bottom()
        };
        Rect {
            x: x1,
            y: y1,
            width: if x2 > x1 {
                (x2 - x1) as u16
            } else {
                0
            },
            height: if y2 > y1 {
                (y2 - y1) as u16
            } else {
                0
            },
        }
    }

    /// The part of the rectangle that lies inside `bounds`. Where the two
    /// share no cell, a rectangle without cells.
    pub fn clip(self, bounds: Rect) -> (part: Rect)
        ensures
            part == self.clipped(bounds),
            part.within(bounds) || part.width == 0 || part.height == 0,
            part.within(self) || part.width == 0 || part.height == 0,
            self.within(bounds) && self.x + self.width <= u16::MAX && self.y + self.height
                <= u16::MAX ==> part == self,
            forall|p: Position| part.covers(p) <==> self.covers(p) && bounds.covers(p),
    {
        let x1: u16 = if self.x > bounds.x {
            self.x
        } else {
            bounds.x
        };
        let y1: u16 = if self.y > bounds.y {
            self.y
        } else {
            bounds.y
        };
        let r1: u16 = self.x.saturating_add(self.width);
        let r2: u16 = bounds.x.saturating_add(bounds.width);
        let b1: u16 = self.y.saturating_add(self.height);
        let b2: u16 = bounds.y.saturating_add(bounds.height);
        let x2: u16 = if r1 < r2 {
            r1
        } else {
            r2
        };
        let y2: u16 = if b1 < b2 {
            b1
        } else {
            b2
        };
        Rect { x: x1, y: y1, width: x2.saturating_sub(x1), height: y2.saturating_sub(y1) }
    }

    /// Whether the cell lies inside the rectangle.
    pub fn contains(self, position: Position) -> (inside: bool)
        ensures
            inside == self.covers(position),
    {
        let right: u16 = self.x.saturating_add(self.width);
        let bottom: u16 = self.y.saturating_add(self.height);
        position.x >= self.x && position.x < right && position.y >= self.y && position.y < bottom
    }
}

impl Rect {
    /// Where the rectangle begins along `direction`.
    pub open spec fn start(self, direction: Direction) -> int {
        match direction {
            Direction::Horizontal => self.x as int,
            Direction::Vertical => self.y as int,
        }
    }

    /// Where the rectangle ends along `direction`: the first coordinate
    /// behind it.
    pub open spec fn end(self, direction: Direction) -> int {
        match direction {
            Direction::Horizontal => self.x + self.width,
            Direction::Vertical => self.y + self.height,
        }
    }

    /// Where the rectangle ends along `direction`, held to the grid.
    pub open spec fn limit(self, direction: Direction) -> int {
        match direction {
            Direction::Horizontal => self.right(),
            Direction::Vertical => self.bottom(),
        }
    }

    /// Whether the rectangle spans the same cells as `other` across
    /// `direction`.
    pub open spec fn same_span_across(self, direction: Direction, other: Rect) -> bool {
        match direction {
            Direction::Horizontal => self.y == other.y && self.height == other.height,
            Direction::Vertical => self.x == other.x && self.width == other.width,
        }
    }
}

/// What is known of the parts that a split of `area` hands back, whatever
/// sizes the solver chose: there is one part for each constraint; every part
/// spans the whole of `area` across the axis; along the axis every part lies
/// inside `area`, and each part ends before the next one begins.
pub open spec fn split_of(
    direction: Direction,
    constraints: Seq<Constraint>,
    area: Rect,
    parts: Seq<Rect>,
) -> bool {
    &&& parts.len() == constraints.len()
    &&& forall|i: int|
        0 <= i < parts.len() ==> (#[trigger] parts[i]).same_span_across(direction, area)
    &&& forall|i: int|
        0 <= i < parts.len() ==> area.start(direction) <= (#[trigger] parts[i]).start(direction)
            && parts[i].end(direction) <= area.limit(direction)
    &&& forall|i: int, j: int|
        0 <= i < j < parts.len() ==> (#[trigger] parts[i]).end(direction) <= (
        #[trigger] parts[j]).start(direction)
}

/// Calls `ratatui::layout::Layout::new` with the direction and the
/// constraints, then `Layout::split` on the area, and hands the segments back
/// in their order. The sizes along the axis come from a constraint solver
/// that walks hash maps, so the contract leaves them open. It states the
/// number of segments, the two fields that `split` copies from the area, and
/// what the solver's required constraints hold every solution to: each
/// boundary lies between the area's two ends, and the boundaries ascend.
#[verifier::external_body]
pub(crate) fn split(direction: Direction, constraints: &Vec<Constraint>, area: Rect) -> (parts: Vec<
    Rect,
>)
    ensures
        split_of(direction, constraints@, area, parts@),
{
    let d = match direction {
        Direction::Horizontal => ratatui::layout::Direction::Horizontal,
        Direction::Vertical => ratatui::layout::Direction::Vertical,
    };
    let cs = constraints.iter().map(|c| match c {
        Constraint::Fill(w) => ratatui::layout::Constraint::Fill(*w),
        Constraint::Length(l) => ratatui::layout::Constraint::Length(*l),
    });
    let a = ratatui::layout::Rect { x: area.x, y: area.y, width: area.width, height: area.height };
    let parts = ratatui::layout::Layout::new(d, cs).split(a);
    parts.iter().map(|r| Rect { x: r.x, y: r.y, width: r.width, height: r.height }).collect()
}

/// `n` constraints that each ask for an equal share.
pub open spec fn equal_fill(n: nat) -> Seq<Constraint> {
    Seq::new(n, |i: int| Constraint::Fill(1))
}

/// Cuts `area` along `direction` into `n` parts of equal weight, in order.
pub fn split_equal(direction: Direction, n: usize, area: Rect) -> (parts: Vec<Rect>)
    ensures
        split_of(direction, equal_fill(n as nat), area, parts@),
{
    let mut constraints: Vec<Constraint> = Vec::new();
    let mut i: usize = 0;
    while i < n
        invariant
            i <= n,
            constraints@ =~= equal_fill(i as nat),
        decreases n - i,
    {
        constraints.push(Constraint::Fill(1));
        i += 1;
    }
    split(direction, &constraints, area)
}

/// The parts of a split lie inside the rectangle that was split, no cell
/// belongs to two of them, and they follow each other in the order of the
/// constraints.
pub proof fn lemma_split_parts_disjoint_in_order(
    direction: Direction,
    constraints: Seq<Constraint>,
    area: Rect,
    parts: Seq<Rect>,
)
    requires
        split_of(direction, constraints, area, parts),
    ensures
        forall|i: int| 0 <= i < parts.len() ==> (#[trigger] parts[i]).within(area),
        forall|i: int, j: int, p: Position|
            0 <= i < parts.len() && 0 <= j < parts.len() && i != j ==> !(#[trigger] parts[i].covers(
                p,
            ) && #[trigger] parts[j].covers(p)),
        forall|i: int, j: int|
            0 <= i < j < parts.len() ==> (#[trigger] parts[i]).end(direction) <= (
            #[trigger] parts[j]).start(direction),
{
    assert forall|i: int, j: int, p: Position|
        0 <= i < parts.len() && 0 <= j < parts.len() && i != j implies !(#[trigger] parts[i].covers(
        p,
    ) && #[trigger] parts[j].covers(p)) by {
        if i < j {
            assert(parts[i].end(direction) <= parts[j].start(direction));
        } else {
            assert(parts[j].end(direction) <= parts[i].start(direction));
        }
    }
}

} // verus!
