use vstd::prelude::*;

use crate::constraint::Constraint;
use crate::rect::{saturate, Margin, Rect};
use crate::split::{requirements, spec_requirements, SplitPlan};

verus! {

#[derive(Debug, Clone, Copy, PartialEq, Eq, Structural, Hash)]
pub enum Corner {
    TopLeft,
    TopRight,
    BottomRight,
    BottomLeft,
}

impl Default for Corner {
    fn default() -> (c: Corner)
        ensures
            c == Corner::TopLeft,
    {
        Corner::TopLeft
    }
}

#[derive(Debug, Clone, Copy, PartialEq, Eq, Structural, Hash)]
pub enum Direction {
    Horizontal,
    Vertical,
}

impl Default for Direction {
    fn default() -> (d: Direction)
        ensures
            d == Direction::Vertical,
    {
        Direction::Vertical
    }
}

#[derive(Debug, Clone, Copy, PartialEq, Eq, Structural, Hash)]
pub enum Alignment {
    Left,
    Center,
    Right,
}

impl Default for Alignment {
    fn default() -> (a: Alignment)
        ensures
            a == Alignment::Left,
    {
        Alignment::Left
    }
}

/// A layout is a set of constraints that can be applied to a given area to split it into
/// smaller ones, aligned in a single direction.
///
/// A layout is composed of:
/// - a direction (horizontal or vertical)
/// - a set of constraints (length, ratio, percentage, min, max)
/// - a margin (horizontal and vertical), the space between the edge of the main area and the
///   split areas
/// - whether the last chunk is expanded to fill the remaining space (the default).
#[derive(Debug, Clone, PartialEq, Eq, Hash)]
pub struct Layout {
    direction: Direction,
    margin: Margin,
    constraints: Vec<Constraint>,
    /// Whether the last chunk of the computed layout should be expanded to fill the available
    /// space.
    expand_to_fill: bool,
}

impl Default for Layout {
    fn default() -> (l: Layout)
        ensures
            l.spec_direction() == Direction::Vertical,
            l.spec_margin() == (Margin { horizontal: 0, vertical: 0 }),
            l.spec_constraints() == Seq::<Constraint>::empty(),
            l.spec_expand_to_fill(),
    {
        Layout::new()
    }
}

impl Layout {
    pub closed spec fn spec_direction(&self) -> Direction {
        self.direction
    }

    pub closed spec fn spec_margin(&self) -> Margin {
        self.margin
    }

    pub closed spec fn spec_constraints(&self) -> Seq<Constraint> {
        self.constraints@
    }

    pub closed spec fn spec_expand_to_fill(&self) -> bool {
        self.expand_to_fill
    }

    /// Creates a new layout with default values.
    ///
    /// - direction: [Direction::Vertical]
    /// - margin: 0, 0
    /// - constraints: empty
    /// - expand_to_fill: true
    pub fn new() -> (l: Layout)
        ensures
            l.spec_direction() == Direction::Vertical,
            l.spec_margin() == (Margin { horizontal: 0, vertical: 0 }),
            l.spec_constraints() == Seq::<Constraint>::empty(),
            l.spec_expand_to_fill(),
    {
        Layout {
            direction: Direction::Vertical,
            margin: Margin { horizontal: 0, vertical: 0 },
            constraints: Vec::new(),
            expand_to_fill: true,
        }
    }

    /// Builder method to set the constraints of the layout.
    pub fn constraints(self, constraints: Vec<Constraint>) -> (l: Layout)
        ensures
            l.spec_constraints() == constraints@,
            l.spec_direction() == self.spec_direction(),
            l.spec_margin() == self.spec_margin(),
            l.spec_expand_to_fill() == self.spec_expand_to_fill(),
    {
        let mut l = self;
        l.constraints = constraints;
        l
    }

    /// Builder method to set both margins of the layout to `margin`.
    pub fn margin(self, margin: u16) -> (l: Layout)
        ensures
            l.spec_margin() == (Margin { horizontal: margin, vertical: margin }),
            l.spec_constraints() == self.spec_constraints(),
            l.spec_direction() == self.spec_direction(),
            l.spec_expand_to_fill() == self.spec_expand_to_fill(),
    {
        let mut l = self;
        l.margin = Margin { horizontal: margin, vertical: margin };
        l
    }

    /// Builder method to set the horizontal margin of the layout.
    pub fn horizontal_margin(self, horizontal: u16) -> (l: Layout)
        ensures
            l.spec_margin() == (Margin { horizontal, vertical: self.spec_margin().vertical }),
            l.spec_constraints() == self.spec_constraints(),
            l.spec_direction() == self.spec_direction(),
            l.spec_expand_to_fill() == self.spec_expand_to_fill(),
    {
        let mut l = self;
        l.margin.horizontal = horizontal;
        l
    }

    /// Builder method to set the vertical margin of the layout.
    pub fn vertical_margin(self, vertical: u16) -> (l: Layout)
        ensures
            l.spec_margin() == (Margin { horizontal: self.spec_margin().horizontal, vertical }),
            l.spec_constraints() == self.spec_constraints(),
            l.spec_direction() == self.spec_direction(),
            l.spec_expand_to_fill() == self.spec_expand_to_fill(),
    {
        let mut l = self;
        l.margin.vertical = vertical;
        l
    }

    /// Builder method to set the direction of the layout.
    pub fn direction(self, direction: Direction) -> (l: Layout)
        ensures
            l.spec_direction() == direction,
            l.spec_margin() == self.spec_margin(),
            l.spec_constraints() == self.spec_constraints(),
            l.spec_expand_to_fill() == self.spec_expand_to_fill(),
    {
        let mut l = self;
        l.direction = direction;
        l
    }

    /// Builder method to set whether the last chunk of the computed layout should be expanded
    /// to fill the available space.
    pub fn expand_to_fill(self, expand_to_fill: bool) -> (l: Layout)
        ensures
            l.spec_expand_to_fill() == expand_to_fill,
            l.spec_direction() == self.spec_direction(),
            l.spec_margin() == self.spec_margin(),
            l.spec_constraints() == self.spec_constraints(),
    {
        let mut l = self;
        l.expand_to_fill = expand_to_fill;
        l
    }

    /// The start and end of the span that `area` leaves for the elements once the margins
    /// are taken off, along the direction of the layout.
    pub open spec fn spec_span(&self, area: Rect) -> (u16, u16) {
        let inner = area.spec_inner(self.spec_margin());
        match self.spec_direction() {
            Direction::Horizontal => (inner.x, inner.spec_right() as u16),
            Direction::Vertical => (inner.y, inner.spec_bottom() as u16),
        }
    }

    /// Whether taking the margins of the layout off `area` stays within `u16`, which `plan`
    /// needs.
    pub fn can_plan(&self, area: Rect) -> (r: bool)
        ensures
            r == area.inner_defined(self.spec_margin()),
    {
        let horizontal: u32 = 2 * (self.margin.horizontal as u32);
        let vertical: u32 = 2 * (self.margin.vertical as u32);
        let max: u32 = 65535;
        if horizontal > max {
            return false;
        }
        if (area.width as u32) < horizontal {
            return true;
        }
        if vertical > max {
            return false;
        }
        if (area.height as u32) < vertical {
            return true;
        }
        (area.x as u32) + (self.margin.horizontal as u32) <= max && (area.y as u32) + (
        self.margin.vertical as u32) <= max
    }

    /// Everything that splitting `area` decides before the constraint solver runs: the inner
    /// area left by the margins, the span along the direction of the layout, and the
    /// requirements on the positions of the elements, one element per constraint.
    pub fn plan(&self, area: Rect) -> (p: SplitPlan)
        requires
            area.inner_defined(self.spec_margin()),
        ensures
            p.inner == area.spec_inner(self.spec_margin()),
            p.direction == self.spec_direction(),
            p.expand_to_fill == self.spec_expand_to_fill(),
            p.elements == self.spec_constraints().len(),
            (p.start, p.end) == self.spec_span(area),
            p.direction == Direction::Horizontal ==> p.start == p.inner.x && p.end
                == p.inner.spec_right(),
            p.direction == Direction::Vertical ==> p.start == p.inner.y && p.end
                == p.inner.spec_bottom(),
            p.start <= p.end,
            p.requirements@ == spec_requirements(
                p.start,
                p.end,
                self.spec_constraints(),
                self.spec_expand_to_fill(),
            ),
    {
        let inner = area.inner(&self.margin);
        let (start, end) = match self.direction {
            Direction::Horizontal => (inner.x, inner.right()),
            Direction::Vertical => (inner.y, inner.bottom()),
        };
        let reqs = requirements(start, end, &self.constraints, self.expand_to_fill);
        SplitPlan {
            inner,
            direction: self.direction,
            expand_to_fill: self.expand_to_fill,
            start,
            end,
            elements: self.constraints.len(),
            requirements: reqs,
        }
    }
}

} // verus!

verus! {

/// The span handed to the solver runs along the direction of the layout from the near edge of
/// the area, moved in by the margin, to its far edge, moved in by the margin (saturating at the
/// largest coordinate). When twice a margin is more than a side, the span is empty at the origin.
pub proof fn lemma_span_is_area_minus_margin(layout: Layout, area: Rect)
    requires
        area.inner_defined(layout.spec_margin()),
    ensures
        ({
            let m = layout.spec_margin();
            let (start, end) = layout.spec_span(area);
            let fits = area.width >= 2 * m.horizontal && area.height >= 2 * m.vertical;
            &&& !fits ==> start == 0 && end == 0
            &&& fits && layout.spec_direction() == Direction::Horizontal ==> {
                &&& start == area.x + m.horizontal
                &&& end == saturate(area.x + area.width - m.horizontal)
            }
            &&& fits && layout.spec_direction() == Direction::Vertical ==> {
                &&& start == area.y + m.vertical
                &&& end == saturate(area.y + area.height - m.vertical)
            }
            &&& start <= end
        }),
{
}

} // verus!
