use vstd::prelude::*;

use crate::constraint::Constraint;
use crate::layout::Direction;
use crate::rect::Rect;

verus! {

/// A position that the constraint solver chooses: an edge of the whole area or of one of
/// the elements laid out in it.
#[derive(Debug, Clone, Copy, PartialEq, Eq, Structural, Hash)]
pub enum Anchor {
    AreaStart,
    AreaEnd,
    ElementStart(usize),
    ElementEnd(usize),
}

/// One side of a linear relation between positions.
#[derive(Debug, Clone, Copy, PartialEq, Eq, Structural, Hash)]
pub enum Term {
    /// A single position.
    At(Anchor),
    /// The size of an element: its end minus its start.
    ElementSize(usize),
    /// The size of the whole area times `numerator / denominator`.
    ScaledAreaSize(u32, u32),
    /// A fixed amount.
    Constant(u16),
}

#[derive(Debug, Clone, Copy, PartialEq, Eq, Structural, Hash)]
pub enum Relation {
    Equal,
    AtMost,
    AtLeast,
}

/// How hard the solver tries to satisfy a requirement: required ones always hold, strong
/// ones win over weak ones.
#[derive(Debug, Clone, Copy, PartialEq, Eq, Structural, Hash)]
pub enum Strength {
    Required,
    Strong,
    Weak,
}

/// A linear relation `lhs relation rhs` handed to the constraint solver, with its strength.
#[derive(Debug, Clone, Copy, PartialEq, Eq, Structural, Hash)]
pub struct Requirement {
    pub lhs: Term,
    pub relation: Relation,
    pub rhs: Term,
    pub strength: Strength,
}

pub open spec fn req(lhs: Term, relation: Relation, rhs: Term, strength: Strength) -> Requirement {
    Requirement { lhs, relation, rhs, strength }
}

/// The area spans exactly from `start` to `end`.
pub open spec fn bound_requirements(start: u16, end: u16) -> Seq<Requirement> {
    seq![
        req(Term::At(Anchor::AreaStart), Relation::Equal, Term::Constant(start), Strength::Required),
        req(Term::At(Anchor::AreaEnd), Relation::Equal, Term::Constant(end), Strength::Required),
    ]
}

/// Entry `k` of the containment requirements: even entries keep the start of element `k / 2`
/// at or after the start of the area, odd ones keep its end at or before the end of the area.
pub open spec fn containment_requirement(k: int) -> Requirement {
    if k % 2 == 0 {
        req(
            Term::At(Anchor::ElementStart((k / 2) as usize)),
            Relation::AtLeast,
            Term::At(Anchor::AreaStart),
            Strength::Required,
        )
    } else {
        req(
            Term::At(Anchor::ElementEnd((k / 2) as usize)),
            Relation::AtMost,
            Term::At(Anchor::AreaEnd),
            Strength::Required,
        )
    }
}

/// Every one of the `n` elements lies inside the area.
pub open spec fn containment_requirements(n: nat) -> Seq<Requirement> {
    Seq::new(2 * n, |k: int| containment_requirement(k))
}

/// Element `i` ends where element `i + 1` starts.
pub open spec fn adjacency_requirement(i: int) -> Requirement {
    req(
        Term::At(Anchor::ElementEnd(i as usize)),
        Relation::Equal,
        Term::At(Anchor::ElementStart((i + 1) as usize)),
        Strength::Required,
    )
}

/// No gaps between consecutive elements.
pub open spec fn adjacency_requirements(n: nat) -> Seq<Requirement> {
    Seq::new(
        if n > 0 {
            (n - 1) as nat
        } else {
            0
        },
        |i: int| adjacency_requirement(i),
    )
}

/// The first element touches the start of the area and, when the last element is to fill
/// the rest, the last one touches its end.
pub open spec fn edge_requirements(n: nat, expand_to_fill: bool) -> Seq<Requirement> {
    (if n > 0 {
        seq![
            req(
                Term::At(Anchor::ElementStart(0)),
                Relation::Equal,
                Term::At(Anchor::AreaStart),
                Strength::Required,
            ),
        ]
    } else {
        seq![]
    }) + (if expand_to_fill && n > 0 {
        seq![
            req(
                Term::At(Anchor::ElementEnd((n - 1) as usize)),
                Relation::Equal,
                Term::At(Anchor::AreaEnd),
                Strength::Required,
            ),
        ]
    } else {
        seq![]
    })
}

/// What constraint `c` asks of the size of element `i`.
pub open spec fn sizing_for(c: Constraint, i: int) -> Seq<Requirement> {
    let size = Term::ElementSize(i as usize);
    match c {
        Constraint::Percentage(p) => seq![
            req(size, Relation::Equal, Term::ScaledAreaSize(p as u32, 100), Strength::Strong),
        ],
        Constraint::Ratio(n, d) => seq![
            req(
                size,
                Relation::Equal,
                Term::ScaledAreaSize(
                    n,
                    if d == 0 {
                        1
                    } else {
                        d
                    },
                ),
                Strength::Strong,
            ),
        ],
        Constraint::Length(l) => seq![
            req(size, Relation::Equal, Term::Constant(l), Strength::Strong),
        ],
        Constraint::Max(m) => seq![
            req(size, Relation::AtMost, Term::Constant(m), Strength::Strong),
            req(size, Relation::Equal, Term::Constant(m), Strength::Weak),
        ],
        Constraint::Min(m) => seq![
            req(size, Relation::AtLeast, Term::Constant(m), Strength::Strong),
            req(size, Relation::Equal, Term::Constant(m), Strength::Weak),
        ],
    }
}

/// The sizing requirements of all constraints, element by element.
pub open spec fn sizing_requirements(cs: Seq<Constraint>) -> Seq<Requirement>
    decreases cs.len(),
{
    if cs.len() == 0 {
        seq![]
    } else {
        sizing_requirements(cs.drop_last()) + sizing_for(cs.last(), cs.len() - 1)
    }
}

/// The whole system handed to the solver, in the order in which it is added.
pub open spec fn spec_requirements(
    start: u16,
    end: u16,
    cs: Seq<Constraint>,
    expand_to_fill: bool,
) -> Seq<Requirement> {
    bound_requirements(start, end) + containment_requirements(cs.len()) + adjacency_requirements(
        cs.len(),
    ) + edge_requirements(cs.len(), expand_to_fill) + sizing_requirements(cs)
}

fn sizing_into(reqs: &mut Vec<Requirement>, c: Constraint, i: usize)
    ensures
        final(reqs)@ == old(reqs)@ + sizing_for(c, i as int),
{
    let size = Term::ElementSize(i);
    match c {
        Constraint::Percentage(p) => {
            reqs.push(
                Requirement {
                    lhs: size,
                    relation: Relation::Equal,
                    rhs: Term::ScaledAreaSize(p as u32, 100),
                    strength: Strength::Strong,
                },
            );
        },
        Constraint::Ratio(n, d) => {
            let d = if d == 0 {
                1
            } else {
                d
            };
            reqs.push(
                Requirement {
                    lhs: size,
                    relation: Relation::Equal,
                    rhs: Term::ScaledAreaSize(n, d),
                    strength: Strength::Strong,
                },
            );
        },
        Constraint::Length(l) => {
            reqs.push(
                Requirement {
                    lhs: size,
                    relation: Relation::Equal,
                    rhs: Term::Constant(l),
                    strength: Strength::Strong,
                },
            );
        },
        Constraint::Max(m) => {
            reqs.push(
                Requirement {
                    lhs: size,
                    relation: Relation::AtMost,
                    rhs: Term::Constant(m),
                    strength: Strength::Strong,
                },
            );
            reqs.push(
                Requirement {
                    lhs: size,
                    relation: Relation::Equal,
                    rhs: Term::Constant(m),
                    strength: Strength::Weak,
                },
            );
        },
        Constraint::Min(m) => {
            reqs.push(
                Requirement {
                    lhs: size,
                    relation: Relation::AtLeast,
                    rhs: Term::Constant(m),
                    strength: Strength::Strong,
                },
            );
            reqs.push(
                Requirement {
                    lhs: size,
                    relation: Relation::Equal,
                    rhs: Term::Constant(m),
                    strength: Strength::Weak,
                },
            );
        },
    }
    assert(final(reqs)@ =~= old(reqs)@ + sizing_for(c, i as int));
}

/// The requirements that place one element per constraint in the span from `start` to `end`:
/// the bounds of the area, each element inside it, no gaps between elements, the first element
/// at the start (and the last at the end when `expand_to_fill`), then what each constraint asks
/// of the size of its element.
pub fn requirements(start: u16, end: u16, constraints: &Vec<Constraint>, expand_to_fill: bool) -> (r:
    Vec<Requirement>)
    ensures
        r@ == spec_requirements(start, end, constraints@, expand_to_fill),
{
    let n = constraints.len();
    let mut reqs: Vec<Requirement> = Vec::new();
    reqs.push(
        Requirement {
            lhs: Term::At(Anchor::AreaStart),
            relation: Relation::Equal,
            rhs: Term::Constant(start),
            strength: Strength::Required,
        },
    );
    reqs.push(
        Requirement {
            lhs: Term::At(Anchor::AreaEnd),
            relation: Relation::Equal,
            rhs: Term::Constant(end),
            strength: Strength::Required,
        },
    );
    let ghost bounds = reqs@;
    assert(bounds =~= bound_requirements(start, end));

    let mut i: usize = 0;
    while i < n
        invariant
            n == constraints@.len(),
            i <= n,
            reqs@ =~= bounds + containment_requirements(i as nat),
        decreases n - i,
    {
        reqs.push(
            Requirement {
                lhs: Term::At(Anchor::ElementStart(i)),
                relation: Relation::AtLeast,
                rhs: Term::At(Anchor::AreaStart),
                strength: Strength::Required,
            },
        );
        reqs.push(
            Requirement {
                lhs: Term::At(Anchor::ElementEnd(i)),
                relation: Relation::AtMost,
                rhs: Term::At(Anchor::AreaEnd),
                strength: Strength::Required,
            },
        );
        assert(containment_requirements((i + 1) as nat) =~= containment_requirements(
            i as nat,
        ).push(containment_requirement(2 * i)).push(containment_requirement(2 * i + 1)));
        i = i + 1;
    }
    let ghost contained = reqs@;

    let mut i: usize = 0;
    while i + 1 < n
        invariant
            n == constraints@.len(),
            i < n || n == 0,
            i == 0 || i + 1 <= n,
            reqs@ =~= contained + Seq::new(i as nat, |j: int| adjacency_requirement(j)),
        decreases n - i,
    {
        reqs.push(
            Requirement {
                lhs: Term::At(Anchor::ElementEnd(i)),
                relation: Relation::Equal,
                rhs: Term::At(Anchor::ElementStart(i + 1)),
                strength: Strength::Required,
            },
        );
        i = i + 1;
    }
    assert(reqs@ =~= contained + adjacency_requirements(n as nat));
    let ghost adjacent = reqs@;

    if n > 0 {
        reqs.push(
            Requirement {
                lhs: Term::At(Anchor::ElementStart(0)),
                relation: Relation::Equal,
                rhs: Term::At(Anchor::AreaStart),
                strength: Strength::Required,
            },
        );
    }
    if expand_to_fill && n > 0 {
        reqs.push(
            Requirement {
                lhs: Term::At(Anchor::ElementEnd(n - 1)),
                relation: Relation::Equal,
                rhs: Term::At(Anchor::AreaEnd),
                strength: Strength::Required,
            },
        );
    }
    assert(reqs@ =~= adjacent + edge_requirements(n as nat, expand_to_fill));
    let ghost edged = reqs@;

    let mut i: usize = 0;
    while i < n
        invariant
            n == constraints@.len(),
            i <= n,
            reqs@ =~= edged + sizing_requirements(constraints@.take(i as int)),
        decreases n - i,
    {
        let ghost before = reqs@;
        sizing_into(&mut reqs, constraints[i], i);
        assert(constraints@.take(i + 1).drop_last() =~= constraints@.take(i as int));
        assert(reqs@ =~= edged + sizing_requirements(constraints@.take(i + 1)));
        i = i + 1;
    }
    assert(constraints@.take(n as int) =~= constraints@);
    reqs
}

/// What splitting an area decides before the constraint solver runs, and what it needs
/// afterwards to turn the positions the solver chose into rectangles.
#[derive(Debug, Clone, PartialEq, Eq)]
pub struct SplitPlan {
    /// The area left once the margins are taken off.
    pub inner: Rect,
    pub direction: Direction,
    /// Whether the last element is stretched to the end of the inner area.
    pub expand_to_fill: bool,
    /// Where the span of the elements starts along the direction.
    pub start: u16,
    /// Where the span of the elements ends along the direction.
    pub end: u16,
    /// How many elements are laid out.
    pub elements: usize,
    /// The system handed to the solver, in order.
    pub requirements: Vec<Requirement>,
}

impl SplitPlan {
    /// The far edge of the inner area along the direction of the layout.
    pub open spec fn far_edge(&self) -> int {
        match self.direction {
            Direction::Horizontal => self.inner.spec_right(),
            Direction::Vertical => self.inner.spec_bottom(),
        }
    }

    /// The spans can be placed: when the last element is stretched, it does not start past
    /// the far edge of the inner area.
    pub open spec fn can_place(&self, spans: Seq<(u16, u16)>) -> bool {
        self.expand_to_fill && spans.len() > 0 ==> spans.last().0 <= self.far_edge()
    }

    /// Whether `place` can take `spans`: when the last element is stretched, it must not
    /// start past the far edge of the inner area.
    pub fn can_place_spans(&self, spans: &Vec<(u16, u16)>) -> (r: bool)
        ensures
            r == self.can_place(spans@),
    {
        if self.expand_to_fill && spans.len() > 0 {
            let far = match self.direction {
                Direction::Horizontal => self.inner.right(),
                Direction::Vertical => self.inner.bottom(),
            };
            spans[spans.len() - 1].0 <= far
        } else {
            true
        }
    }

    /// The rectangle of element `i`, placed at position `spans[i].0` with size `spans[i].1`
    /// along the direction and spanning the inner area across it; the last element is
    /// stretched to the far edge when `expand_to_fill`.
    pub open spec fn spec_placed(&self, spans: Seq<(u16, u16)>, i: int) -> Rect {
        let pos = spans[i].0;
        let size = if self.expand_to_fill && i == spans.len() - 1 {
            (self.far_edge() - pos) as u16
        } else {
            spans[i].1
        };
        match self.direction {
            Direction::Horizontal => Rect {
                x: pos,
                y: self.inner.y,
                width: size,
                height: self.inner.height,
            },
            Direction::Vertical => Rect {
                x: self.inner.x,
                y: pos,
                width: self.inner.width,
                height: size,
            },
        }
    }

    /// Turns the position and size the solver chose for each element, cut to whole cells,
    /// into the rectangles of the split.
    pub fn place(&self, spans: &Vec<(u16, u16)>) -> (r: Vec<Rect>)
        requires
            self.can_place(spans@),
        ensures
            r@.len() == spans@.len(),
            forall|i: int| 0 <= i < r@.len() ==> r@[i] == self.spec_placed(spans@, i),
            forall|i: int|
                #![trigger r@[i]]
                0 <= i < r@.len() ==> match self.direction {
                    Direction::Horizontal => r@[i].y == self.inner.y && r@[i].height
                        == self.inner.height,
                    Direction::Vertical => r@[i].x == self.inner.x && r@[i].width
                        == self.inner.width,
                },
            self.expand_to_fill && r@.len() > 0 ==> match self.direction {
                Direction::Horizontal => r@.last().x + r@.last().width == self.far_edge(),
                Direction::Vertical => r@.last().y + r@.last().height == self.far_edge(),
            },
    {
        let n = spans.len();
        let far = match self.direction {
            Direction::Horizontal => self.inner.right(),
            Direction::Vertical => self.inner.bottom(),
        };
        let mut rects: Vec<Rect> = Vec::new();
        let mut i: usize = 0;
        while i < n
            invariant
                n == spans@.len(),
                i <= n,
                far == self.far_edge(),
                self.can_place(spans@),
                rects@.len() == i,
                forall|j: int| 0 <= j < i ==> rects@[j] == self.spec_placed(spans@, j),
            decreases n - i,
        {
            let (pos, len) = spans[i];
            let size = if self.expand_to_fill && i == n - 1 {
                far - pos
            } else {
                len
            };
            let rect = match self.direction {
                Direction::Horizontal => Rect {
                    x: pos,
                    y: self.inner.y,
                    width: size,
                    height: self.inner.height,
                },
                Direction::Vertical => Rect {
                    x: self.inner.x,
                    y: pos,
                    width: self.inner.width,
                    height: size,
                },
            };
            rects.push(rect);
            i = i + 1;
        }
        rects
    }
}

impl SplitPlan {
    /// Where rectangle `r` starts along the direction of the layout.
    pub open spec fn leading(&self, r: Rect) -> int {
        match self.direction {
            Direction::Horizontal => r.x as int,
            Direction::Vertical => r.y as int,
        }
    }

    /// The size of rectangle `r` along the direction of the layout.
    pub open spec fn extent(&self, r: Rect) -> int {
        match self.direction {
            Direction::Horizontal => r.width as int,
            Direction::Vertical => r.height as int,
        }
    }

    /// The sizes of the first `k` placed rectangles along the direction, added up.
    pub open spec fn placed_total(&self, spans: Seq<(u16, u16)>, k: nat) -> int
        decreases k,
    {
        if k == 0 {
            0
        } else {
            self.placed_total(spans, (k - 1) as nat) + self.extent(self.spec_placed(spans, k - 1))
        }
    }

    /// The spans start at the start of the plan and follow on without gaps.
    pub open spec fn spans_follow_on(&self, spans: Seq<(u16, u16)>) -> bool {
        &&& spans.len() > 0
        &&& spans[0].0 == self.start
        &&& forall|i: int|
            #![trigger spans[i]]
            0 <= i < spans.len() - 1 ==> spans[i].0 + spans[i].1 == spans[i + 1].0
    }
}

proof fn lemma_placed_total_telescopes(plan: SplitPlan, spans: Seq<(u16, u16)>, k: nat)
    requires
        plan.spans_follow_on(spans),
        plan.can_place(spans),
        1 <= k <= spans.len(),
    ensures
        plan.placed_total(spans, k) == plan.leading(plan.spec_placed(spans, k - 1)) + plan.extent(
            plan.spec_placed(spans, k - 1),
        ) - plan.start,
    decreases k,
{
    assert(plan.placed_total(spans, k) == plan.placed_total(spans, (k - 1) as nat) + plan.extent(
        plan.spec_placed(spans, k - 1),
    ));
    if k > 1 {
        lemma_placed_total_telescopes(plan, spans, (k - 1) as nat);
        let j = k - 2;
        assert(spans[j].0 + spans[j].1 == spans[j + 1].0);
        assert(plan.leading(plan.spec_placed(spans, j)) == spans[j].0);
        assert(plan.extent(plan.spec_placed(spans, j)) == spans[j].1);
        assert(plan.leading(plan.spec_placed(spans, j + 1)) == spans[j + 1].0);
    } else {
        assert(plan.placed_total(spans, 0) == 0);
        assert(plan.leading(plan.spec_placed(spans, 0)) == spans[0].0);
    }
}

/// When the last element is stretched and the solver's positions start at the start of the
/// span and follow on without gaps, the placed rectangles tile the span: the first starts at
/// the start, each ends where the next starts, the last ends at the far edge of the inner area,
/// and their sizes add up to the length of the span.
pub proof fn lemma_place_tiles(plan: SplitPlan, spans: Seq<(u16, u16)>)
    requires
        plan.expand_to_fill,
        plan.can_place(spans),
        plan.spans_follow_on(spans),
    ensures
        plan.leading(plan.spec_placed(spans, 0)) == plan.start,
        forall|i: int|
            #![trigger plan.spec_placed(spans, i)]
            0 <= i < spans.len() - 1 ==> plan.leading(plan.spec_placed(spans, i)) + plan.extent(
                plan.spec_placed(spans, i),
            ) == plan.leading(plan.spec_placed(spans, i + 1)),
        plan.leading(plan.spec_placed(spans, spans.len() - 1)) + plan.extent(
            plan.spec_placed(spans, spans.len() - 1),
        ) == plan.far_edge(),
        plan.placed_total(spans, spans.len()) == plan.far_edge() - plan.start,
{
    assert forall|i: int|
        #![trigger plan.spec_placed(spans, i)]
        0 <= i < spans.len() - 1 implies plan.leading(plan.spec_placed(spans, i)) + plan.extent(
            plan.spec_placed(spans, i),
        ) == plan.leading(plan.spec_placed(spans, i + 1)) by {
        assert(spans[i].0 + spans[i].1 == spans[i + 1].0);
    }
    lemma_placed_total_telescopes(plan, spans, spans.len());
}

/// The value of a term under an assignment of positions, as a fraction `(numerator,
/// denominator)`.
pub open spec fn term_value(t: Term, v: spec_fn(Anchor) -> int) -> (int, int) {
    match t {
        Term::At(a) => (v(a), 1),
        Term::ElementSize(i) => (v(Anchor::ElementEnd(i)) - v(Anchor::ElementStart(i)), 1),
        Term::ScaledAreaSize(n, d) => ((v(Anchor::AreaEnd) - v(Anchor::AreaStart)) * n, d as int),
        Term::Constant(c) => (c as int, 1),
    }
}

/// Requirement `r` holds when the positions are those of `v`.
pub open spec fn satisfied(r: Requirement, v: spec_fn(Anchor) -> int) -> bool {
    let (a, b) = term_value(r.lhs, v);
    let (c, d) = term_value(r.rhs, v);
    match r.relation {
        Relation::Equal => a * d == c * b,
        Relation::AtMost => a * d <= c * b,
        Relation::AtLeast => a * d >= c * b,
    }
}

/// Every required requirement of `reqs` holds when the positions are those of `v`.
pub open spec fn required_hold(reqs: Seq<Requirement>, v: spec_fn(Anchor) -> int) -> bool {
    forall|k: int|
        0 <= k < reqs.len() && (#[trigger] reqs[k]).strength == Strength::Required ==> satisfied(
            reqs[k],
            v,
        )
}

/// Positions that meet every required requirement for `n` elements in the span from `start`
/// to `end`: every element starts and ends at the start, except that the last one ends at the
/// end when it is stretched.
pub open spec fn required_witness(start: u16, end: u16, n: nat, expand_to_fill: bool) -> spec_fn(
    Anchor,
) -> int {
    |a: Anchor|
        match a {
            Anchor::AreaStart => start as int,
            Anchor::AreaEnd => end as int,
            Anchor::ElementStart(_) => start as int,
            Anchor::ElementEnd(i) => if expand_to_fill && i + 1 == n {
                end as int
            } else {
                start as int
            },
        }
}

proof fn lemma_required_hold_concat(a: Seq<Requirement>, b: Seq<Requirement>, v: spec_fn(Anchor) -> int)
    requires
        required_hold(a, v),
        required_hold(b, v),
    ensures
        required_hold(a + b, v),
{
    assert forall|k: int|
        0 <= k < (a + b).len() && (#[trigger] (a + b)[k]).strength == Strength::Required implies satisfied(
            (a + b)[k],
            v,
        ) by {
        if k < a.len() {
            assert((a + b)[k] == a[k]);
        } else {
            assert((a + b)[k] == b[k - a.len()]);
        }
    }
}

proof fn lemma_sizing_not_required(cs: Seq<Constraint>, v: spec_fn(Anchor) -> int)
    ensures
        required_hold(sizing_requirements(cs), v),
    decreases cs.len(),
{
    if cs.len() > 0 {
        lemma_sizing_not_required(cs.drop_last(), v);
        let last = sizing_for(cs.last(), cs.len() - 1);
        assert forall|k: int|
            0 <= k < last.len() && (#[trigger] last[k]).strength == Strength::Required implies satisfied(
                last[k],
                v,
            ) by {}
        lemma_required_hold_concat(sizing_requirements(cs.drop_last()), last, v);
    }
}

/// The required part of the system that `plan` hands to the solver can always be met, whatever
/// the constraints: `required_witness` meets it.
pub proof fn lemma_required_satisfiable(
    start: u16,
    end: u16,
    cs: Seq<Constraint>,
    expand_to_fill: bool,
)
    requires
        start <= end,
        cs.len() <= usize::MAX,
    ensures
        required_hold(
            spec_requirements(start, end, cs, expand_to_fill),
            required_witness(start, end, cs.len(), expand_to_fill),
        ),
        exists|v: spec_fn(Anchor) -> int|
            #[trigger] required_hold(spec_requirements(start, end, cs, expand_to_fill), v),
{
    let n = cs.len();
    let v = required_witness(start, end, n, expand_to_fill);
    let bounds = bound_requirements(start, end);
    let contained = containment_requirements(n);
    let adjacent = adjacency_requirements(n);
    let edges = edge_requirements(n, expand_to_fill);
    assert forall|k: int|
        0 <= k < bounds.len() && (#[trigger] bounds[k]).strength == Strength::Required implies satisfied(
            bounds[k],
            v,
        ) by {}
    assert forall|k: int|
        0 <= k < contained.len() && (#[trigger] contained[k]).strength
            == Strength::Required implies satisfied(contained[k], v) by {
        assert(contained[k] == containment_requirement(k));
        let i = (k / 2) as usize;
        if k % 2 == 0 {
            assert(term_value(contained[k].lhs, v) == (start as int, 1int));
            assert(term_value(contained[k].rhs, v) == (start as int, 1int));
            assert(contained[k].relation == Relation::AtLeast);
            assert(start as int * 1 >= start as int * 1);
        } else {
            let e = v(Anchor::ElementEnd(i));
            assert(e == start || e == end);
            assert(term_value(contained[k].lhs, v) == (e, 1int));
            assert(term_value(contained[k].rhs, v) == (end as int, 1int));
            assert(contained[k].relation == Relation::AtMost);
            assert(e * 1 <= end as int * 1);
        }
    }
    assert forall|k: int|
        0 <= k < adjacent.len() && (#[trigger] adjacent[k]).strength
            == Strength::Required implies satisfied(adjacent[k], v) by {
        assert(adjacent[k] == adjacency_requirement(k));
        assert(k + 1 < n);
    }
    assert forall|k: int|
        0 <= k < edges.len() && (#[trigger] edges[k]).strength == Strength::Required implies satisfied(
            edges[k],
            v,
        ) by {}
    lemma_sizing_not_required(cs, v);
    lemma_required_hold_concat(bounds, contained, v);
    lemma_required_hold_concat(bounds + contained, adjacent, v);
    lemma_required_hold_concat(bounds + contained + adjacent, edges, v);
    lemma_required_hold_concat(bounds + contained + adjacent + edges, sizing_requirements(cs), v);
    assert(required_hold(spec_requirements(start, end, cs, expand_to_fill), v));
}

/// Every requirement of `reqs` that is required or strong holds when the positions are those
/// of `v`.
pub open spec fn strong_hold(reqs: Seq<Requirement>, v: spec_fn(Anchor) -> int) -> bool {
    forall|k: int|
        0 <= k < reqs.len() && (#[trigger] reqs[k]).strength != Strength::Weak ==> satisfied(
            reqs[k],
            v,
        )
}

/// `r` compared on the numerators of its two sides alone.
spec fn holds_on_numerators(r: Requirement, v: spec_fn(Anchor) -> int) -> bool {
    let a = term_value(r.lhs, v).0;
    let c = term_value(r.rhs, v).0;
    match r.relation {
        Relation::Equal => a == c,
        Relation::AtMost => a <= c,
        Relation::AtLeast => a >= c,
    }
}

proof fn lemma_satisfied_whole(r: Requirement, v: spec_fn(Anchor) -> int)
    requires
        term_value(r.lhs, v).1 == 1,
        term_value(r.rhs, v).1 == 1,
    ensures
        satisfied(r, v) == holds_on_numerators(r, v),
{
    let (a, b) = term_value(r.lhs, v);
    let (c, d) = term_value(r.rhs, v);
    assert(a * d == a && c * b == c);
}

/// How many requirements come before the sizing ones.
pub open spec fn sizing_base(n: nat, expand_to_fill: bool) -> int {
    (2 + containment_requirements(n).len() + adjacency_requirements(n).len()
        + edge_requirements(n, expand_to_fill).len()) as int
}

/// Where the sizing requirements of constraint `i` start among all sizing requirements.
pub open spec fn sizing_offset(cs: Seq<Constraint>, i: int) -> int {
    sizing_requirements(cs.take(i)).len() as int
}

proof fn lemma_sizing_block(cs: Seq<Constraint>, i: int)
    requires
        0 <= i < cs.len(),
    ensures
        sizing_offset(cs, i) + sizing_for(cs[i], i).len() <= sizing_requirements(cs).len(),
        forall|j: int|
            0 <= j < sizing_for(cs[i], i).len() ==> sizing_requirements(cs)[sizing_offset(cs, i)
                + j] == #[trigger] sizing_for(cs[i], i)[j],
    decreases cs.len(),
{
    let init = cs.drop_last();
    assert(cs.take(cs.len() - 1) =~= init);
    if i == cs.len() - 1 {
        assert forall|j: int|
            0 <= j < sizing_for(cs[i], i).len() implies sizing_requirements(cs)[sizing_offset(
                cs,
                i,
            ) + j] == #[trigger] sizing_for(cs[i], i)[j] by {}
    } else {
        lemma_sizing_block(init, i);
        assert(init.take(i) =~= cs.take(i));
        assert(init[i] == cs[i]);
        assert forall|j: int|
            0 <= j < sizing_for(cs[i], i).len() implies sizing_requirements(cs)[sizing_offset(
                cs,
                i,
            ) + j] == #[trigger] sizing_for(cs[i], i)[j] by {
            assert(sizing_requirements(init)[sizing_offset(init, i) + j] == sizing_for(
                init[i],
                i,
            )[j]);
        }
    }
}

proof fn lemma_requirement_positions(start: u16, end: u16, cs: Seq<Constraint>, expand_to_fill: bool)
    ensures
        ({
            let n = cs.len();
            let reqs = spec_requirements(start, end, cs, expand_to_fill);
            let adj = 2 + 2 * n;
            let edges_at = (adj + adjacency_requirements(n).len()) as int;
            &&& reqs.len() == sizing_base(n, expand_to_fill) + sizing_requirements(cs).len()
            &&& forall|k: int| 0 <= k < 2 * n ==> reqs[2 + k] == containment_requirement(k)
            &&& forall|i: int| 0 <= i < n - 1 ==> reqs[adj + i] == adjacency_requirement(i)
            &&& n > 0 ==> reqs[edges_at] == req(
                Term::At(Anchor::ElementStart(0)),
                Relation::Equal,
                Term::At(Anchor::AreaStart),
                Strength::Required,
            )
            &&& expand_to_fill && n > 0 ==> reqs[edges_at + 1] == req(
                Term::At(Anchor::ElementEnd((n - 1) as usize)),
                Relation::Equal,
                Term::At(Anchor::AreaEnd),
                Strength::Required,
            )
            &&& forall|k: int|
                0 <= k < sizing_requirements(cs).len() ==> reqs[sizing_base(n, expand_to_fill) + k]
                    == sizing_requirements(cs)[k]
        }),
{
    let n = cs.len();
    let b = bound_requirements(start, end);
    let c = containment_requirements(n);
    let a = adjacency_requirements(n);
    let e = edge_requirements(n, expand_to_fill);
    let z = sizing_requirements(cs);
    let reqs = spec_requirements(start, end, cs, expand_to_fill);
    assert(reqs == b + c + a + e + z);
    assert forall|k: int| 0 <= k < 2 * n implies reqs[2 + k] == containment_requirement(k) by {
        assert((b + c)[2 + k] == c[k]);
    }
    assert forall|i: int| 0 <= i < n - 1 implies reqs[2 + 2 * n + i] == adjacency_requirement(
        i,
    ) by {
        assert((b + c + a)[2 + 2 * n + i] == a[i]);
    }
    if n > 0 {
        let at = (2 + 2 * n + a.len()) as int;
        assert((b + c + a + e)[at] == e[0]);
        if expand_to_fill {
            assert((b + c + a + e)[at + 1] == e[1]);
        }
    }
}

/// Positions that meet the required part of the system place the elements as a chain without
/// gaps inside the span: every element starts and ends within it, the first starts at its start,
/// each ends where the next starts, and the last ends at its end when it is stretched.
pub proof fn lemma_required_positions_chain(
    start: u16,
    end: u16,
    cs: Seq<Constraint>,
    expand_to_fill: bool,
    v: spec_fn(Anchor) -> int,
)
    requires
        cs.len() <= usize::MAX,
        required_hold(spec_requirements(start, end, cs, expand_to_fill), v),
    ensures
        v(Anchor::AreaStart) == start,
        v(Anchor::AreaEnd) == end,
        forall|i: int|
            0 <= i < cs.len() ==> #[trigger] v(Anchor::ElementStart(i as usize)) >= start,
        forall|i: int| 0 <= i < cs.len() ==> #[trigger] v(Anchor::ElementEnd(i as usize)) <= end,
        cs.len() > 0 ==> v(Anchor::ElementStart(0)) == start,
        forall|i: int|
            0 <= i < cs.len() - 1 ==> #[trigger] v(Anchor::ElementEnd(i as usize)) == v(
                Anchor::ElementStart((i + 1) as usize),
            ),
        expand_to_fill && cs.len() > 0 ==> v(Anchor::ElementEnd((cs.len() - 1) as usize)) == end,
{
    let n = cs.len();
    let reqs = spec_requirements(start, end, cs, expand_to_fill);
    lemma_requirement_positions(start, end, cs, expand_to_fill);
    assert(reqs[0] == bound_requirements(start, end)[0]);
    assert(reqs[1] == bound_requirements(start, end)[1]);
    assert(satisfied(reqs[0], v));
    assert(satisfied(reqs[1], v));
    lemma_satisfied_whole(reqs[0], v);
    lemma_satisfied_whole(reqs[1], v);
    assert forall|i: int| 0 <= i < n implies #[trigger] v(Anchor::ElementStart(i as usize))
        >= start by {
        let k = 2 + 2 * i;
        assert(reqs[k] == containment_requirement(2 * i));
        assert(satisfied(reqs[k], v));
        lemma_satisfied_whole(reqs[k], v);
    }
    assert forall|i: int| 0 <= i < n implies #[trigger] v(Anchor::ElementEnd(i as usize))
        <= end by {
        let k = 2 + (2 * i + 1);
        assert(reqs[k] == containment_requirement(2 * i + 1));
        assert(satisfied(reqs[k], v));
        lemma_satisfied_whole(reqs[k], v);
    }
    assert forall|i: int| 0 <= i < n - 1 implies #[trigger] v(Anchor::ElementEnd(i as usize))
        == v(Anchor::ElementStart((i + 1) as usize)) by {
        let k = 2 + 2 * n + i;
        assert(reqs[k] == adjacency_requirement(i));
        assert(satisfied(reqs[k], v));
        lemma_satisfied_whole(reqs[k], v);
    }
    let edges_at = (2 + 2 * n + adjacency_requirements(n).len()) as int;
    if n > 0 {
        assert(satisfied(reqs[edges_at], v));
        lemma_satisfied_whole(reqs[edges_at], v);
        if expand_to_fill {
            assert(satisfied(reqs[edges_at + 1], v));
            lemma_satisfied_whole(reqs[edges_at + 1], v);
        }
    }
}

/// The size that constraint `c` asks of an element of size `size` in an area of size `area`
/// holds: an exact length, an upper bound, a lower bound, or a share of the area.
pub open spec fn size_meets(c: Constraint, size: int, area: int) -> bool {
    match c {
        Constraint::Percentage(p) => size * 100 == area * p,
        Constraint::Ratio(n, d) => size * (if d == 0 {
            1
        } else {
            d as int
        }) == area * n,
        Constraint::Length(l) => size == l,
        Constraint::Max(m) => size <= m,
        Constraint::Min(m) => size >= m,
    }
}

proof fn lemma_strong_size_of(
    start: u16,
    end: u16,
    cs: Seq<Constraint>,
    expand_to_fill: bool,
    v: spec_fn(Anchor) -> int,
    i: int,
)
    requires
        0 <= i < cs.len() <= usize::MAX,
        strong_hold(spec_requirements(start, end, cs, expand_to_fill), v),
    ensures
        size_meets(
            cs[i],
            v(Anchor::ElementEnd(i as usize)) - v(Anchor::ElementStart(i as usize)),
            v(Anchor::AreaEnd) - v(Anchor::AreaStart),
        ),
{
    let n = cs.len();
    let reqs = spec_requirements(start, end, cs, expand_to_fill);
    lemma_requirement_positions(start, end, cs, expand_to_fill);
    lemma_sizing_block(cs, i);
    let block = sizing_for(cs[i], i);
    let z = sizing_requirements(cs);
    let off = sizing_offset(cs, i);
    assert(z[off + 0] == block[0]);
    let k = sizing_base(n, expand_to_fill) + off;
    assert(reqs[k] == z[off]);
    assert(block[0].strength == Strength::Strong);
    assert(satisfied(reqs[k], v));
    lemma_size_from_first_sizing(cs[i], i, v);
}

proof fn lemma_size_from_first_sizing(c: Constraint, i: int, v: spec_fn(Anchor) -> int)
    requires
        0 <= i <= usize::MAX,
        satisfied(sizing_for(c, i)[0], v),
    ensures
        size_meets(
            c,
            v(Anchor::ElementEnd(i as usize)) - v(Anchor::ElementStart(i as usize)),
            v(Anchor::AreaEnd) - v(Anchor::AreaStart),
        ),
{
    let r = sizing_for(c, i)[0];
    let size = v(Anchor::ElementEnd(i as usize)) - v(Anchor::ElementStart(i as usize));
    let area = v(Anchor::AreaEnd) - v(Anchor::AreaStart);
    assert(term_value(r.lhs, v) == (size, 1int));
    let (rc, rd) = term_value(r.rhs, v);
    assert(rc * 1 == rc);
    match c {
        Constraint::Percentage(p) => {
            assert(rd == 100 && rc == area * p);
        },
        Constraint::Ratio(num, den) => {
            assert(rc == area * num);
        },
        _ => {
            lemma_satisfied_whole(r, v);
        },
    }
}

/// Positions that meet the required and strong part of the system give every element the size
/// its constraint asks: exactly a length, at most a maximum, at least a minimum, or its share of
/// the area.
pub proof fn lemma_strong_positions_meet_constraints(
    start: u16,
    end: u16,
    cs: Seq<Constraint>,
    expand_to_fill: bool,
    v: spec_fn(Anchor) -> int,
)
    requires
        cs.len() <= usize::MAX,
        strong_hold(spec_requirements(start, end, cs, expand_to_fill), v),
    ensures
        forall|i: int|
            0 <= i < cs.len() ==> size_meets(
                #[trigger] cs[i],
                v(Anchor::ElementEnd(i as usize)) - v(Anchor::ElementStart(i as usize)),
                v(Anchor::AreaEnd) - v(Anchor::AreaStart),
            ),
{
    assert forall|i: int| 0 <= i < cs.len() implies size_meets(
        #[trigger] cs[i],
        v(Anchor::ElementEnd(i as usize)) - v(Anchor::ElementStart(i as usize)),
        v(Anchor::AreaEnd) - v(Anchor::AreaStart),
    ) by {
        lemma_strong_size_of(start, end, cs, expand_to_fill, v, i);
    }
}

/// Every requirement of `reqs` holds when the positions are those of `v`.
pub open spec fn all_hold(reqs: Seq<Requirement>, v: spec_fn(Anchor) -> int) -> bool {
    forall|k: int| 0 <= k < reqs.len() ==> satisfied(#[trigger] reqs[k], v)
}

proof fn lemma_wish_of(
    start: u16,
    end: u16,
    cs: Seq<Constraint>,
    expand_to_fill: bool,
    v: spec_fn(Anchor) -> int,
    i: int,
)
    requires
        0 <= i < cs.len() <= usize::MAX,
        all_hold(spec_requirements(start, end, cs, expand_to_fill), v),
    ensures
        cs[i] matches Constraint::Max(m) ==> v(Anchor::ElementEnd(i as usize)) - v(
            Anchor::ElementStart(i as usize),
        ) == m,
        cs[i] matches Constraint::Min(m) ==> v(Anchor::ElementEnd(i as usize)) - v(
            Anchor::ElementStart(i as usize),
        ) == m,
{
    let n = cs.len();
    let reqs = spec_requirements(start, end, cs, expand_to_fill);
    lemma_requirement_positions(start, end, cs, expand_to_fill);
    lemma_sizing_block(cs, i);
    let block = sizing_for(cs[i], i);
    let z = sizing_requirements(cs);
    let off = sizing_offset(cs, i);
    if block.len() == 2 {
        assert(z[off + 1] == block[1]);
        let k = sizing_base(n, expand_to_fill) + off + 1;
        assert(reqs[k] == z[off + 1]);
        assert(satisfied(reqs[k], v));
        let r = block[1];
        assert(term_value(r.lhs, v).1 == 1 && term_value(r.rhs, v).1 == 1);
        lemma_satisfied_whole(r, v);
    }
}

/// Positions that meet every requirement, the weak ones too, give each element with a maximum
/// or a minimum exactly that amount: the weak wish is for the bound itself.
pub proof fn lemma_all_positions_meet_wishes(
    start: u16,
    end: u16,
    cs: Seq<Constraint>,
    expand_to_fill: bool,
    v: spec_fn(Anchor) -> int,
)
    requires
        cs.len() <= usize::MAX,
        all_hold(spec_requirements(start, end, cs, expand_to_fill), v),
    ensures
        forall|i: int|
            0 <= i < cs.len() ==> ((#[trigger] cs[i]) matches Constraint::Max(m) ==> v(
                Anchor::ElementEnd(i as usize),
            ) - v(Anchor::ElementStart(i as usize)) == m),
        forall|i: int|
            0 <= i < cs.len() ==> ((#[trigger] cs[i]) matches Constraint::Min(m) ==> v(
                Anchor::ElementEnd(i as usize),
            ) - v(Anchor::ElementStart(i as usize)) == m),
{
    assert forall|i: int| 0 <= i < cs.len() implies ((#[trigger] cs[i]) matches Constraint::Max(
        m,
    ) ==> v(Anchor::ElementEnd(i as usize)) - v(Anchor::ElementStart(i as usize)) == m) by {
        lemma_wish_of(start, end, cs, expand_to_fill, v, i);
    }
    assert forall|i: int| 0 <= i < cs.len() implies ((#[trigger] cs[i]) matches Constraint::Min(
        m,
    ) ==> v(Anchor::ElementEnd(i as usize)) - v(Anchor::ElementStart(i as usize)) == m) by {
        lemma_wish_of(start, end, cs, expand_to_fill, v, i);
    }
}

} // verus!
