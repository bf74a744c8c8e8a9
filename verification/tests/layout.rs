use ratatui_layout::Alignment;
use ratatui_layout::Anchor;
use ratatui_layout::Constraint;
use ratatui_layout::Corner;
use ratatui_layout::Direction;
use ratatui_layout::Layout;
use ratatui_layout::Rect;
use ratatui_layout::Relation;
use ratatui_layout::Requirement;
use ratatui_layout::SplitPlan;
use ratatui_layout::Strength;
use ratatui_layout::Term;

fn req(lhs: Term, relation: Relation, rhs: Term, strength: Strength) -> Requirement {
    Requirement { lhs, relation, rhs, strength }
}

#[test]
fn layout_can_be_const() {
    let _layout: Layout = Layout::new();
    let _default_layout: Layout = Layout::new()
        .direction(Direction::Horizontal)
        .margin(1)
        .expand_to_fill(false);
    let _horizontal_layout: Layout = Layout::new().horizontal_margin(1);
    let _vertical_layout: Layout = Layout::new().vertical_margin(1);
}

#[test]
fn enum_defaults() {
    assert_eq!(Direction::default(), Direction::Vertical);
    assert_eq!(Corner::default(), Corner::TopLeft);
    assert_eq!(Alignment::default(), Alignment::Left);
    assert_eq!(Layout::default(), Layout::new());
}

#[test]
fn plan_takes_margins_off() {
    let area = Rect::new(0, 0, 10, 10);
    let both = Layout::default().constraints(vec![Constraint::Min(0)]).margin(2).plan(area);
    assert_eq!(both.inner, Rect::new(2, 2, 6, 6));
    assert_eq!((both.start, both.end), (2, 8));
    assert_eq!(both.direction, Direction::Vertical);
    assert!(both.expand_to_fill);
    assert_eq!(both.elements, 1);

    let horizontal = Layout::default()
        .constraints(vec![Constraint::Min(0)])
        .horizontal_margin(2)
        .plan(area);
    assert_eq!(horizontal.inner, Rect::new(2, 0, 6, 10));
    assert_eq!((horizontal.start, horizontal.end), (0, 10));

    let vertical = Layout::default()
        .constraints(vec![Constraint::Min(0)])
        .vertical_margin(2)
        .direction(Direction::Horizontal)
        .plan(area);
    assert_eq!(vertical.inner, Rect::new(0, 2, 10, 6));
    assert_eq!((vertical.start, vertical.end), (0, 10));

    let too_big = Layout::default().margin(6).plan(area);
    assert_eq!(too_big.inner, Rect::default());
    assert_eq!((too_big.start, too_big.end), (0, 0));
}

#[test]
fn plan_requirements_in_order() {
    let plan = Layout::default()
        .direction(Direction::Horizontal)
        .constraints(vec![Constraint::Length(5), Constraint::Min(0)])
        .plan(Rect::new(0, 0, 10, 10));
    let start = |i: usize| Term::At(Anchor::ElementStart(i));
    let end = |i: usize| Term::At(Anchor::ElementEnd(i));
    let area_start = Term::At(Anchor::AreaStart);
    let area_end = Term::At(Anchor::AreaEnd);
    let required = Strength::Required;
    assert_eq!(
        plan.requirements,
        vec![
            req(area_start, Relation::Equal, Term::Constant(0), required),
            req(area_end, Relation::Equal, Term::Constant(10), required),
            req(start(0), Relation::AtLeast, area_start, required),
            req(end(0), Relation::AtMost, area_end, required),
            req(start(1), Relation::AtLeast, area_start, required),
            req(end(1), Relation::AtMost, area_end, required),
            req(end(0), Relation::Equal, start(1), required),
            req(start(0), Relation::Equal, area_start, required),
            req(end(1), Relation::Equal, area_end, required),
            req(Term::ElementSize(0), Relation::Equal, Term::Constant(5), Strength::Strong),
            req(Term::ElementSize(1), Relation::AtLeast, Term::Constant(0), Strength::Strong),
            req(Term::ElementSize(1), Relation::Equal, Term::Constant(0), Strength::Weak),
        ]
    );
}

#[test]
fn plan_requirements_for_scaled_sizes() {
    let plan = Layout::default()
        .constraints(vec![
            Constraint::Percentage(25),
            Constraint::Ratio(1, 0),
            Constraint::Ratio(2, 3),
            Constraint::Max(4),
        ])
        .expand_to_fill(false)
        .plan(Rect::new(3, 4, 20, 30));
    assert_eq!((plan.start, plan.end), (4, 34));
    assert_eq!(plan.elements, 4);
    assert_eq!(plan.requirements.len(), 2 + 8 + 3 + 1 + 5);
    assert_eq!(
        plan.requirements[13],
        req(
            Term::At(Anchor::ElementStart(0)),
            Relation::Equal,
            Term::At(Anchor::AreaStart),
            Strength::Required
        )
    );
    assert_eq!(
        plan.requirements[14..],
        [
            req(Term::ElementSize(0), Relation::Equal, Term::ScaledAreaSize(25, 100), Strength::Strong),
            req(Term::ElementSize(1), Relation::Equal, Term::ScaledAreaSize(1, 1), Strength::Strong),
            req(Term::ElementSize(2), Relation::Equal, Term::ScaledAreaSize(2, 3), Strength::Strong),
            req(Term::ElementSize(3), Relation::AtMost, Term::Constant(4), Strength::Strong),
            req(Term::ElementSize(3), Relation::Equal, Term::Constant(4), Strength::Weak),
        ]
    );
}

#[test]
fn plan_without_constraints() {
    let plan = Layout::default().plan(Rect::new(1, 1, 5, 5));
    assert_eq!(plan.elements, 0);
    assert_eq!(
        plan.requirements,
        vec![
            req(Term::At(Anchor::AreaStart), Relation::Equal, Term::Constant(1), Strength::Required),
            req(Term::At(Anchor::AreaEnd), Relation::Equal, Term::Constant(6), Strength::Required),
        ]
    );
    assert_eq!(plan.place(&vec![]), vec![]);
}

fn plan_for(layout: Layout, area: Rect) -> SplitPlan {
    layout.plan(area)
}

#[test]
fn place_documented_splits() {
    let horizontal = plan_for(
        Layout::default()
            .direction(Direction::Horizontal)
            .constraints(vec![Constraint::Length(5), Constraint::Min(0)]),
        Rect::new(0, 0, 10, 10),
    );
    assert_eq!(
        horizontal.place(&vec![(0, 5), (5, 5)]),
        vec![Rect::new(0, 0, 5, 10), Rect::new(5, 0, 5, 10)]
    );

    let vertical = plan_for(
        Layout::default()
            .direction(Direction::Vertical)
            .constraints(vec![Constraint::Length(5), Constraint::Min(0)]),
        Rect::new(2, 2, 10, 10),
    );
    assert_eq!(
        vertical.place(&vec![(2, 5), (7, 5)]),
        vec![Rect::new(2, 2, 10, 5), Rect::new(2, 7, 10, 5)]
    );

    let ratios = plan_for(
        Layout::default()
            .direction(Direction::Horizontal)
            .constraints(vec![Constraint::Ratio(1, 3), Constraint::Ratio(2, 3)]),
        Rect::new(0, 0, 9, 2),
    );
    assert_eq!(
        ratios.place(&vec![(0, 3), (3, 6)]),
        vec![Rect::new(0, 0, 3, 2), Rect::new(3, 0, 6, 2)]
    );
}

#[test]
fn place_stretches_the_last_element() {
    // The solver can leave the last element short: with [Length(5), Max(4)] in a span of 10
    // it is 4 wide; it is stretched to the far edge.
    let plan = plan_for(
        Layout::default()
            .direction(Direction::Horizontal)
            .constraints(vec![Constraint::Length(5), Constraint::Max(4)]),
        Rect::new(0, 0, 10, 1),
    );
    assert_eq!(
        plan.place(&vec![(0, 5), (5, 4)]),
        vec![Rect::new(0, 0, 5, 1), Rect::new(5, 0, 5, 1)]
    );

    let kept = plan_for(
        Layout::default()
            .direction(Direction::Horizontal)
            .constraints(vec![Constraint::Length(5), Constraint::Max(4)])
            .expand_to_fill(false),
        Rect::new(0, 0, 10, 1),
    );
    assert_eq!(
        kept.place(&vec![(0, 5), (5, 4)]),
        vec![Rect::new(0, 0, 5, 1), Rect::new(5, 0, 4, 1)]
    );
}

#[test]
fn place_edge_cases() {
    // Vertical [Percentage(50), Percentage(50), Min(0)] in a 1x1 area.
    let plan = plan_for(
        Layout::default().constraints(vec![
            Constraint::Percentage(50),
            Constraint::Percentage(50),
            Constraint::Min(0),
        ]),
        Rect::new(0, 0, 1, 1),
    );
    assert_eq!(
        plan.place(&vec![(0, 0), (0, 0), (1, 0)]),
        vec![Rect::new(0, 0, 1, 0), Rect::new(0, 0, 1, 0), Rect::new(0, 1, 1, 0)]
    );
}

#[test]
fn place_spans_the_inner_area_across() {
    let plan = plan_for(
        Layout::default()
            .direction(Direction::Horizontal)
            .margin(1)
            .constraints(vec![Constraint::Percentage(10), Constraint::Max(5), Constraint::Min(1)]),
        Rect::new(2, 2, 12, 12),
    );
    let rects = plan.place(&vec![(3, 1), (4, 5), (9, 1)]);
    assert_eq!(rects.len(), 3);
    for r in &rects {
        assert_eq!(r.y, 3);
        assert_eq!(r.height, 10);
    }
    let last = rects[2];
    assert_eq!(last.x + last.width, plan.inner.right());
}

#[test]
fn can_plan_reports_margin_overflow() {
    let area = Rect::new(65534, 0, 20, 20);
    assert!(Layout::default().margin(2).can_plan(Rect::new(0, 0, 10, 10)));
    assert!(!Layout::default().margin(2).can_plan(area));
    assert!(Layout::default().margin(20).can_plan(area));
    assert!(!Layout::default().margin(40000).can_plan(area));
    assert!(!Layout::default().vertical_margin(40000).can_plan(area));
    assert!(Layout::default()
        .horizontal_margin(11)
        .vertical_margin(40000)
        .can_plan(area));
}

#[test]
fn place_tiles_following_spans() {
    let plan = plan_for(
        Layout::default()
            .constraints(vec![Constraint::Length(3), Constraint::Length(4), Constraint::Max(1)]),
        Rect::new(1, 5, 4, 12),
    );
    let rects = plan.place(&vec![(5, 3), (8, 4), (12, 1)]);
    assert_eq!(rects[0].y, plan.start);
    assert_eq!(rects[0].y + rects[0].height, rects[1].y);
    assert_eq!(rects[1].y + rects[1].height, rects[2].y);
    assert_eq!(rects[2].y + rects[2].height, plan.inner.bottom());
    let total: u16 = rects.iter().map(|r| r.height).sum();
    assert_eq!(total, plan.inner.bottom() - plan.start);
}

#[test]
fn can_place_spans_checks_the_last_start() {
    let plan = plan_for(
        Layout::default()
            .direction(Direction::Horizontal)
            .constraints(vec![Constraint::Length(5), Constraint::Min(0)]),
        Rect::new(0, 0, 10, 10),
    );
    assert!(plan.can_place_spans(&vec![(0, 5), (5, 5)]));
    assert!(plan.can_place_spans(&vec![(0, 5), (10, 0)]));
    assert!(!plan.can_place_spans(&vec![(0, 5), (11, 0)]));
    assert!(plan.can_place_spans(&vec![]));

    let kept = plan_for(
        Layout::default()
            .direction(Direction::Horizontal)
            .constraints(vec![Constraint::Length(5), Constraint::Min(0)])
            .expand_to_fill(false),
        Rect::new(0, 0, 10, 10),
    );
    assert!(kept.can_place_spans(&vec![(0, 5), (11, 0)]));
}

fn position(plan: &SplitPlan, anchor: Anchor) -> i64 {
    match anchor {
        Anchor::AreaStart | Anchor::ElementStart(_) => i64::from(plan.start),
        Anchor::AreaEnd => i64::from(plan.end),
        Anchor::ElementEnd(i) => {
            if plan.expand_to_fill && i + 1 == plan.elements {
                i64::from(plan.end)
            } else {
                i64::from(plan.start)
            }
        }
    }
}

fn value(plan: &SplitPlan, term: Term) -> i64 {
    match term {
        Term::At(anchor) => position(plan, anchor),
        Term::Constant(c) => i64::from(c),
        Term::ElementSize(i) => {
            position(plan, Anchor::ElementEnd(i)) - position(plan, Anchor::ElementStart(i))
        }
        Term::ScaledAreaSize(_, _) => panic!("a required requirement scales the area"),
    }
}

#[test]
fn required_requirements_are_met_by_the_witness() {
    for expand in [true, false] {
        let plan = Layout::default()
            .constraints(vec![
                Constraint::Percentage(30),
                Constraint::Ratio(1, 3),
                Constraint::Length(7),
                Constraint::Max(2),
                Constraint::Min(40),
            ])
            .margin(1)
            .expand_to_fill(expand)
            .plan(Rect::new(4, 6, 30, 20));
        for r in &plan.requirements {
            if r.strength != Strength::Required {
                continue;
            }
            let (a, b) = (value(&plan, r.lhs), value(&plan, r.rhs));
            match r.relation {
                Relation::Equal => assert_eq!(a, b),
                Relation::AtMost => assert!(a <= b),
                Relation::AtLeast => assert!(a >= b),
            }
        }
    }
}
