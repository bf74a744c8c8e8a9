use vstd::prelude::*;
use vstd::math::{max, min};

verus! {

/// The largest value a coordinate, a length or an area can take.
pub open spec fn cell_max() -> int {
    u16::MAX as int
}

/// `v` clamped to the largest coordinate, as a saturating addition gives it.
pub open spec fn saturate(v: int) -> int {
    if v > cell_max() {
        cell_max()
    } else {
        v
    }
}

/// `r` is the integer square root of `n`: the largest integer whose square is at most `n`.
pub open spec fn is_floor_sqrt(r: int, n: int) -> bool {
    0 <= r && r * r <= n < (r + 1) * (r + 1)
}

/// `r` is the integer part of the square root of the fraction `num / den`.
pub open spec fn is_floor_sqrt_of_ratio(r: int, num: int, den: int) -> bool {
    0 <= r && r * r * den <= num < (r + 1) * (r + 1) * den
}

/// Space kept free between the edges of an area and what is laid out inside it.
#[derive(Debug, Clone, Copy, PartialEq, Eq, Structural, Hash)]
pub struct Margin {
    pub vertical: u16,
    pub horizontal: u16,
}

impl Default for Margin {
    fn default() -> (m: Margin)
        ensures
            m.vertical == 0,
            m.horizontal == 0,
    {
        Margin { vertical: 0, horizontal: 0 }
    }
}

/// A simple rectangle used in the computation of the layout and to give widgets a hint
/// about the area they are supposed to render to.
#[derive(Debug, Clone, Copy, PartialEq, Eq, Structural, Hash)]
pub struct Rect {
    pub x: u16,
    pub y: u16,
    pub width: u16,
    pub height: u16,
}

impl Default for Rect {
    fn default() -> (r: Rect)
        ensures
            r == (Rect { x: 0, y: 0, width: 0, height: 0 }),
    {
        Rect { x: 0, y: 0, width: 0, height: 0 }
    }
}

impl Rect {
    /// The right edge, saturating at the largest coordinate.
    pub open spec fn spec_right(self) -> int {
        saturate(self.x + self.width)
    }

    /// The bottom edge, saturating at the largest coordinate.
    pub open spec fn spec_bottom(self) -> int {
        saturate(self.y + self.height)
    }

    /// Both far edges are coordinates: `x + width` and `y + height` do not overflow.
    pub open spec fn edges_fit(self) -> bool {
        self.x + self.width <= cell_max() && self.y + self.height <= cell_max()
    }

    /// Every cell of `other` is a cell of `self`.
    pub open spec fn covers(self, other: Rect) -> bool {
        &&& self.x <= other.x
        &&& other.x + other.width <= self.x + self.width
        &&& self.y <= other.y
        &&& other.y + other.height <= self.y + self.height
    }

    /// The smallest rectangle that covers both `self` and `other`.
    pub open spec fn spec_union(self, other: Rect) -> Rect {
        let x1 = min(self.x as int, other.x as int);
        let y1 = min(self.y as int, other.y as int);
        let x2 = max(self.x + self.width, other.x + other.width);
        let y2 = max(self.y + self.height, other.y + other.height);
        Rect { x: x1 as u16, y: y1 as u16, width: (x2 - x1) as u16, height: (y2 - y1) as u16 }
    }

    /// The intersection of `self` and `other` exists as a rectangle: it does not have a
    /// negative width or height.
    pub open spec fn overlap_fits(self, other: Rect) -> bool {
        &&& max(self.x as int, other.x as int) <= min(self.x + self.width, other.x + other.width)
        &&& max(self.y as int, other.y as int) <= min(self.y + self.height, other.y + other.height)
    }

    /// The rectangle of cells that lie in both `self` and `other`.
    pub open spec fn spec_intersection(self, other: Rect) -> Rect {
        let x1 = max(self.x as int, other.x as int);
        let y1 = max(self.y as int, other.y as int);
        let x2 = min(self.x + self.width, other.x + other.width);
        let y2 = min(self.y + self.height, other.y + other.height);
        Rect { x: x1 as u16, y: y1 as u16, width: (x2 - x1) as u16, height: (y2 - y1) as u16 }
    }

    /// `self` and `other` share at least one cell.
    pub open spec fn spec_intersects(self, other: Rect) -> bool {
        &&& self.x < other.x + other.width
        &&& self.x + self.width > other.x
        &&& self.y < other.y + other.height
        &&& self.y + self.height > other.y
    }

    /// The inputs on which `intersects` computes without overflow: each sum is needed only
    /// once the comparisons before it hold.
    pub open spec fn intersects_defined(self, other: Rect) -> bool {
        &&& other.x + other.width <= cell_max()
        &&& self.x < other.x + other.width ==> self.x + self.width <= cell_max()
        &&& (self.x < other.x + other.width && self.x + self.width > other.x) ==> other.y
            + other.height <= cell_max()
        &&& (self.x < other.x + other.width && self.x + self.width > other.x && self.y < other.y
            + other.height) ==> self.y + self.height <= cell_max()
    }

    /// What `inner` returns: `self` shrunk by `margin` on every side, or the empty rectangle at
    /// the origin when the margins do not fit.
    pub open spec fn spec_inner(self, margin: Margin) -> Rect {
        if self.width < 2 * margin.horizontal || self.height < 2 * margin.vertical {
            Rect { x: 0, y: 0, width: 0, height: 0 }
        } else {
            Rect {
                x: (self.x + margin.horizontal) as u16,
                y: (self.y + margin.vertical) as u16,
                width: (self.width - 2 * margin.horizontal) as u16,
                height: (self.height - 2 * margin.vertical) as u16,
            }
        }
    }

    /// The inputs on which `inner` computes without overflow.
    pub open spec fn inner_defined(self, margin: Margin) -> bool {
        &&& 2 * margin.horizontal <= cell_max()
        &&& self.width >= 2 * margin.horizontal ==> 2 * margin.vertical <= cell_max()
        &&& (self.width >= 2 * margin.horizontal && self.height >= 2 * margin.vertical) ==> (
        self.x + margin.horizontal <= cell_max() && self.y + margin.vertical <= cell_max())
    }

    /// Creates a new rect, with width and height limited to keep the area under max u16.
    /// If clipped, aspect ratio will be preserved: each side becomes the integer part of the
    /// side of a rectangle of area `u16::MAX` with the same aspect ratio, computed exactly in
    /// integers. Where that side is a whole number, a computation in floating point can land
    /// just below it and give one less: `Rect::new(0, 0, 169, 65535)` is 13 wide and 5041
    /// high here, and `Rect::new(0, 0, 676, 65535)` is 26 wide.
    pub fn new(x: u16, y: u16, width: u16, height: u16) -> (r: Rect)
        ensures
            r.x == x,
            r.y == y,
            width * height <= cell_max() ==> r.width == width && r.height == height,
            width * height > cell_max() ==> {
                &&& is_floor_sqrt_of_ratio(r.width as int, cell_max() * width, height as int)
                &&& is_floor_sqrt_of_ratio(r.height as int, cell_max() * height, width as int)
                &&& r.width < width
                &&& r.height < height
            },
            r.width * r.height <= cell_max(),
            r.width <= width,
            r.height <= height,
    {
        let max_area: u32 = 65535;
        let w: u32 = width as u32;
        let h: u32 = height as u32;
        proof {
            lemma_product_of_lengths(w as int, h as int);
        }
        if w * h > max_area {
            proof {
                lemma_product_of_lengths(max_area as int, w as int);
                lemma_product_of_lengths(max_area as int, h as int);
                assert(w > 0 && h > 0) by (nonlinear_arith)
                    requires
                        w * h > 65535,
                ;
            }
            let qw: u32 = max_area * w / h;
            let qh: u32 = max_area * h / w;
            let clipped_width: u32 = floor_sqrt(qw);
            let clipped_height: u32 = floor_sqrt(qh);
            proof {
                lemma_floor_sqrt_of_quotient(
                    clipped_width as int,
                    qw as int,
                    65535 * w,
                    h as int,
                );
                lemma_floor_sqrt_of_quotient(
                    clipped_height as int,
                    qh as int,
                    65535 * h,
                    w as int,
                );
                lemma_clipped_side_shrinks(clipped_width as int, w as int, h as int);
                lemma_clipped_side_shrinks(clipped_height as int, h as int, w as int);
                lemma_clipped_area_fits(
                    clipped_width as int,
                    clipped_height as int,
                    w as int,
                    h as int,
                );
            }
            Rect { x, y, width: clipped_width as u16, height: clipped_height as u16 }
        } else {
            Rect { x, y, width, height }
        }
    }

    /// The number of cells covered; the product must fit in a `u16`.
    pub fn area(self) -> (r: u16)
        requires
            self.width * self.height <= cell_max(),
        ensures
            r == self.width * self.height,
    {
        self.width * self.height
    }

    pub fn left(self) -> (r: u16)
        ensures
            r == self.x,
    {
        self.x
    }

    /// The right edge, saturating at `u16::MAX`.
    pub fn right(self) -> (r: u16)
        ensures
            r == self.spec_right(),
    {
        self.x.saturating_add(self.width)
    }

    pub fn top(self) -> (r: u16)
        ensures
            r == self.y,
    {
        self.y
    }

    /// The bottom edge, saturating at `u16::MAX`.
    pub fn bottom(self) -> (r: u16)
        ensures
            r == self.spec_bottom(),
    {
        self.y.saturating_add(self.height)
    }

    /// `self` shrunk by `margin` on every side; the empty rectangle at the origin when twice a
    /// margin is more than the matching side.
    pub fn inner(self, margin: &Margin) -> (r: Rect)
        requires
            self.inner_defined(*margin),
        ensures
            r == self.spec_inner(*margin),
            self.width >= 2 * margin.horizontal && self.height >= 2 * margin.vertical
                ==> self.covers(r),
    {
        if self.width < 2 * margin.horizontal || self.height < 2 * margin.vertical {
            Rect { x: 0, y: 0, width: 0, height: 0 }
        } else {
            Rect {
                x: self.x + margin.horizontal,
                y: self.y + margin.vertical,
                width: self.width - 2 * margin.horizontal,
                height: self.height - 2 * margin.vertical,
            }
        }
    }

    /// The smallest rectangle that covers both `self` and `other`.
    pub fn union(self, other: Rect) -> (r: Rect)
        requires
            self.edges_fit(),
            other.edges_fit(),
        ensures
            r == self.spec_union(other),
    {
        let x1 = if self.x < other.x {
            self.x
        } else {
            other.x
        };
        let y1 = if self.y < other.y {
            self.y
        } else {
            other.y
        };
        let x2 = if self.x + self.width > other.x + other.width {
            self.x + self.width
        } else {
            other.x + other.width
        };
        let y2 = if self.y + self.height > other.y + other.height {
            self.y + self.height
        } else {
            other.y + other.height
        };
        Rect { x: x1, y: y1, width: x2 - x1, height: y2 - y1 }
    }

    /// The rectangle of cells that lie in both `self` and `other`. The two must overlap or
    /// touch in each direction, or the width or height would be negative.
    pub fn intersection(self, other: Rect) -> (r: Rect)
        requires
            self.edges_fit(),
            other.edges_fit(),
            self.overlap_fits(other),
        ensures
            r == self.spec_intersection(other),
    {
        let x1 = if self.x > other.x {
            self.x
        } else {
            other.x
        };
        let y1 = if self.y > other.y {
            self.y
        } else {
            other.y
        };
        let x2 = if self.x + self.width < other.x + other.width {
            self.x + self.width
        } else {
            other.x + other.width
        };
        let y2 = if self.y + self.height < other.y + other.height {
            self.y + self.height
        } else {
            other.y + other.height
        };
        Rect { x: x1, y: y1, width: x2 - x1, height: y2 - y1 }
    }

    /// Whether `self` and `other` share at least one cell.
    pub fn intersects(self, other: Rect) -> (r: bool)
        requires
            self.intersects_defined(other),
        ensures
            r == self.spec_intersects(other),
    {
        self.x < other.x + other.width && self.x + self.width > other.x && self.y < other.y
            + other.height && self.y + self.height > other.y
    }
}

/// The integer square root of `n`, by bisection.
fn floor_sqrt(n: u32) -> (r: u32)
    ensures
        is_floor_sqrt(r as int, n as int),
        r <= 65535,
{
    let mut lo: u64 = 0;
    let mut hi: u64 = 65536;
    assert(n < 65536 * 65536);
    while lo + 1 < hi
        invariant
            lo < hi <= 65536,
            lo * lo <= n,
            n < hi * hi,
        decreases hi - lo,
    {
        let mid: u64 = lo + (hi - lo) / 2;
        assert(mid * mid <= 65536 * 65536) by (nonlinear_arith)
            requires
                mid <= 65536,
        ;
        if mid * mid <= n as u64 {
            lo = mid;
        } else {
            hi = mid;
        }
    }
    lo as u32
}

proof fn lemma_product_of_lengths(a: int, b: int)
    requires
        0 <= a <= 65535,
        0 <= b <= 65535,
    ensures
        0 <= a * b <= 65535 * 65535,
{
    assert(0 <= a * b <= 65535 * 65535) by (nonlinear_arith)
        requires
            0 <= a <= 65535,
            0 <= b <= 65535,
    ;
}

/// The integer square root of the quotient `a / b` is the integer square root of the
/// fraction itself.
proof fn lemma_floor_sqrt_of_quotient(r: int, q: int, a: int, b: int)
    requires
        b > 0,
        a >= 0,
        q == a / b,
        is_floor_sqrt(r, q),
    ensures
        is_floor_sqrt_of_ratio(r, a, b),
{
    vstd::arithmetic::div_mod::lemma_fundamental_div_mod(a, b);
    let m = a % b;
    assert(0 <= m < b);
    assert(r * r * b <= q * b) by (nonlinear_arith)
        requires
            r * r <= q,
            b > 0,
    ;
    assert(q * b <= a) by (nonlinear_arith)
        requires
            a == b * q + m,
            0 <= m,
    ;
    assert((q + 1) * b <= (r + 1) * (r + 1) * b) by (nonlinear_arith)
        requires
            q + 1 <= (r + 1) * (r + 1),
            b > 0,
    ;
    assert(a < (q + 1) * b) by (nonlinear_arith)
        requires
            a == b * q + m,
            m < b,
    ;
}

/// A side clipped to keep the area within bounds is shorter than the side it came from.
proof fn lemma_clipped_side_shrinks(r: int, w: int, h: int)
    requires
        w > 0,
        h > 0,
        w * h > 65535,
        is_floor_sqrt_of_ratio(r, 65535 * w, h),
    ensures
        r < w,
{
    assert(65535 * w < w * h * w) by (nonlinear_arith)
        requires
            w > 0,
            w * h > 65535,
    ;
    assert(r * r * h < w * w * h) by (nonlinear_arith)
        requires
            r * r * h <= 65535 * w,
            65535 * w < w * h * w,
    ;
    assert(r * r < w * w) by (nonlinear_arith)
        requires
            r * r * h < w * w * h,
            h > 0,
    ;
    assert(r < w) by (nonlinear_arith)
        requires
            r * r < w * w,
            r >= 0,
            w > 0,
    ;
}

/// Two sides clipped with the same aspect ratio span at most `u16::MAX` cells.
proof fn lemma_clipped_area_fits(cw: int, ch: int, w: int, h: int)
    requires
        w > 0,
        h > 0,
        is_floor_sqrt_of_ratio(cw, 65535 * w, h),
        is_floor_sqrt_of_ratio(ch, 65535 * h, w),
    ensures
        cw * ch <= 65535,
{
    let p = cw * ch;
    assert(cw * cw * h * (ch * ch * w) <= 65535 * w * (65535 * h)) by (nonlinear_arith)
        requires
            0 <= cw * cw * h <= 65535 * w,
            0 <= ch * ch * w <= 65535 * h,
    ;
    assert(p * p * (w * h) <= 65535 * 65535 * (w * h)) by (nonlinear_arith)
        requires
            p == cw * ch,
            cw * cw * h * (ch * ch * w) <= 65535 * w * (65535 * h),
    ;
    assert(w * h > 0) by (nonlinear_arith)
        requires
            w > 0,
            h > 0,
    ;
    assert(p * p <= 65535 * 65535) by (nonlinear_arith)
        requires
            p * p * (w * h) <= 65535 * 65535 * (w * h),
            w * h > 0,
    ;
    assert(p <= 65535) by (nonlinear_arith)
        requires
            p * p <= 65535 * 65535,
            p >= 0,
    ;
}

/// The union of two rectangles covers each of them.
pub proof fn lemma_union_covers_both(a: Rect, b: Rect)
    requires
        a.edges_fit(),
        b.edges_fit(),
    ensures
        a.spec_union(b).covers(a),
        a.spec_union(b).covers(b),
{
}

/// The union is the smallest cover: every rectangle that covers both `a` and `b` covers their
/// union.
pub proof fn lemma_union_is_smallest_cover(a: Rect, b: Rect, c: Rect)
    requires
        a.edges_fit(),
        b.edges_fit(),
        c.covers(a),
        c.covers(b),
    ensures
        c.covers(a.spec_union(b)),
{
}

/// The intersection is the largest rectangle within both: every rectangle that both `a` and
/// `b` cover lies within their intersection.
pub proof fn lemma_intersection_is_largest_within(a: Rect, b: Rect, c: Rect)
    requires
        a.edges_fit(),
        b.edges_fit(),
        a.covers(c),
        b.covers(c),
    ensures
        a.overlap_fits(b),
        a.spec_intersection(b).covers(c),
{
}

/// The union does not depend on the order of its operands.
pub proof fn lemma_union_commutative(a: Rect, b: Rect)
    ensures
        a.spec_union(b) == b.spec_union(a),
{
}

/// The intersection of two rectangles lies within each of them.
pub proof fn lemma_intersection_within_both(a: Rect, b: Rect)
    requires
        a.edges_fit(),
        b.edges_fit(),
        a.overlap_fits(b),
    ensures
        a.covers(a.spec_intersection(b)),
        b.covers(a.spec_intersection(b)),
{
}

/// The intersection does not depend on the order of its operands.
pub proof fn lemma_intersection_commutative(a: Rect, b: Rect)
    ensures
        a.spec_intersection(b) == b.spec_intersection(a),
        a.overlap_fits(b) == b.overlap_fits(a),
{
}

/// Whether two rectangles intersect does not depend on their order.
pub proof fn lemma_intersects_symmetric(a: Rect, b: Rect)
    ensures
        a.spec_intersects(b) == b.spec_intersects(a),
{
}

/// Two rectangles that are not empty intersect exactly when their intersection exists and
/// has cells in it.
pub proof fn lemma_intersects_iff_intersection_nonempty(a: Rect, b: Rect)
    requires
        a.edges_fit(),
        b.edges_fit(),
        a.width > 0 && a.height > 0,
        b.width > 0 && b.height > 0,
    ensures
        a.spec_intersects(b) <==> (a.overlap_fits(b) && a.spec_intersection(b).width > 0
            && a.spec_intersection(b).height > 0),
{
}

/// A rectangle intersects itself exactly when it is not empty.
pub proof fn lemma_intersects_itself(r: Rect)
    requires
        r.edges_fit(),
    ensures
        r.spec_intersects(r) <==> (r.width > 0 && r.height > 0),
{
}

} // verus!
