use vstd::prelude::*;
use vstd::math::{max, min};

verus! {

/// Constraints to apply
#[derive(Debug, Clone, Copy, PartialEq, Eq, Structural, Hash)]
pub enum Constraint {
    /// Apply a percentage to a given amount, rounding down.
    Percentage(u16),
    /// Apply a ratio, rounding down. A denominator of zero counts as one, so `0/0` gives
    /// nothing and `x/0` gives the whole amount for `x != 0`.
    Ratio(u32, u32),
    /// Apply no more than the given amount.
    Length(u16),
    /// Apply at most the given amount.
    Max(u16),
    /// Apply at least the given amount.
    Min(u16),
}

impl Default for Constraint {
    fn default() -> (c: Constraint)
        ensures
            c == Constraint::Percentage(100),
    {
        Constraint::Percentage(100)
    }
}

/// The denominator a ratio is divided by: a zero denominator counts as one.
pub open spec fn effective_denominator(d: u32) -> int {
    if d == 0 {
        1
    } else {
        d as int
    }
}

impl Constraint {
    /// The amount `apply` gives out of `length`.
    pub open spec fn spec_apply(self, length: u16) -> int {
        match self {
            Constraint::Percentage(p) => min(p * length / 100, length as int),
            Constraint::Ratio(n, d) => min(n * length / effective_denominator(d), length as int),
            Constraint::Length(l) => min(length as int, l as int),
            Constraint::Max(m) => min(length as int, m as int),
            Constraint::Min(m) => max(length as int, m as int),
        }
    }

    /// The part of `length` that this constraint gives. Percentages and ratios are rounded
    /// down and never give more than `length`.
    pub fn apply(&self, length: u16) -> (r: u16)
        ensures
            r == self.spec_apply(length),
    {
        match *self {
            Constraint::Percentage(p) => {
                assert(p * length <= 65535 * 65535) by (nonlinear_arith)
                    requires
                        p <= 65535,
                        length <= 65535,
                ;
                let scaled: u32 = (p as u32) * (length as u32) / 100;
                if scaled < length as u32 {
                    scaled as u16
                } else {
                    length
                }
            },
            Constraint::Ratio(numerator, denominator) => {
                let denominator: u64 = if denominator == 0 {
                    1
                } else {
                    denominator as u64
                };
                assert(numerator * length <= 0xffff_ffff * 65535) by (nonlinear_arith)
                    requires
                        numerator <= 0xffff_ffff,
                        length <= 65535,
                ;
                let scaled: u64 = (numerator as u64) * (length as u64) / denominator;
                if scaled < length as u64 {
                    scaled as u16
                } else {
                    length
                }
            },
            Constraint::Length(l) => {
                if length < l {
                    length
                } else {
                    l
                }
            },
            Constraint::Max(m) => {
                if length < m {
                    length
                } else {
                    m
                }
            },
            Constraint::Min(m) => {
                if length > m {
                    length
                } else {
                    m
                }
            },
        }
    }
}

/// Every constraint but `Min` gives at most the available length; `Min` gives at least it.
pub proof fn lemma_apply_bounded_by_length(c: Constraint, length: u16)
    ensures
        !(c is Min) ==> 0 <= c.spec_apply(length) <= length,
        c is Min ==> c.spec_apply(length) >= length,
{
    match c {
        Constraint::Percentage(p) => {
            assert(p * length >= 0) by (nonlinear_arith)
                requires
                    p >= 0,
                    length >= 0,
            ;
        },
        Constraint::Ratio(n, d) => {
            assert(n * length >= 0) by (nonlinear_arith)
                requires
                    n >= 0,
                    length >= 0,
            ;
        },
        _ => {},
    }
}

/// More available length never gives a smaller part.
pub proof fn lemma_apply_monotonic(c: Constraint, a: u16, b: u16)
    requires
        a <= b,
    ensures
        c.spec_apply(a) <= c.spec_apply(b),
{
    match c {
        Constraint::Percentage(p) => {
            assert(p * a <= p * b) by (nonlinear_arith)
                requires
                    a <= b,
                    p >= 0,
            ;
            vstd::arithmetic::div_mod::lemma_div_is_ordered(p * a, p * b, 100);
        },
        Constraint::Ratio(n, d) => {
            assert(n * a <= n * b) by (nonlinear_arith)
                requires
                    a <= b,
                    n >= 0,
            ;
            vstd::arithmetic::div_mod::lemma_div_is_ordered(
                n * a,
                n * b,
                effective_denominator(d),
            );
        },
        _ => {},
    }
}

/// Percentages and ratios round down: the part times the denominator is at most the numerator
/// times the length, and one more cell would be too much unless the part is already capped at
/// the whole length.
pub proof fn lemma_apply_rounds_down(c: Constraint, length: u16)
    ensures
        c matches Constraint::Percentage(p) ==> {
            let r = c.spec_apply(length);
            &&& r * 100 <= p * length
            &&& r == length || p * length < (r + 1) * 100
        },
        c matches Constraint::Ratio(n, d) ==> {
            let r = c.spec_apply(length);
            let den = effective_denominator(d);
            &&& r * den <= n * length
            &&& r == length || n * length < (r + 1) * den
        },
{
    match c {
        Constraint::Percentage(p) => {
            let x = p * length;
            assert(x >= 0) by (nonlinear_arith)
                requires
                    x == p * length,
                    p >= 0,
                    length >= 0,
            ;
            vstd::arithmetic::div_mod::lemma_fundamental_div_mod(x, 100);
            let q = x / 100;
            let r = c.spec_apply(length);
            if q < length {
                assert(r == q);
            } else {
                assert(r == length);
                assert(r * 100 <= q * 100);
            }
        },
        Constraint::Ratio(n, d) => {
            let x = n * length;
            let den = effective_denominator(d);
            assert(x >= 0) by (nonlinear_arith)
                requires
                    x == n * length,
                    n >= 0,
                    length >= 0,
            ;
            vstd::arithmetic::div_mod::lemma_fundamental_div_mod(x, den);
            let q = x / den;
            let r = c.spec_apply(length);
            if q < length {
                assert(r == q);
                assert(r * den == den * q);
                assert((r + 1) * den == den * q + den) by (nonlinear_arith)
                    requires
                        r == q,
                ;
            } else {
                assert(r == length);
                assert(r * den <= q * den) by (nonlinear_arith)
                    requires
                        r <= q,
                        den > 0,
                ;
                assert(q * den == den * q);
            }
        },
        _ => {},
    }
}

} // verus!
