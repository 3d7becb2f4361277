//! Exact percentage values.
//!
//! Coverage percentages are ratios of genomic interval lengths scaled by
//! 100. They are kept as integer rationals rather than approximated, so
//! threshold filtering and tie-breaking compare the true mathematical
//! values.

use vstd::prelude::*;

verus! {

/// An exact percentage value `num / den` (so `Pct { num: 5000, den: 100 }`
/// is 50%). The denominator of a well-formed value is positive; the special
/// value [`Pct::not_applicable`] (-1/1) marks percentages that have no
/// meaning, such as the zone coverage of an unbounded upstream zone.
#[derive(Clone, Copy, Debug, PartialEq, Eq, Structural)]
pub struct Pct {
    pub num: i64,
    pub den: i64,
}

impl Pct {
    /// A well-formed percentage has a positive denominator.
    pub open spec fn wf(self) -> bool {
        1 <= self.den
    }

    /// Mathematical order on the rational values, assuming positive
    /// denominators.
    pub open spec fn spec_le(self, other: Pct) -> bool {
        self.num * other.den <= other.num * self.den
    }

    /// Mathematical equality of the rational values, assuming positive
    /// denominators.
    pub open spec fn spec_eq_val(self, other: Pct) -> bool {
        self.num * other.den == other.num * self.den
    }

    pub fn new(num: i64, den: i64) -> (r: Pct)
        requires
            1 <= den,
        ensures
            r.num == num,
            r.den == den,
            r.wf(),
    {
        Pct { num, den }
    }

    /// The whole percentage `n`, as `n / 1`.
    pub fn whole(n: i64) -> (r: Pct)
        ensures
            r.num == n,
            r.den == 1,
            r.wf(),
    {
        Pct { num: n, den: 1 }
    }

    /// The percentage of `den` covered by `part`: `part * 100 / den`.
    pub fn of_ratio(part: i64, den: i64) -> (r: Pct)
        requires
            1 <= den,
            -92233720368547758 <= part <= 92233720368547758,
        ensures
            r.num == part * 100,
            r.den == den,
            r.wf(),
    {
        Pct { num: part * 100, den }
    }

    /// The sentinel for "no meaningful percentage", rendered as `-1.00`.
    pub fn not_applicable() -> (r: Pct)
        ensures
            r.num == -1,
            r.den == 1,
            r.wf(),
    {
        Pct { num: -1i64, den: 1 }
    }

    /// Exact `self >= other` on the rational values.
    pub fn ge(&self, other: &Pct) -> (r: bool)
        ensures
            r == other.spec_le(*self),
    {
        wide_mul(self.num, other.den) >= wide_mul(other.num, self.den)
    }

    /// Exact `self > other` on the rational values.
    pub fn gt(&self, other: &Pct) -> (r: bool)
        ensures
            r == !self.spec_le(*other),
    {
        wide_mul(self.num, other.den) > wide_mul(other.num, self.den)
    }

    /// Exact equality of the rational values (not of the representations):
    /// `50/1` and `5000/100` are equal values.
    pub fn eq_val(&self, other: &Pct) -> (r: bool)
        ensures
            r == self.spec_eq_val(*other),
    {
        wide_mul(self.num, other.den) == wide_mul(other.num, self.den)
    }
}

/// The percentage `part * 100 / den` as a value (meaningful for
/// `den >= 1`; every use keeps `part * 100` within `i64`).
pub open spec fn spec_ratio_pct(part: int, den: int) -> Pct {
    Pct { num: (part * 100) as i64, den: den as i64 }
}

/// The percentage of a zone of width `width` covered by `part`, with the
/// explicit guard for zero-width zones: those have no meaningful
/// coverage, so the sentinel is returned instead of dividing by zero.
pub open spec fn spec_zone_pct(part: int, width: int) -> Pct {
    if width >= 1 {
        spec_ratio_pct(part, width)
    } else {
        Pct { num: -1i64, den: 1 }
    }
}

/// Exec counterpart of [`spec_ratio_pct`].
pub fn ratio_pct(part: i64, den: i64) -> (r: Pct)
    requires
        1 <= den,
        -92233720368547758 <= part <= 92233720368547758,
    ensures
        r == spec_ratio_pct(part as int, den as int),
{
    Pct::of_ratio(part, den)
}

/// Exec counterpart of [`spec_zone_pct`].
pub fn zone_pct(part: i64, width: i64) -> (r: Pct)
    requires
        -92233720368547758 <= part <= 92233720368547758,
    ensures
        r == spec_zone_pct(part as int, width as int),
{
    if width >= 1 {
        Pct::of_ratio(part, width)
    } else {
        Pct::not_applicable()
    }
}

/// Overflow-free product of two machine integers, in the wider type.
fn wide_mul(a: i64, b: i64) -> (r: i128)
    ensures
        r == a * b,
{
    proof {
        let ai = a as int;
        let bi = b as int;
        assert(-0x40000000000000000000000000000000 <= ai * bi
            <= 0x40000000000000000000000000000000) by (nonlinear_arith)
            requires
                -0x8000000000000000 <= ai <= 0x8000000000000000,
                -0x8000000000000000 <= bi <= 0x8000000000000000,
        ;
    }
    (a as i128) * (b as i128)
}

} // verus!
