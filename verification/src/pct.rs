//! Exact percentages.
//!
//! Overlap percentages are ratios of interval lengths, so they are kept as
//! exact fractions instead of approximate floating-point numbers: the value
//! of `Ratio { num, den }` is the percentage `100 * num / den`.  The
//! `NotApplicable` variant is the sentinel for zones that have no bounded
//! width to normalize against (upstream, downstream, an intron without both
//! flanking exons); it is conventionally printed as `-1` and ranks below
//! every well-formed ratio.

use vstd::prelude::*;

verus! {

#[derive(Clone, Copy, Debug, PartialEq, Eq, Structural)]
pub enum Pct {
    /// The fraction `num / den`, read as the percentage `100 * num / den`.
    Ratio { num: i64, den: i64 },
    /// No bounded width to normalize against; ranks below every ratio.
    NotApplicable,
}

impl Pct {
    /// A ratio is well formed when its fraction lies in `[0, 1]`,
    /// so its percentage lies in `[0, 100]`.
    pub open spec fn well_formed(self) -> bool {
        match self {
            Pct::Ratio { num, den } => 0 <= num && num <= den && 0 < den,
            Pct::NotApplicable => true,
        }
    }

    pub open spec fn is_ratio(self) -> bool {
        self matches Pct::Ratio { .. }
    }

    pub open spec fn spec_num(self) -> int {
        match self {
            Pct::Ratio { num, den } => num as int,
            Pct::NotApplicable => -1,
        }
    }

    pub open spec fn spec_den(self) -> int {
        match self {
            Pct::Ratio { num, den } => den as int,
            Pct::NotApplicable => 1,
        }
    }

    /// Value order: `NotApplicable` stands for -1 and sits below every
    /// well-formed ratio; two ratios compare by cross-multiplication.
    pub open spec fn spec_le(self, other: Pct) -> bool {
        match (self, other) {
            (Pct::NotApplicable, _) => true,
            (Pct::Ratio { .. }, Pct::NotApplicable) => false,
            (Pct::Ratio { num: a, den: b }, Pct::Ratio { num: c, den: d }) => a * d <= c * b,
        }
    }

    /// Value equality: `Ratio { 1, 2 }` and `Ratio { 50, 100 }` are the same
    /// percentage.
    pub open spec fn spec_eq_value(self, other: Pct) -> bool {
        self.spec_le(other) && other.spec_le(self)
    }

    /// The fraction `num / den` as a percentage value.
    pub fn new(num: i64, den: i64) -> (r: Pct)
        requires
            0 <= num <= den,
            0 < den,
        ensures
            r == (Pct::Ratio { num, den }),
            r.well_formed(),
    {
        Pct::Ratio { num, den }
    }

    /// The whole percentage `p`, as the fraction `p / 100`.
    pub fn whole(p: i64) -> (r: Pct)
        requires
            0 <= p <= 100,
        ensures
            r == (Pct::Ratio { num: p, den: 100 }),
            r.well_formed(),
    {
        Pct::Ratio { num: p, den: 100 }
    }

    pub fn not_applicable() -> (r: Pct)
        ensures
            r == Pct::NotApplicable,
    {
        Pct::NotApplicable
    }

    pub fn is_not_applicable(&self) -> (r: bool)
        ensures
            r == (*self == Pct::NotApplicable),
    {
        match self {
            Pct::NotApplicable => true,
            Pct::Ratio { .. } => false,
        }
    }

    /// Value comparison `self <= other`.
    pub fn le(&self, other: &Pct) -> (r: bool)
        ensures
            r == self.spec_le(*other),
    {
        match (self, other) {
            (Pct::NotApplicable, _) => true,
            (Pct::Ratio { .. }, Pct::NotApplicable) => false,
            (Pct::Ratio { num: a, den: b }, Pct::Ratio { num: c, den: d }) => {
                proof {
                    lemma_i64_product_fits_i128(*a as int, *d as int);
                    lemma_i64_product_fits_i128(*c as int, *b as int);
                }
                let left: i128 = (*a as i128) * (*d as i128);
                let right: i128 = (*c as i128) * (*b as i128);
                left <= right
            },
        }
    }

    /// Value comparison `self >= other`.
    pub fn ge(&self, other: &Pct) -> (r: bool)
        ensures
            r == other.spec_le(*self),
    {
        other.le(self)
    }

    /// Value equality.
    pub fn eq_value(&self, other: &Pct) -> (r: bool)
        ensures
            r == self.spec_eq_value(*other),
    {
        self.le(other) && other.le(self)
    }

    /// The larger of the two values; on a value tie, `self`.
    pub fn max_value(&self, other: &Pct) -> (r: Pct)
        ensures
            r == if other.spec_le(*self) {
                *self
            } else {
                *other
            },
    {
        if self.ge(other) {
            *self
        } else {
            *other
        }
    }
}

/// The product of two `i64` values always fits in an `i128`.
proof fn lemma_i64_product_fits_i128(a: int, b: int)
    requires
        -0x8000_0000_0000_0000 <= a <= 0x7fff_ffff_ffff_ffff,
        -0x8000_0000_0000_0000 <= b <= 0x7fff_ffff_ffff_ffff,
    ensures
        -0x8000_0000_0000_0000_0000_0000_0000_0000 <= a * b
            <= 0x7fff_ffff_ffff_ffff_ffff_ffff_ffff_ffff,
{
    assert(-0x8000_0000_0000_0000_0000_0000_0000_0000 <= a * b
        <= 0x7fff_ffff_ffff_ffff_ffff_ffff_ffff_ffff) by (nonlinear_arith)
        requires
            -0x8000_0000_0000_0000 <= a <= 0x7fff_ffff_ffff_ffff,
            -0x8000_0000_0000_0000 <= b <= 0x7fff_ffff_ffff_ffff,
    ;
}

/// The value order is total on any mix of ratios and sentinels:
/// two values always compare one way or the other.
pub proof fn lemma_pct_le_total(a: Pct, b: Pct)
    requires
        a.well_formed(),
        b.well_formed(),
    ensures
        a.spec_le(b) || b.spec_le(a),
{
    match (a, b) {
        (Pct::Ratio { num: x, den: y }, Pct::Ratio { num: z, den: w }) => {
            assert(x * w <= z * y || z * y <= x * w);
        },
        _ => {},
    }
}

/// The value order is transitive.
pub proof fn lemma_pct_le_trans(a: Pct, b: Pct, c: Pct)
    requires
        a.well_formed(),
        b.well_formed(),
        c.well_formed(),
        a.spec_le(b),
        b.spec_le(c),
    ensures
        a.spec_le(c),
{
    match (a, b, c) {
        (
            Pct::Ratio { num: x, den: xd },
            Pct::Ratio { num: y, den: yd },
            Pct::Ratio { num: z, den: zd },
        ) => {
            assert(x * zd <= z * xd) by (nonlinear_arith)
                requires
                    x * yd <= y * xd,
                    y * zd <= z * yd,
                    0 < xd,
                    0 < yd,
                    0 < zd,
            ;
        },
        _ => {},
    }
}

} // verus!
