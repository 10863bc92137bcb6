//! Exact fractions, used wherever a rate or a mean is reported.

use vstd::prelude::*;

verus! {

/// A fraction `num / den` with a positive denominator. It is kept as
/// computed and is not reduced, so that the counts it was made from stay
/// readable: a success rate of two calls out of four is `2 / 4`.
#[derive(Clone, Copy, Debug, PartialEq, Eq, Structural)]
pub struct Ratio {
    pub num: i128,
    pub den: i128,
}

impl Ratio {
    /// The denominator is positive.
    pub open spec fn wf(self) -> bool {
        self.den > 0
    }

    /// The fraction `part / whole` of two counts, and `1 / 1` where `whole`
    /// is zero.
    pub fn of_counts(part: i64, whole: i64) -> (r: Ratio)
        requires
            whole >= 0,
        ensures
            r == rate_of(part as int, whole as int),
            r.wf(),
    {
        if whole > 0 {
            Ratio { num: part as i128, den: whole as i128 }
        } else {
            Ratio { num: 1, den: 1 }
        }
    }

    /// The difference `self - other` of two fractions whose terms fit 64
    /// bits, over the product of the two denominators.
    pub fn sub_small(self, other: Ratio) -> (r: Ratio)
        requires
            self.wf(),
            other.wf(),
            small(self),
            small(other),
        ensures
            r == difference(self, other),
            r.wf(),
    {
        proof {
            lemma_small_difference(self, other);
        }
        Ratio { num: self.num * other.den - other.num * self.den, den: self.den * other.den }
    }
}

/// The rate `part / whole`, which is `1 / 1` over an empty whole.
pub open spec fn rate_of(part: int, whole: int) -> Ratio {
    if whole > 0 {
        Ratio { num: part as i128, den: whole as i128 }
    } else {
        Ratio { num: 1, den: 1 }
    }
}

/// Whether both terms of the fraction fit 64 bits.
pub open spec fn small(a: Ratio) -> bool {
    &&& -0x8000_0000_0000_0000 <= a.num <= 0x7fff_ffff_ffff_ffff
    &&& -0x8000_0000_0000_0000 <= a.den <= 0x7fff_ffff_ffff_ffff
}

/// The difference of two small fractions fits the fields of a fraction.
pub proof fn lemma_small_difference(a: Ratio, b: Ratio)
    requires
        a.wf(),
        b.wf(),
        small(a),
        small(b),
    ensures
        difference_fits(a, b),
        0 < a.den * b.den,
{
    assert(-0x3fff_ffff_ffff_ffff_8000_0000_0000_0000 <= a.num * b.den
        <= 0x3fff_ffff_ffff_ffff_0000_0000_0000_0001) by (nonlinear_arith)
        requires
            -0x8000_0000_0000_0000 <= a.num <= 0x7fff_ffff_ffff_ffff,
            0 < b.den <= 0x7fff_ffff_ffff_ffff,
    ;
    assert(-0x3fff_ffff_ffff_ffff_8000_0000_0000_0000 <= b.num * a.den
        <= 0x3fff_ffff_ffff_ffff_0000_0000_0000_0001) by (nonlinear_arith)
        requires
            -0x8000_0000_0000_0000 <= b.num <= 0x7fff_ffff_ffff_ffff,
            0 < a.den <= 0x7fff_ffff_ffff_ffff,
    ;
    assert(0 < a.den * b.den <= 0x3fff_ffff_ffff_ffff_0000_0000_0000_0001) by (nonlinear_arith)
        requires
            0 < a.den <= 0x7fff_ffff_ffff_ffff,
            0 < b.den <= 0x7fff_ffff_ffff_ffff,
    ;
}

/// Whether every product that [`difference`] is made of fits an `i128`.
pub open spec fn difference_fits(a: Ratio, b: Ratio) -> bool {
    &&& i128::MIN <= a.num * b.den <= i128::MAX
    &&& i128::MIN <= b.num * a.den <= i128::MAX
    &&& i128::MIN <= a.den * b.den <= i128::MAX
    &&& i128::MIN <= a.num * b.den - b.num * a.den <= i128::MAX
}

/// The fraction `a - b` over the common denominator `a.den * b.den`.
pub open spec fn difference(a: Ratio, b: Ratio) -> Ratio {
    Ratio { num: (a.num * b.den - b.num * a.den) as i128, den: (a.den * b.den) as i128 }
}

} // verus!
