//! Exact ratios of counted quantities.
//!
//! Averages and similarities are quotients of two counts. They are kept as
//! the two counts, so that nothing is rounded; a ratio over nothing, with a
//! zero denominator, stands for zero.

use vstd::prelude::*;

verus! {

/// The quotient `numerator / denominator`, or zero where the denominator
/// is zero.
#[derive(Clone, Copy, Debug, PartialEq, Eq, Structural)]
pub struct Ratio {
    pub numerator: u128,
    pub denominator: u64,
}

impl Ratio {
    /// Whether the ratio stands for zero.
    pub open spec fn is_zero(self) -> bool {
        self.numerator == 0 || self.denominator == 0
    }

    /// Whether the ratio lies between zero and one.
    pub open spec fn is_fraction(self) -> bool {
        self.numerator <= self.denominator
    }

    /// The ratio rounded down to a whole number.
    pub open spec fn floor(self) -> int {
        if self.denominator == 0 {
            0
        } else {
            self.numerator as int / self.denominator as int
        }
    }

    /// The numerator of the number that the ratio stands for.
    pub open spec fn top(self) -> int {
        if self.denominator == 0 {
            0
        } else {
            self.numerator as int
        }
    }

    /// The denominator of the number that the ratio stands for; never zero.
    pub open spec fn bottom(self) -> int {
        if self.denominator == 0 {
            1
        } else {
            self.denominator as int
        }
    }

    /// Whether `self` is greater than `other` as a number.
    pub open spec fn exceeds(self, other: Ratio) -> bool {
        self.top() * other.bottom() > other.top() * self.bottom()
    }

    /// Whether the ratio stands for zero.
    pub fn zero(&self) -> (zero: bool)
        ensures
            zero == self.is_zero(),
    {
        self.numerator == 0 || self.denominator == 0
    }

    /// The ratio rounded down to a whole number; zero where the denominator
    /// is zero.
    pub fn whole(&self) -> (whole: u128)
        ensures
            whole == self.floor(),
    {
        if self.denominator == 0 {
            0
        } else {
            self.numerator / (self.denominator as u128)
        }
    }

    /// Whether `self` is greater than `other` as a number. Both numerators
    /// must fit 64 bits, so that the products that are compared fit 128.
    pub fn greater_than(&self, other: &Ratio) -> (greater: bool)
        requires
            self.numerator <= u64::MAX,
            other.numerator <= u64::MAX,
        ensures
            greater == self.exceeds(*other),
    {
        let own_top: u128 = if self.denominator == 0 {
            0
        } else {
            self.numerator
        };
        let own_bottom: u128 = if self.denominator == 0 {
            1
        } else {
            self.denominator as u128
        };
        let other_top: u128 = if other.denominator == 0 {
            0
        } else {
            other.numerator
        };
        let other_bottom: u128 = if other.denominator == 0 {
            1
        } else {
            other.denominator as u128
        };
        assert(own_top * other_bottom <= 0xFFFF_FFFF_FFFF_FFFF * 0xFFFF_FFFF_FFFF_FFFF) by (nonlinear_arith)
            requires
                0 <= own_top <= 0xFFFF_FFFF_FFFF_FFFF,
                0 <= other_bottom <= 0xFFFF_FFFF_FFFF_FFFF,
        ;
        assert(other_top * own_bottom <= 0xFFFF_FFFF_FFFF_FFFF * 0xFFFF_FFFF_FFFF_FFFF) by (nonlinear_arith)
            requires
                0 <= other_top <= 0xFFFF_FFFF_FFFF_FFFF,
                0 <= own_bottom <= 0xFFFF_FFFF_FFFF_FFFF,
        ;
        own_top * other_bottom > other_top * own_bottom
    }
}

/// The order of ratios is that of numbers: what exceeds a ratio exceeds
/// everything that this ratio is not below.
pub proof fn lemma_exceeds_transitive(low: Ratio, mid: Ratio, high: Ratio)
    requires
        !low.exceeds(mid),
        high.exceeds(mid),
    ensures
        high.exceeds(low),
        !low.exceeds(high),
{
    let (lt, lb) = (low.top(), low.bottom());
    let (mt, mb) = (mid.top(), mid.bottom());
    let (ht, hb) = (high.top(), high.bottom());
    assert(ht * lb > lt * hb) by (nonlinear_arith)
        requires
            lt * mb <= mt * lb,
            ht * mb > mt * hb,
            lb > 0,
            mb > 0,
            hb > 0,
            lt >= 0,
            mt >= 0,
            ht >= 0,
    {
        assert((ht * mb) * lb > (mt * hb) * lb);
        assert((mt * lb) * hb >= (lt * mb) * hb);
        assert((ht * lb) * mb > (lt * hb) * mb);
    }
}

} // verus!
