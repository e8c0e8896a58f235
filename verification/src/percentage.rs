//! Exact percentages: a part of a whole, never rounded until it is shown.

use crate::number::{ceil_div, round_div, rounded_div};
use vstd::prelude::*;

verus! {

/// The percentage `100 * part / whole`, kept as the two numbers it is
/// made of. Half is `1` of `2` as well as `50` of `100`.
#[derive(Clone, Copy, Debug, PartialEq, Eq, Structural)]
pub struct Percentage {
    pub part: u64,
    pub whole: u64,
}

impl Percentage {
    /// A percentage has a whole that is not zero.
    pub open spec fn valid(self) -> bool {
        self.whole > 0
    }

    /// Whether this percentage is `other` or more.
    pub open spec fn at_least(self, other: Percentage) -> bool {
        self.part * other.whole >= other.part * self.whole
    }

    /// How many of `width` cells this percentage fills: `width` times the
    /// percentage, rounded up, and never more than `width`.
    pub open spec fn cells(self, width: nat) -> nat {
        if 0 <= ceil_div(self.part * width, self.whole as int) < width {
            ceil_div(self.part * width, self.whole as int) as nat
        } else {
            width
        }
    }

    /// The percentage in tenths of a percent, rounded to the nearest
    /// tenth, a tie to the even one.
    pub open spec fn tenths(self) -> int {
        round_div(1000 * self.part, self.whole as int)
    }

    /// `n` percent.
    pub fn from_percent(n: u64) -> (r: Percentage)
        ensures
            r == (Percentage { part: n, whole: 100 }),
            r.valid(),
    {
        Percentage { part: n, whole: 100 }
    }

    /// Whether this percentage is `other` or more.
    pub fn is_at_least(&self, other: &Percentage) -> (r: bool)
        ensures
            r == self.at_least(*other),
    {
        assert(self.part * other.whole <= 0xffff_ffff_ffff_ffff * 0xffff_ffff_ffff_ffff)
            by (nonlinear_arith)
            requires
                self.part <= 0xffff_ffff_ffff_ffff,
                other.whole <= 0xffff_ffff_ffff_ffff,
        ;
        assert(other.part * self.whole <= 0xffff_ffff_ffff_ffff * 0xffff_ffff_ffff_ffff)
            by (nonlinear_arith)
            requires
                other.part <= 0xffff_ffff_ffff_ffff,
                self.whole <= 0xffff_ffff_ffff_ffff,
        ;
        (self.part as u128) * (other.whole as u128) >= (other.part as u128) * (self.whole as u128)
    }

    /// How many of `width` cells this percentage fills.
    pub fn cell_count(&self, width: usize) -> (r: usize)
        requires
            self.valid(),
        ensures
            r == self.cells(width as nat),
            r <= width,
    {
        assert(self.part * width <= 0xffff_ffff_ffff_ffff * 0xffff_ffff_ffff_ffff)
            by (nonlinear_arith)
            requires
                self.part <= 0xffff_ffff_ffff_ffff,
                width <= 0xffff_ffff_ffff_ffff,
        ;
        let n: u128 = (self.part as u128) * (width as u128);
        let d: u128 = self.whole as u128;
        let q = n / d;
        let c = if n % d == 0 {
            q
        } else {
            q + 1
        };
        if c < width as u128 {
            c as usize
        } else {
            width
        }
    }

    /// The percentage in tenths of a percent, rounded to the nearest.
    pub fn rounded_tenths(&self) -> (r: u128)
        requires
            self.valid(),
        ensures
            r == self.tenths(),
    {
        rounded_div(1000 * (self.part as u128), self.whole as u128)
    }
}

} // verus!
