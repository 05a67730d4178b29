//! Exact decimal numbers: scales, refresh rates and the sizes they lead to.

use vstd::prelude::*;

use crate::number::{ratio_string, ratio_text};
use crate::text::{strip_end, stripped_end};

verus! {

/// A number with nine decimal places.
#[derive(Debug, Clone, Copy, PartialEq, Eq, PartialOrd, Ord, Hash, Structural)]
pub struct Fixed {
    pub nanos: i64,
}

/// The billionths in one.
pub const UNIT: i64 = 1_000_000_000;

impl Fixed {
    pub fn from_nanos(nanos: i64) -> (r: Self)
        ensures
            r.nanos == nanos,
    {
        Fixed { nanos }
    }

    pub open spec fn one() -> Self {
        Fixed { nanos: UNIT }
    }

    /// The shortest decimal that stands for this number.
    pub open spec fn shown(self) -> Seq<char> {
        strip_end(strip_end(ratio_text(self.nanos as int, UNIT as int, 9), "0"@), "."@)
    }

    pub fn text(self) -> (r: String)
        ensures
            r@ == self.shown(),
    {
        stripped_end(stripped_end(ratio_string(self.nanos, UNIT, 9).as_str(), "0").as_str(), ".")
    }
}

/// A quotient of two integers, kept exact.
#[derive(Debug, Clone, Copy, PartialEq, Eq, Structural)]
pub struct Ratio {
    pub num: i64,
    pub den: i64,
}

/// `n / d` for `d > 0`, rounded to the nearest integer, ties away from zero.
pub open spec fn round_half_away(n: int, d: int) -> int {
    if n >= 0 {
        (2 * n + d) / (2 * d)
    } else {
        -((2 * -n + d) / (2 * d))
    }
}

/// `n` brought into the range of an `i32`.
pub open spec fn clamp_i32(n: int) -> int {
    if n < i32::MIN {
        i32::MIN as int
    } else if n > i32::MAX {
        i32::MAX as int
    } else {
        n
    }
}

impl Ratio {
    /// The nearest `i32`, ties away from zero. A quotient by zero is as far out
    /// as its numerator's sign says, and zero where there is none.
    pub open spec fn nearest(self) -> int {
        if self.den == 0 {
            if self.num > 0 {
                i32::MAX as int
            } else if self.num < 0 {
                i32::MIN as int
            } else {
                0
            }
        } else if self.den > 0 {
            clamp_i32(round_half_away(self.num as int, self.den as int))
        } else {
            clamp_i32(round_half_away(-self.num, -self.den))
        }
    }

    pub fn rounded(self) -> (r: i32)
        ensures
            r == self.nearest(),
    {
        if self.den == 0 {
            if self.num > 0 {
                i32::MAX
            } else if self.num < 0 {
                i32::MIN
            } else {
                0
            }
        } else {
            let n: i128 = if self.den > 0 {
                self.num as i128
            } else {
                -(self.num as i128)
            };
            let d: i128 = if self.den > 0 {
                self.den as i128
            } else {
                -(self.den as i128)
            };
            let v: i128 = rounded_half_away(n, d);
            if v < i32::MIN as i128 {
                i32::MIN
            } else if v > i32::MAX as i128 {
                i32::MAX
            } else {
                v as i32
            }
        }
    }

    /// Whether a quotient by a positive number lies less than a thousandth away
    /// from an integer.
    pub open spec fn integral(self) -> bool {
        let r = self.num as int % self.den as int;
        self.den > 0 && (1000 * r < self.den || 1000 * (self.den - r) < self.den)
    }

    pub fn is_integral(self) -> (r: bool)
        ensures
            r == self.integral(),
    {
        if self.den <= 0 {
            return false;
        }
        let d: i128 = self.den as i128;
        let n: i128 = self.num as i128;
        let r: i128 = remainder(n, d);
        1000 * r < d || 1000 * (d - r) < d
    }

    /// A quotient by a positive number to three decimal places.
    pub open spec fn shown(self) -> Seq<char> {
        ratio_text(self.num as int, self.den as int, 3)
    }

    pub fn text(self) -> (r: String)
        requires
            self.den > 0,
        ensures
            r@ == self.shown(),
    {
        ratio_string(self.num, self.den, 3)
    }
}

/// `n / d` rounded to the nearest integer, ties away from zero.
pub fn rounded_half_away(n: i128, d: i128) -> (r: i128)
    requires
        0 < d <= 0x1_0000_0000_0000_0000,
        -0x1000_0000_0000_0000_0000_0000 <= n <= 0x1000_0000_0000_0000_0000_0000,
    ensures
        r == round_half_away(n as int, d as int),
        -0x2000_0000_0000_0000_0000_0001 <= r <= 0x2000_0000_0000_0000_0000_0001,
{
    let size: i128 = if n >= 0 {
        n
    } else {
        -n
    };
    let q: i128 = (2 * size + d) / (2 * d);
    assert(0 <= q <= 2 * size + 1) by (nonlinear_arith)
        requires
            q == (2 * size + d) / (2 * d),
            size >= 0,
            d >= 1,
    ;
    if n >= 0 {
        q
    } else {
        -q
    }
}

/// The remainder that is never negative.
pub fn remainder(n: i128, d: i128) -> (r: i128)
    requires
        0 < d <= 0x1_0000_0000_0000_0000,
        -0x1000_0000_0000_0000_0000_0000 <= n <= 0x1000_0000_0000_0000_0000_0000,
    ensures
        r == n as int % d as int,
        0 <= r < d,
{
    if n >= 0 {
        n % d
    } else {
        let r: i128 = (-n) % d;
        proof {
            let q = (-n) as int / d as int;
            vstd::arithmetic::div_mod::lemma_fundamental_div_mod((-n) as int, d as int);
            assert(d * q == q * d) by (nonlinear_arith);
            if r == 0 {
                assert((-q) * d == -(q * d)) by (nonlinear_arith);
                vstd::arithmetic::div_mod::lemma_fundamental_div_mod_converse(
                    n as int,
                    d as int,
                    -q,
                    0,
                );
            } else {
                assert((-q - 1) * d == -(q * d) - d) by (nonlinear_arith);
                vstd::arithmetic::div_mod::lemma_fundamental_div_mod_converse(
                    n as int,
                    d as int,
                    -q - 1,
                    d - r,
                );
            }
        }
        if r == 0 {
            0
        } else {
            d - r
        }
    }
}

} // verus!
