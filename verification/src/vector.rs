//! Integer vectors of two and three components.

use vstd::prelude::*;

verus! {

/// A point or offset on the integer plane.
#[derive(Clone, Copy, Debug, PartialEq, Eq, Hash, Structural)]
pub struct IVec2 {
    pub x: i32,
    pub y: i32,
}

/// A place on an image: a column and a row, counted from zero.
#[derive(Clone, Copy, Debug, PartialEq, Eq, Hash, Structural)]
pub struct UVec2 {
    pub x: u32,
    pub y: u32,
}

/// A point or offset on the integer lattice.
#[derive(Clone, Copy, Debug, PartialEq, Eq, Hash, Structural)]
pub struct IVec3 {
    pub x: i32,
    pub y: i32,
    pub z: i32,
}

/// The smaller of two whole numbers.
pub open spec fn min_int(a: int, b: int) -> int {
    if a <= b { a } else { b }
}

/// The larger of two whole numbers.
pub open spec fn max_int(a: int, b: int) -> int {
    if a >= b { a } else { b }
}

/// The distance of a whole number from zero.
pub open spec fn abs_int(a: int) -> int {
    if a >= 0 { a } else { -a }
}

/// Shorthand for a two-component vector.
pub fn ivec2(x: i32, y: i32) -> (v: IVec2)
    ensures
        v == (IVec2 { x, y }),
{
    IVec2 { x, y }
}

/// Shorthand for a place on an image.
pub fn uvec2(x: u32, y: u32) -> (v: UVec2)
    ensures
        v == (UVec2 { x, y }),
{
    UVec2 { x, y }
}

/// Shorthand for a three-component vector.
pub fn ivec3(x: i32, y: i32, z: i32) -> (v: IVec3)
    ensures
        v == (IVec3 { x, y, z }),
{
    IVec3 { x, y, z }
}

impl IVec2 {
    /// The componentwise minimum.
    pub open spec fn min_spec(self, other: IVec2) -> IVec2 {
        IVec2 {
            x: min_int(self.x as int, other.x as int) as i32,
            y: min_int(self.y as int, other.y as int) as i32,
        }
    }

    /// The componentwise maximum.
    pub open spec fn max_spec(self, other: IVec2) -> IVec2 {
        IVec2 {
            x: max_int(self.x as int, other.x as int) as i32,
            y: max_int(self.y as int, other.y as int) as i32,
        }
    }

    /// The componentwise minimum.
    pub fn min(self, other: IVec2) -> (m: IVec2)
        ensures
            m == self.min_spec(other),
    {
        IVec2 {
            x: if self.x <= other.x { self.x } else { other.x },
            y: if self.y <= other.y { self.y } else { other.y },
        }
    }

    /// The componentwise maximum.
    pub fn max(self, other: IVec2) -> (m: IVec2)
        ensures
            m == self.max_spec(other),
    {
        IVec2 {
            x: if self.x >= other.x { self.x } else { other.x },
            y: if self.y >= other.y { self.y } else { other.y },
        }
    }
}

/// A point of space between lattice cells: each coordinate is a whole
/// number of `unit`-th parts of a cell, so the point is
/// `(x / unit, y / unit, z / unit)`.
#[derive(Clone, Copy, Debug, PartialEq, Eq, Hash, Structural)]
pub struct Fixed3 {
    pub x: i64,
    pub y: i64,
    pub z: i64,
    pub unit: u32,
}

/// The whole number nearest to `n / d`, for a positive `d`; a value half-way
/// between two whole numbers goes to the higher one, whatever its sign.
pub open spec fn round_div(n: int, d: int) -> int {
    (2 * n + d) / (2 * d)
}

/// The largest whole number that is at most `n / d`, for a positive `d`.
pub open spec fn floor_div(n: int, d: int) -> int {
    n / d
}

/// The nearest value of `i32` to a whole number.
pub open spec fn clamp_i32(v: int) -> i32 {
    if v < i32::MIN {
        i32::MIN
    } else if v > i32::MAX {
        i32::MAX
    } else {
        v as i32
    }
}

/// Computes `round_div`.
pub(crate) fn round_ratio(n: i128, d: i128) -> (r: i128)
    requires
        d > 0,
        -0x1000_0000_0000_0000_0000_0000_0000_0000 < n < 0x1000_0000_0000_0000_0000_0000_0000_0000,
        d < 0x1000_0000_0000_0000_0000_0000_0000_0000,
    ensures
        r == round_div(n as int, d as int),
        2 * n + d >= 0 ==> 0 <= r <= 2 * n + d,
        2 * n + d < 0 ==> 2 * n + d <= r < 0,
{
    floor_ratio(2 * n + d, 2 * d)
}

/// Computes `floor_div`.
pub(crate) fn floor_ratio(n: i128, d: i128) -> (r: i128)
    requires
        d > 0,
        n > i128::MIN,
    ensures
        r == floor_div(n as int, d as int),
        n >= 0 ==> 0 <= r <= n,
        n < 0 ==> n <= r < 0,
{
    let q: i128 = n / d;
    let r: i128 = n % d;
    proof {
        lemma_floor_of_truncated(n as int, d as int);
        let f = floor_div(n as int, d as int);
        vstd::arithmetic::div_mod::lemma_fundamental_div_mod(n as int, d as int);
        vstd::arithmetic::div_mod::lemma_mod_bound(n as int, d as int);
        if n >= 0 {
            vstd::arithmetic::div_mod::lemma_div_pos_is_pos(n as int, d as int);
            vstd::arithmetic::div_mod::lemma_div_nonincreasing(n as int, d as int);
        } else {
            assert(n <= f < 0) by (nonlinear_arith)
                requires
                    d >= 1,
                    n < 0,
                    n == d * f + (n as int % d as int),
                    0 <= (n as int % d as int) < d,
            ;
        }
    }
    if r < 0 {
        q - 1
    } else {
        q
    }
}

/// Clamps a whole number to the range of `i32`.
pub(crate) fn saturate(v: i128) -> (r: i32)
    ensures
        r == clamp_i32(v as int),
{
    if v < i32::MIN as i128 {
        i32::MIN
    } else if v > i32::MAX as i128 {
        i32::MAX
    } else {
        v as i32
    }
}

/// A product is bounded by the product of the bounds of its factors.
pub(crate) proof fn lemma_product_bound(a: int, b: int, a_bound: int, b_bound: int)
    requires
        -a_bound <= a <= a_bound,
        -b_bound <= b <= b_bound,
    ensures
        -(a_bound * b_bound) <= a * b <= a_bound * b_bound,
{
    assert(-(a_bound * b_bound) <= a * b <= a_bound * b_bound) by (nonlinear_arith)
        requires
            -a_bound <= a <= a_bound,
            -b_bound <= b <= b_bound,
    ;
}

/// Division that rounds toward zero is the floor, but for a negative
/// numerator that `d` does not divide: there it is one above the floor.
proof fn lemma_floor_of_truncated(n: int, d: int)
    requires
        d > 0,
    ensures
        n < 0 && (-n) % d == 0 ==> n / d == -((-n) / d),
        n < 0 && (-n) % d != 0 ==> n / d == -((-n) / d) - 1,
        n < 0 ==> -((-n) / d) >= n,
{
    if n < 0 {
        let q = (-n) / d;
        let r = (-n) % d;
        assert(-n == q * d + r) by {
            vstd::arithmetic::div_mod::lemma_fundamental_div_mod(-n, d);
            assert(d * q == q * d) by (nonlinear_arith);
        }
        assert(q <= -n) by (nonlinear_arith)
            requires
                -n == q * d + r,
                0 <= r,
                0 <= q,
                d >= 1,
        ;
        if r == 0 {
            assert(n == (-q) * d) by (nonlinear_arith)
                requires
                    -n == q * d + r,
                    r == 0,
            ;
            vstd::arithmetic::div_mod::lemma_fundamental_div_mod_converse(n, d, -q, 0);
        } else {
            assert(n == (-q - 1) * d + (d - r)) by (nonlinear_arith)
                requires
                    -n == q * d + r,
            ;
            vstd::arithmetic::div_mod::lemma_fundamental_div_mod_converse(n, d, -q - 1, d - r);
        }
    }
}

} // verus!
