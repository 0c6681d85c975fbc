//! Two-dimensional integer vectors.
//!
//! Coordinates are font units. Outline coordinates handed to the path
//! builder must stay within [`COORD_MAX`]; points recorded by the builder
//! (which include control points of emitted quadratics, and those may
//! overshoot the input range by up to a factor of two) stay within
//! [`POINT_MAX`].

use vstd::prelude::*;

verus! {

/// Largest coordinate magnitude accepted as path-builder input.
pub const COORD_MAX: i64 = 262144;

/// Largest coordinate magnitude of any point recorded by a path builder.
pub const POINT_MAX: i64 = 524288;

/// A two-dimensional vector with integer coordinates.
#[derive(Copy, Clone, Debug, PartialEq, Eq, Structural)]
pub struct Vec2 {
    pub x: i64,
    pub y: i64,
}

impl Vec2 {
    /// True when both coordinates have magnitude at most `bound`.
    pub open spec fn in_range(self, bound: i64) -> bool {
        -bound <= self.x <= bound && -bound <= self.y <= bound
    }

    /// Constructs a vector with the given coordinates.
    pub fn new(x: i64, y: i64) -> (r: Vec2)
        ensures
            r == (Vec2 { x, y }),
    {
        Vec2 { x, y }
    }

    /// Computes the dot product of two vectors.
    pub fn dot(self, other: Vec2) -> (r: i64)
        requires
            self.in_range(POINT_MAX),
            other.in_range(POINT_MAX),
        ensures
            r == self.x * other.x + self.y * other.y,
    {
        proof {
            lemma_mul_bound(self.x as int, other.x as int, POINT_MAX as int);
            lemma_mul_bound(self.y as int, other.y as int, POINT_MAX as int);
        }
        self.x * other.x + self.y * other.y
    }

    /// Computes the two-dimensional cross product of two vectors
    /// (which yields a scalar quantity).
    pub fn cross(self, other: Vec2) -> (r: i64)
        requires
            self.in_range(POINT_MAX),
            other.in_range(POINT_MAX),
        ensures
            r == self.x * other.y - self.y * other.x,
    {
        proof {
            lemma_mul_bound(self.x as int, other.y as int, POINT_MAX as int);
            lemma_mul_bound(self.y as int, other.x as int, POINT_MAX as int);
        }
        self.x * other.y - self.y * other.x
    }

    /// Adds two vectors componentwise.
    pub fn add(self, other: Vec2) -> (r: Vec2)
        requires
            self.in_range(POINT_MAX),
            other.in_range(POINT_MAX),
        ensures
            r.x == self.x + other.x,
            r.y == self.y + other.y,
    {
        Vec2 { x: self.x + other.x, y: self.y + other.y }
    }

    /// Subtracts two vectors componentwise.
    pub fn sub(self, other: Vec2) -> (r: Vec2)
        requires
            self.in_range(POINT_MAX),
            other.in_range(POINT_MAX),
        ensures
            r.x == self.x - other.x,
            r.y == self.y - other.y,
    {
        Vec2 { x: self.x - other.x, y: self.y - other.y }
    }

    /// Multiplies a vector by an integer scalar.
    pub fn mul(self, s: i64) -> (r: Vec2)
        requires
            self.in_range(POINT_MAX),
            -1048576 <= s <= 1048576,
        ensures
            r.x == s * self.x,
            r.y == s * self.y,
    {
        proof {
            crate::num::lemma_mul_le(
                if s >= 0 {
                    s as int
                } else {
                    -s as int
                },
                1048576,
                self.x as int,
                POINT_MAX as int,
            );
            crate::num::lemma_mul_le(
                if s >= 0 {
                    s as int
                } else {
                    -s as int
                },
                1048576,
                self.y as int,
                POINT_MAX as int,
            );
            assert(s * self.x == if s >= 0 {
                s * self.x
            } else {
                -((-s) * self.x)
            } && s * self.y == if s >= 0 {
                s * self.y
            } else {
                -((-s) * self.y)
            }) by (nonlinear_arith);
        }
        Vec2 { x: s * self.x, y: s * self.y }
    }

    /// Linearly interpolates between two vectors by the exact rational
    /// parameter `t_num / t_den`, rounding each coordinate to the nearest
    /// integer.
    pub fn lerp(t_num: i64, t_den: i64, a: Vec2, b: Vec2) -> (r: Vec2)
        requires
            0 < t_den <= 1048576,
            0 <= t_num <= t_den,
            a.in_range(POINT_MAX),
            b.in_range(POINT_MAX),
        ensures
            r.x == crate::num::spec_round_div(
                (t_den - t_num) * a.x + t_num * b.x,
                t_den as int,
            ),
            r.y == crate::num::spec_round_div(
                (t_den - t_num) * a.y + t_num * b.y,
                t_den as int,
            ),
            r.in_range(POINT_MAX),
    {
        proof {
            crate::num::lemma_mul_le(t_den - t_num, 1048576, a.x as int, POINT_MAX as int);
            crate::num::lemma_mul_le(t_num as int, 1048576, b.x as int, POINT_MAX as int);
            crate::num::lemma_mul_le(t_den - t_num, 1048576, a.y as int, POINT_MAX as int);
            crate::num::lemma_mul_le(t_num as int, 1048576, b.y as int, POINT_MAX as int);
            lemma_lerp_in_range(t_num as int, t_den as int, a.x as int, b.x as int);
            lemma_lerp_in_range(t_num as int, t_den as int, a.y as int, b.y as int);
        }
        Vec2 {
            x: crate::num::round_div((t_den - t_num) * a.x + t_num * b.x, t_den),
            y: crate::num::round_div((t_den - t_num) * a.y + t_num * b.y, t_den),
        }
    }

    /// Finds the pointwise min of two vectors.
    pub fn min(self, other: Vec2) -> (r: Vec2)
        ensures
            r == vec_min(self, other),
    {
        Vec2 {
            x: if self.x <= other.x { self.x } else { other.x },
            y: if self.y <= other.y { self.y } else { other.y },
        }
    }

    /// Finds the pointwise max of two vectors.
    pub fn max(self, other: Vec2) -> (r: Vec2)
        ensures
            r == vec_max(self, other),
    {
        Vec2 {
            x: if self.x >= other.x { self.x } else { other.x },
            y: if self.y >= other.y { self.y } else { other.y },
        }
    }
}

/// The pointwise minimum of two vectors.
pub open spec fn vec_min(a: Vec2, b: Vec2) -> Vec2 {
    Vec2 {
        x: if a.x <= b.x { a.x } else { b.x },
        y: if a.y <= b.y { a.y } else { b.y },
    }
}

/// The pointwise maximum of two vectors.
pub open spec fn vec_max(a: Vec2, b: Vec2) -> Vec2 {
    Vec2 {
        x: if a.x >= b.x { a.x } else { b.x },
        y: if a.y >= b.y { a.y } else { b.y },
    }
}

/// A rounded convex combination of two bounded values is bounded the same
/// way.
proof fn lemma_lerp_in_range(t_num: int, t_den: int, a: int, b: int)
    requires
        0 < t_den,
        0 <= t_num <= t_den,
        -POINT_MAX <= a <= POINT_MAX,
        -POINT_MAX <= b <= POINT_MAX,
    ensures
        -POINT_MAX <= crate::num::spec_round_div((t_den - t_num) * a + t_num * b, t_den)
            <= POINT_MAX,
{
    assert(-(POINT_MAX * t_den) <= (t_den - t_num) * a + t_num * b <= POINT_MAX * t_den) by (
    nonlinear_arith)
        requires
            0 < t_den,
            0 <= t_num <= t_den,
            -POINT_MAX <= a <= POINT_MAX,
            -POINT_MAX <= b <= POINT_MAX;
    crate::num::lemma_round_div_bound((t_den - t_num) * a + t_num * b, t_den, POINT_MAX as int);
}

/// The product of two integers is bounded by the product of their bounds.
pub proof fn lemma_mul_bound(a: int, b: int, m: int) by (nonlinear_arith)
    requires
        -m <= a <= m,
        -m <= b <= m,
        0 <= m,
    ensures
        -(m * m) <= a * b <= m * m,
{
}

} // verus!
