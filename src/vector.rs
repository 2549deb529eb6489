use vstd::prelude::*;

use crate::arith::{
    abs, ceil_sqrt, ceil_sqrt_u128, div_toward_zero, is_ceil_sqrt, lemma_mul_abs_bound, lemma_tdiv_bounds, tdiv,
};

verus! {

/// Bound on each component for which products and dot products fit in `i128`.
pub const WIDE: i64 = 0x4000_0000_0000_0000;

/// A 2D vector in the engine's fixed-point units (length, velocity or
/// acceleration, depending on what it holds).
#[derive(Clone, Copy, Debug, PartialEq, Eq, Structural)]
pub struct Vector2D {
    pub x: i64,
    pub y: i64,
}

/// Dot product of `(ax, ay)` and `(bx, by)`.
pub open spec fn dot(ax: int, ay: int, bx: int, by: int) -> int {
    ax * bx + ay * by
}

/// Squared Euclidean length of `(x, y)`.
pub open spec fn norm_sq(x: int, y: int) -> int {
    x * x + y * y
}

pub proof fn lemma_norm_sq_nonneg(x: int, y: int)
    ensures
        norm_sq(x, y) >= 0,
        x * x <= norm_sq(x, y),
        y * y <= norm_sq(x, y),
{
    assert(x * x >= 0 && y * y >= 0) by (nonlinear_arith);
}

/// A vector whose length is at most `cap` has components of at most `cap`.
pub proof fn lemma_speed_bounds_components(x: int, y: int, cap: int)
    requires
        cap >= 0,
        norm_sq(x, y) <= cap * cap,
    ensures
        abs(x) <= cap,
        abs(y) <= cap,
{
    lemma_norm_sq_nonneg(x, y);
    let ax = abs(x);
    let ay = abs(y);
    assert(ax * ax == x * x && ay * ay == y * y) by (nonlinear_arith)
        requires
            ax == (if x < 0 { -x } else { x }),
            ay == (if y < 0 { -y } else { y }),
    ;
    assert(ax <= cap) by (nonlinear_arith)
        requires
            ax >= 0,
            cap >= 0,
            ax * ax <= cap * cap,
    ;
    assert(ay <= cap) by (nonlinear_arith)
        requires
            ay >= 0,
            cap >= 0,
            ay * ay <= cap * cap,
    ;
}

/// Rescaling by `cap / s`, with `s` at least the length, gives a vector of
/// length at most `cap`.
pub proof fn lemma_rescaled_within(wx: int, wy: int, cap: int, s: int)
    requires
        cap >= 0,
        s > 0,
        norm_sq(wx, wy) <= s * s,
    ensures
        norm_sq(tdiv(wx * cap, s), tdiv(wy * cap, s)) <= cap * cap,
{
    let qx = tdiv(wx * cap, s);
    let qy = tdiv(wy * cap, s);
    lemma_tdiv_bounds(wx * cap, s);
    lemma_tdiv_bounds(wy * cap, s);
    lemma_square_of_abs_le(qx, s, wx, cap);
    lemma_square_of_abs_le(qy, s, wy, cap);
    assert(norm_sq(qx, qy) <= cap * cap) by (nonlinear_arith)
        requires
            qx * qx * (s * s) <= wx * wx * (cap * cap),
            qy * qy * (s * s) <= wy * wy * (cap * cap),
            wx * wx + wy * wy <= s * s,
            s > 0,
            cap >= 0,
            norm_sq(qx, qy) == qx * qx + qy * qy,
    ;
}

proof fn lemma_square_of_abs_le(q: int, s: int, w: int, cap: int)
    requires
        s > 0,
        cap >= 0,
        abs(q) * s <= abs(w * cap),
    ensures
        q * q * (s * s) <= w * w * (cap * cap),
{
    let aq = abs(q);
    let aw = abs(w);
    assert(abs(w * cap) == aw * cap) by (nonlinear_arith)
        requires
            aw == (if w < 0 { -w } else { w }),
            cap >= 0,
            abs(w * cap) == (if w * cap < 0 { -(w * cap) } else { w * cap }),
    ;
    assert(q * q * (s * s) <= w * w * (cap * cap)) by (nonlinear_arith)
        requires
            aq == (if q < 0 { -q } else { q }),
            aw == (if w < 0 { -w } else { w }),
            0 <= aq * s <= aw * cap,
            s > 0,
            cap >= 0,
    ;
}

/// `(x, y)` rescaled to length `len`: each component of `(x, y) * len / |(x,
/// y)|`, with the length rounded up and the quotient toward zero.
pub open spec fn scaled_to(x: int, y: int, len: int) -> (int, int) {
    let s = ceil_sqrt(norm_sq(x, y));
    (tdiv(x * len, s), tdiv(y * len, s))
}

impl Vector2D {
    /// Every component lies within `[-lim, lim]`.
    pub open spec fn within(self, lim: int) -> bool {
        -lim <= self.x <= lim && -lim <= self.y <= lim
    }

    pub fn zero() -> (r: Vector2D)
        ensures
            r.x == 0 && r.y == 0,
    {
        Vector2D { x: 0, y: 0 }
    }

    pub fn dot(&self, other: &Vector2D) -> (r: i128)
        requires
            self.within(WIDE as int),
            other.within(WIDE as int),
        ensures
            r == dot(self.x as int, self.y as int, other.x as int, other.y as int),
    {
        proof {
            lemma_mul_abs_bound(self.x as int, other.x as int, WIDE as int, WIDE as int);
            lemma_mul_abs_bound(self.y as int, other.y as int, WIDE as int, WIDE as int);
        }
        (self.x as i128) * (other.x as i128) + (self.y as i128) * (other.y as i128)
    }

    pub fn norm_squared(&self) -> (r: i128)
        requires
            self.within(WIDE as int),
        ensures
            r == norm_sq(self.x as int, self.y as int),
            0 <= r <= 2 * WIDE * WIDE,
    {
        proof {
            lemma_norm_sq_nonneg(self.x as int, self.y as int);
            lemma_mul_abs_bound(self.x as int, self.x as int, WIDE as int, WIDE as int);
            lemma_mul_abs_bound(self.y as int, self.y as int, WIDE as int, WIDE as int);
        }
        self.dot(self)
    }

    /// The length, rounded up to the next integer.
    pub fn norm(&self) -> (r: u128)
        requires
            self.within(WIDE as int),
        ensures
            r == ceil_sqrt(norm_sq(self.x as int, self.y as int)),
            is_ceil_sqrt(norm_sq(self.x as int, self.y as int), r as int),
            norm_sq(self.x as int, self.y as int) > 0 ==> r > 0,
            r <= 0x8000_0000_0000_0000,
    {
        let n = self.norm_squared();
        ceil_sqrt_u128(n as u128)
    }

    pub fn add(&self, other: &Vector2D) -> (r: Vector2D)
        requires
            i64::MIN <= self.x + other.x <= i64::MAX,
            i64::MIN <= self.y + other.y <= i64::MAX,
        ensures
            r.x == self.x + other.x,
            r.y == self.y + other.y,
    {
        Vector2D { x: self.x + other.x, y: self.y + other.y }
    }

    pub fn subtract(&self, other: &Vector2D) -> (r: Vector2D)
        requires
            i64::MIN <= self.x - other.x <= i64::MAX,
            i64::MIN <= self.y - other.y <= i64::MAX,
        ensures
            r.x == self.x - other.x,
            r.y == self.y - other.y,
    {
        Vector2D { x: self.x - other.x, y: self.y - other.y }
    }

    pub fn scale(&self, k: i64) -> (r: Vector2D)
        requires
            i64::MIN <= k * self.x <= i64::MAX,
            i64::MIN <= k * self.y <= i64::MAX,
        ensures
            r.x == k * self.x,
            r.y == k * self.y,
    {
        Vector2D { x: k * self.x, y: k * self.y }
    }

    /// The vector pointing the way `self` does with length `len` (see
    /// `scaled_to`); never longer than `len`.
    pub fn normalize(&self, len: i64) -> (r: Vector2D)
        requires
            self.within(0x1000_0000_0000_0000),
            0 <= len <= 0x1000_0000,
            norm_sq(self.x as int, self.y as int) > 0,
        ensures
            (r.x as int, r.y as int) == scaled_to(self.x as int, self.y as int, len as int),
            norm_sq(r.x as int, r.y as int) <= len * len,
            r.within(len as int),
    {
        let s = self.norm();
        proof {
            lemma_mul_abs_bound(self.x as int, len as int, 0x1000_0000_0000_0000, 0x1000_0000);
            lemma_mul_abs_bound(self.y as int, len as int, 0x1000_0000_0000_0000, 0x1000_0000);
            lemma_rescaled_within(self.x as int, self.y as int, len as int, s as int);
            lemma_speed_bounds_components(
                tdiv(self.x * len, s as int),
                tdiv(self.y * len, s as int),
                len as int,
            );
        }
        let x = div_toward_zero((self.x as i128) * (len as i128), s as i128);
        let y = div_toward_zero((self.y as i128) * (len as i128), s as i128);
        Vector2D { x: x as i64, y: y as i64 }
    }
}

} // verus!
