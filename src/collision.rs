use vstd::prelude::*;

use crate::arith::{abs, ceil_sqrt, ceil_sqrt_u128, div_toward_zero, lemma_mul_abs_bound, lemma_tdiv_le_bound, tdiv};
use crate::body::{LIMIT, MASS_LIMIT};
use crate::vector::{dot, lemma_norm_sq_nonneg, norm_sq, Vector2D};

verus! {

/// Velocities after an elastic collision of masses `m1` and `m2` whose centres
/// differ by `(dx, dy)` (first minus second), moving at `v1` and `v2`:
/// `v1' = v1 - 2 m2 / (m1 + m2) * ((v1 - v2) . d / |d|^2) * d`, and
/// `v2' = v2 + 2 m1 / (m1 + m2) * ((v1 - v2) . d / |d|^2) * d`, each component
/// rounded toward the velocity before; no change when the centres coincide.
pub open spec fn response(
    m1: int,
    m2: int,
    dx: int,
    dy: int,
    v1x: int,
    v1y: int,
    v2x: int,
    v2y: int,
) -> (int, int, int, int) {
    let d2 = norm_sq(dx, dy);
    if d2 == 0 {
        (v1x, v1y, v2x, v2y)
    } else {
        let p = dot(v1x - v2x, v1y - v2y, dx, dy);
        let q = (m1 + m2) * d2;
        (
            v1x - tdiv(2 * m2 * p * dx, q),
            v1y - tdiv(2 * m2 * p * dy, q),
            v2x + tdiv(2 * m1 * p * dx, q),
            v2y + tdiv(2 * m1 * p * dy, q),
        )
    }
}

/// Squared distance between two centres that differ by `(dx, dy)` after both
/// have stepped back `k` times along velocities that differ by `(dvx, dvy)`.
pub open spec fn gap_sq(dx: int, dy: int, dvx: int, dvy: int, k: int) -> int {
    norm_sq(dx - k * dvx, dy - k * dvy)
}

/// `k` is the least number of push-back steps after which the two bodies no
/// longer overlap.
pub open spec fn is_push_back_count(dx: int, dy: int, dvx: int, dvy: int, rsum: int, k: int) -> bool {
    &&& k >= 0
    &&& gap_sq(dx, dy, dvx, dvy, k) >= rsum * rsum
    &&& forall|j: int| 0 <= j < k ==> #[trigger] gap_sq(dx, dy, dvx, dvy, j) < rsum * rsum
}

/// Number of push-back steps; none when the two velocities are equal, as the
/// bodies would then never part.
pub open spec fn push_back_count(dx: int, dy: int, dvx: int, dvy: int, rsum: int) -> int {
    if norm_sq(dvx, dvy) == 0 {
        0
    } else {
        choose|k: int| is_push_back_count(dx, dy, dvx, dvy, rsum, k)
    }
}

/// Cauchy-Schwarz in the plane.
pub proof fn lemma_cauchy_schwarz(ax: int, ay: int, bx: int, by: int)
    ensures
        dot(ax, ay, bx, by) * dot(ax, ay, bx, by) <= norm_sq(ax, ay) * norm_sq(bx, by),
{
    let a = ax * bx;
    let b = ay * by;
    let c = ax * by;
    let e = ay * bx;
    let p = a + b;
    let w = c - e;
    assert(p * p == a * a + 2 * (a * b) + b * b) by (nonlinear_arith)
        requires
            p == a + b,
    ;
    assert(w * w == c * c - 2 * (c * e) + e * e) by (nonlinear_arith)
        requires
            w == c - e,
    ;
    assert(a * b == c * e) by (nonlinear_arith)
        requires
            a == ax * bx,
            b == ay * by,
            c == ax * by,
            e == ay * bx,
    ;
    let xx = ax * ax;
    let yy = ay * ay;
    let uu = bx * bx;
    let vv = by * by;
    assert((xx + yy) * (uu + vv) == xx * uu + xx * vv + yy * uu + yy * vv) by (nonlinear_arith);
    lemma_square_of_product(ax, bx);
    lemma_square_of_product(ay, by);
    lemma_square_of_product(ax, by);
    lemma_square_of_product(ay, bx);
    assert(w * w >= 0) by (nonlinear_arith);
}

proof fn lemma_square_of_product(x: int, y: int)
    ensures
        (x * x) * (y * y) == (x * y) * (x * y),
{
    assert((x * x) * (y * y) == (x * y) * (x * y)) by (nonlinear_arith);
}

/// `|p * c| <= b * d2` where `p = dv . d`, `c` a component of `d`, and the
/// squared length of `dv` at most `b^2`.
proof fn lemma_projection_bound(dvx: int, dvy: int, dx: int, dy: int, c: int, b: int)
    requires
        c == dx || c == dy,
        b >= 0,
        norm_sq(dvx, dvy) <= b * b,
    ensures
        abs(dot(dvx, dvy, dx, dy) * c) <= b * norm_sq(dx, dy),
{
    let p = dot(dvx, dvy, dx, dy);
    let d2 = norm_sq(dx, dy);
    let nv = norm_sq(dvx, dvy);
    lemma_cauchy_schwarz(dvx, dvy, dx, dy);
    lemma_norm_sq_nonneg(dx, dy);
    lemma_norm_sq_nonneg(dvx, dvy);
    assert(c * c <= d2);
    assert((p * c) * (p * c) <= (b * d2) * (b * d2)) by (nonlinear_arith)
        requires
            p * p <= nv * d2,
            c * c <= d2,
            0 <= nv <= b * b,
            d2 >= 0,
    ;
    let x = abs(p * c);
    assert(x <= b * d2) by (nonlinear_arith)
        requires
            (p * c) * (p * c) <= (b * d2) * (b * d2),
            x == (if p * c < 0 { -(p * c) } else { p * c }),
            b >= 0,
            d2 >= 0,
    ;
}

/// Bound on one impulse term: `|tdiv(2 m p c, (m1 + m2) d2)| <= 2 b`.
proof fn lemma_impulse_term_bound(m: int, m1: int, m2: int, dvx: int, dvy: int, dx: int, dy: int, c: int, b: int)
    requires
        m == m1 || m == m2,
        m1 > 0,
        m2 > 0,
        c == dx || c == dy,
        b >= 0,
        norm_sq(dvx, dvy) <= b * b,
        norm_sq(dx, dy) > 0,
    ensures
        abs(tdiv(2 * m * dot(dvx, dvy, dx, dy) * c, (m1 + m2) * norm_sq(dx, dy))) <= 2 * b,
        (m1 + m2) * norm_sq(dx, dy) > 0,
{
    let p = dot(dvx, dvy, dx, dy);
    let d2 = norm_sq(dx, dy);
    lemma_projection_bound(dvx, dvy, dx, dy, c, b);
    let x = p * c;
    assert(abs(2 * m * p * c) <= (2 * b) * ((m1 + m2) * d2)) by (nonlinear_arith)
        requires
            abs(x) <= b * d2,
            x == p * c,
            abs(2 * m * p * c) == (if 2 * m * p * c < 0 { -(2 * m * p * c) } else { 2 * m * p * c }),
            abs(x) == (if x < 0 { -x } else { x }),
            0 < m <= m1 + m2,
            d2 > 0,
            b >= 0,
    ;
    assert((m1 + m2) * d2 > 0) by (nonlinear_arith)
        requires
            m1 + m2 > 0,
            d2 > 0,
    ;
    lemma_tdiv_le_bound(2 * m * p * c, (m1 + m2) * d2, 2 * b);
}

/// Velocities after the elastic collision of two bodies of masses `m1` and
/// `m2`, whose centres differ by `d` (first minus second), moving at `v1` and
/// `v2`; unchanged when the centres coincide.
pub fn elastic_response(m1: i64, m2: i64, d: Vector2D, v1: Vector2D, v2: Vector2D) -> (r: (
    Vector2D,
    Vector2D,
))
    requires
        0 < m1 <= MASS_LIMIT,
        0 < m2 <= MASS_LIMIT,
        d.within(0x8000_0000),
        v1.within(LIMIT as int),
        v2.within(LIMIT as int),
    ensures
        (r.0.x as int, r.0.y as int, r.1.x as int, r.1.y as int) == response(
            m1 as int,
            m2 as int,
            d.x as int,
            d.y as int,
            v1.x as int,
            v1.y as int,
            v2.x as int,
            v2.y as int,
        ),
        r.0.within(LIMIT + 8 * LIMIT),
        r.1.within(LIMIT + 8 * LIMIT),
{
    let d2 = d.norm_squared();
    if d2 == 0 {
        return (v1, v2);
    }
    let dv = v1.subtract(&v2);
    let p = dv.dot(&d);
    proof {
        let b = 4 * LIMIT;
        assert(dv.x * dv.x + dv.y * dv.y <= b * b) by (nonlinear_arith)
            requires
                -2 * LIMIT <= dv.x <= 2 * LIMIT,
                -2 * LIMIT <= dv.y <= 2 * LIMIT,
                b == 4 * LIMIT,
        ;
        lemma_mul_abs_bound(d.x as int, d.x as int, 0x8000_0000, 0x8000_0000);
        lemma_mul_abs_bound(d.y as int, d.y as int, 0x8000_0000, 0x8000_0000);
        lemma_impulse_term_bound(m2 as int, m1 as int, m2 as int, dv.x as int, dv.y as int, d.x as int, d.y as int, d.x as int, b);
        lemma_impulse_term_bound(m2 as int, m1 as int, m2 as int, dv.x as int, dv.y as int, d.x as int, d.y as int, d.y as int, b);
        lemma_impulse_term_bound(m1 as int, m1 as int, m2 as int, dv.x as int, dv.y as int, d.x as int, d.y as int, d.x as int, b);
        lemma_impulse_term_bound(m1 as int, m1 as int, m2 as int, dv.x as int, dv.y as int, d.x as int, d.y as int, d.y as int, b);
        lemma_mul_abs_bound(dv.x as int, d.x as int, 2 * LIMIT, 0x8000_0000);
        lemma_mul_abs_bound(dv.y as int, d.y as int, 2 * LIMIT, 0x8000_0000);
        let pb = 4 * LIMIT * 0x8000_0000;
        lemma_mul_abs_bound(2 * m1, p as int, 2 * MASS_LIMIT, pb);
        lemma_mul_abs_bound(2 * m2, p as int, 2 * MASS_LIMIT, pb);
        lemma_mul_abs_bound(2 * m1 * p, d.x as int, 2 * MASS_LIMIT * pb, 0x8000_0000);
        lemma_mul_abs_bound(2 * m1 * p, d.y as int, 2 * MASS_LIMIT * pb, 0x8000_0000);
        lemma_mul_abs_bound(2 * m2 * p, d.x as int, 2 * MASS_LIMIT * pb, 0x8000_0000);
        lemma_mul_abs_bound(2 * m2 * p, d.y as int, 2 * MASS_LIMIT * pb, 0x8000_0000);
        lemma_mul_abs_bound((m1 + m2) as int, d2 as int, 2 * MASS_LIMIT, 0x8000_0000_0000_0000);
    }
    let q: i128 = ((m1 as i128) + (m2 as i128)) * d2;
    let k1: i128 = 2 * (m1 as i128) * p;
    let k2: i128 = 2 * (m2 as i128) * p;
    let ix1 = div_toward_zero(k2 * (d.x as i128), q);
    let iy1 = div_toward_zero(k2 * (d.y as i128), q);
    let ix2 = div_toward_zero(k1 * (d.x as i128), q);
    let iy2 = div_toward_zero(k1 * (d.y as i128), q);
    let r1 = Vector2D { x: v1.x - ix1 as i64, y: v1.y - iy1 as i64 };
    let r2 = Vector2D { x: v2.x + ix2 as i64, y: v2.y + iy2 as i64 };
    (r1, r2)
}

/// The squared gap after `k` steps, expanded.
proof fn lemma_gap_expand(dx: int, dy: int, dvx: int, dvy: int, k: int)
    ensures
        gap_sq(dx, dy, dvx, dvy, k) == norm_sq(dx, dy) - 2 * k * dot(dx, dy, dvx, dvy) + k * k * norm_sq(
            dvx,
            dvy,
        ),
{
    assert((dx - k * dvx) * (dx - k * dvx) == dx * dx - 2 * k * (dx * dvx) + k * k * (dvx * dvx))
        by (nonlinear_arith);
    assert((dy - k * dvy) * (dy - k * dvy) == dy * dy - 2 * k * (dy * dvy) + k * k * (dvy * dvy))
        by (nonlinear_arith);
    assert(k * k * (dvx * dvx) + k * k * (dvy * dvy) == k * k * (dvx * dvx + dvy * dvy)) by (nonlinear_arith);
    assert(2 * k * (dx * dvx) + 2 * k * (dy * dvy) == 2 * k * (dx * dvx + dy * dvy)) by (nonlinear_arith);
}

/// Two bodies whose velocities differ no longer overlap once they have
/// stepped back `2 |d . dv| + rsum` times or more.
pub proof fn lemma_push_back_bound(dx: int, dy: int, dvx: int, dvy: int, rsum: int, k: int)
    requires
        norm_sq(dvx, dvy) >= 1,
        rsum >= 0,
        k >= 2 * abs(dot(dx, dy, dvx, dvy)) + rsum,
    ensures
        gap_sq(dx, dy, dvx, dvy, k) >= rsum * rsum,
{
    lemma_gap_expand(dx, dy, dvx, dvy, k);
    lemma_norm_sq_nonneg(dx, dy);
    let p = dot(dx, dy, dvx, dvy);
    let ap = abs(p);
    let nv = norm_sq(dvx, dvy);
    let d2 = norm_sq(dx, dy);
    assert(d2 - 2 * k * p + k * k * nv >= rsum * rsum) by (nonlinear_arith)
        requires
            nv >= 1,
            d2 >= 0,
            rsum >= 0,
            ap == (if p < 0 { -p } else { p }),
            k >= 2 * ap + rsum,
    ;
}

/// The least number of push-back steps is unique.
pub proof fn lemma_push_back_unique(dx: int, dy: int, dvx: int, dvy: int, rsum: int, k1: int, k2: int)
    requires
        is_push_back_count(dx, dy, dvx, dvy, rsum, k1),
        is_push_back_count(dx, dy, dvx, dvy, rsum, k2),
    ensures
        k1 == k2,
{
    if k1 < k2 {
        assert(gap_sq(dx, dy, dvx, dvy, k1) < rsum * rsum);
    } else if k2 < k1 {
        assert(gap_sq(dx, dy, dvx, dvy, k2) < rsum * rsum);
    }
}

/// Number of steps back along their own velocities (one time unit each) that
/// two overlapping bodies take until they no longer overlap. Their centres
/// differ by `d`, their velocities by `dv`, and `rsum` is the sum of radii.
pub fn push_back_steps(d: Vector2D, dv: Vector2D, rsum: i64) -> (k: i64)
    requires
        d.within(2 * LIMIT),
        dv.within(2 * LIMIT),
        0 <= rsum <= LIMIT,
        norm_sq(d.x as int, d.y as int) < rsum * rsum,
    ensures
        k == push_back_count(d.x as int, d.y as int, dv.x as int, dv.y as int, rsum as int),
        norm_sq(dv.x as int, dv.y as int) > 0 ==> is_push_back_count(
            d.x as int,
            d.y as int,
            dv.x as int,
            dv.y as int,
            rsum as int,
            k as int,
        ),
        0 <= k <= 2 * abs(dot(d.x as int, d.y as int, dv.x as int, dv.y as int)) + rsum,
        k <= 0x1000_0000_1000_0000,
        (Vector2D { x: (d.x - k * dv.x) as i64, y: (d.y - k * dv.y) as i64 }).within(rsum + 2 * LIMIT),
        -(rsum + 2 * LIMIT) <= d.x - k * dv.x <= rsum + 2 * LIMIT,
        -(rsum + 2 * LIMIT) <= d.y - k * dv.y <= rsum + 2 * LIMIT,
{
    let nv = dv.norm_squared();
    if nv == 0 {
        return 0;
    }
    proof {
        lemma_mul_abs_bound(rsum as int, rsum as int, LIMIT as int, LIMIT as int);
    }
    let rr: i128 = (rsum as i128) * (rsum as i128);
    let ghost bound = 2 * abs(dot(d.x as int, d.y as int, dv.x as int, dv.y as int)) + rsum;
    proof {
        lemma_mul_abs_bound(d.x as int, dv.x as int, 2 * LIMIT, 2 * LIMIT);
        lemma_mul_abs_bound(d.y as int, dv.y as int, 2 * LIMIT, 2 * LIMIT);
        let p = dot(d.x as int, d.y as int, dv.x as int, dv.y as int);
        assert(-2 * ((2 * LIMIT) * (2 * LIMIT)) <= p <= 2 * ((2 * LIMIT) * (2 * LIMIT)));
    }
    let mut k: i64 = 0;
    let mut g = d;
    while g.norm_squared() < rr
        invariant
            d.within(2 * LIMIT),
            dv.within(2 * LIMIT),
            0 <= rsum <= LIMIT,
            rr == rsum * rsum,
            nv == norm_sq(dv.x as int, dv.y as int),
            nv > 0,
            bound == 2 * abs(dot(d.x as int, d.y as int, dv.x as int, dv.y as int)) + rsum,
            bound <= 4 * ((2 * LIMIT) * (2 * LIMIT)) + LIMIT,
            0 <= k <= bound,
            g.x == d.x - k * dv.x,
            g.y == d.y - k * dv.y,
            g.within(rsum + 2 * LIMIT),
            forall|j: int|
                0 <= j < k ==> #[trigger] gap_sq(d.x as int, d.y as int, dv.x as int, dv.y as int, j)
                    < rsum * rsum,
        decreases bound - k,
    {
        proof {
            assert(gap_sq(d.x as int, d.y as int, dv.x as int, dv.y as int, k as int) < rsum * rsum);
            if k >= bound {
                lemma_push_back_bound(d.x as int, d.y as int, dv.x as int, dv.y as int, rsum as int, k as int);
            }
            crate::vector::lemma_speed_bounds_components(g.x as int, g.y as int, rsum as int);
            assert((k + 1) * dv.x == k * dv.x + dv.x && (k + 1) * dv.y == k * dv.y + dv.y) by (nonlinear_arith);
            assert((2 * LIMIT) * (2 * LIMIT) == 0x0400_0000_0000_0000) by (nonlinear_arith)
                requires
                    LIMIT == 268_435_456,
            ;
        }
        g = g.subtract(&dv);
        k = k + 1;
    }
    proof {
        assert((2 * LIMIT) * (2 * LIMIT) == 0x0400_0000_0000_0000) by (nonlinear_arith)
            requires
                LIMIT == 268_435_456,
        ;
        assert(is_push_back_count(d.x as int, d.y as int, dv.x as int, dv.y as int, rsum as int, k as int));
        lemma_push_back_unique(
            d.x as int,
            d.y as int,
            dv.x as int,
            dv.y as int,
            rsum as int,
            k as int,
            push_back_count(d.x as int, d.y as int, dv.x as int, dv.y as int, rsum as int),
        );
    }
    k
}

/// Fraction `tn / td` of the tick at which two bodies, whose centres differed
/// by `v` at its start and whose relative motion over it is `u`, were first
/// `rsum` apart: the earlier root of `|v + t u|^2 = rsum^2`, with the square
/// root of the discriminant rounded up. None when there is no relative motion,
/// no real root, or the root lies outside `[0, 1)`.
pub open spec fn contact_fraction(ux: int, uy: int, vx: int, vy: int, rsum: int) -> Option<(int, int)> {
    let uu = norm_sq(ux, uy);
    let uv = dot(ux, uy, vx, vy);
    let disc = uv * uv - uu * (norm_sq(vx, vy) - rsum * rsum);
    if uu == 0 || disc < 0 {
        None
    } else {
        let tn = -uv - ceil_sqrt(disc);
        if 0 <= tn && tn < uu {
            Some((tn, uu))
        } else {
            None
        }
    }
}

/// The point a fraction `tn / td` of the way from `from` to `to`, rounded
/// toward `from`.
pub open spec fn between(from: int, to: int, tn: int, td: int) -> int {
    from + tdiv((to - from) * tn, td)
}

/// Solves for the instant of contact within the tick (see `contact_fraction`).
pub fn contact_time(u: Vector2D, v: Vector2D, rsum: i64) -> (r: Option<(i128, i128)>)
    requires
        u.within(4 * LIMIT),
        v.within(2 * LIMIT),
        0 <= rsum <= LIMIT,
    ensures
        r matches Some((tn, td)) ==> contact_fraction(u.x as int, u.y as int, v.x as int, v.y as int, rsum as int)
            == Some((tn as int, td as int)),
        r is None ==> contact_fraction(u.x as int, u.y as int, v.x as int, v.y as int, rsum as int) is None,
        r matches Some((tn, td)) ==> 0 <= tn < td <= 0x4000_0000_0000_0000,
{
    proof {
        lemma_mul_abs_bound(u.x as int, u.x as int, 4 * LIMIT, 4 * LIMIT);
        lemma_mul_abs_bound(u.y as int, u.y as int, 4 * LIMIT, 4 * LIMIT);
        lemma_mul_abs_bound(u.x as int, v.x as int, 4 * LIMIT, 2 * LIMIT);
        lemma_mul_abs_bound(u.y as int, v.y as int, 4 * LIMIT, 2 * LIMIT);
        lemma_mul_abs_bound(v.x as int, v.x as int, 2 * LIMIT, 2 * LIMIT);
        lemma_mul_abs_bound(v.y as int, v.y as int, 2 * LIMIT, 2 * LIMIT);
        lemma_mul_abs_bound(rsum as int, rsum as int, LIMIT as int, LIMIT as int);
        assert((4 * LIMIT) * (4 * LIMIT) == 0x1000_0000_0000_0000 && (4 * LIMIT) * (2 * LIMIT)
            == 0x0800_0000_0000_0000 && (2 * LIMIT) * (2 * LIMIT) == 0x0400_0000_0000_0000 && LIMIT * LIMIT
            == 0x0100_0000_0000_0000) by (nonlinear_arith)
            requires
                LIMIT == 268_435_456,
        ;
    }
    let uu = u.norm_squared();
    if uu == 0 {
        return None;
    }
    let uv = u.dot(&v);
    let vv = v.norm_squared();
    let rr: i128 = (rsum as i128) * (rsum as i128);
    proof {
        lemma_mul_abs_bound(uv as int, uv as int, 0x1000_0000_0000_0000, 0x1000_0000_0000_0000);
        lemma_mul_abs_bound(uu as int, vv - rr, 0x2000_0000_0000_0000, 0x0800_0000_0000_0000);
    }
    let disc: i128 = uv * uv - uu * (vv - rr);
    if disc < 0 {
        return None;
    }
    let s = ceil_sqrt_u128(disc as u128);
    let tn: i128 = -uv - s as i128;
    if 0 <= tn && tn < uu {
        Some((tn, uu))
    } else {
        None
    }
}

} // verus!
