use vstd::prelude::*;

use crate::arith::{abs, ceil_sqrt, is_ceil_sqrt, lemma_ceil_sqrt_is, lemma_tdiv_bounds, tdiv};
use crate::body::{Body, Config};
use crate::collision::{
    gap_sq, is_push_back_count, lemma_push_back_bound, lemma_push_back_unique, push_back_count, response,
};
use crate::motion::{bounce, capped, speed_within};
use crate::vector::lemma_rescaled_within;
use crate::order::{lemma_sorted_keeps, lemma_sorted_single};
use crate::pass::{pass_changes, resolved, settle};
use crate::resolve::pair_effect;
use crate::simulation::{advanced, step};
use crate::vector::{dot, lemma_norm_sq_nonneg, norm_sq, Vector2D};

verus! {

/// The bodies `s` after `n` ticks of length `dt`.
pub open spec fn run(c: Config, s: Seq<Body>, dt: int, n: nat) -> Seq<Body>
    decreases n,
{
    if n == 0 {
        s
    } else {
        step(c, run(c, s, dt, (n - 1) as nat), dt)
    }
}

/// Every natural number has a ceiling square root.
pub proof fn lemma_ceil_sqrt_exists(n: int)
    requires
        n >= 0,
    ensures
        is_ceil_sqrt(n, ceil_sqrt(n)),
    decreases n,
{
    if n == 0 {
        assert(is_ceil_sqrt(0, 0));
        lemma_ceil_sqrt_is(0, 0);
    } else {
        lemma_ceil_sqrt_exists(n - 1);
        let s = ceil_sqrt(n - 1);
        if n <= s * s {
            assert(is_ceil_sqrt(n, s));
            lemma_ceil_sqrt_is(n, s);
        } else {
            assert((s + 1) * (s + 1) == s * s + 2 * s + 1) by (nonlinear_arith);
            assert(s * s >= 0) by (nonlinear_arith);
            assert(is_ceil_sqrt(n, s + 1));
            lemma_ceil_sqrt_is(n, s + 1);
        }
    }
}

/// Capping leaves a vector no longer than the cap.
pub proof fn lemma_capped_within(wx: int, wy: int, cap: int)
    requires
        cap >= 0,
    ensures
        norm_sq(capped(wx, wy, cap).0, capped(wx, wy, cap).1) <= cap * cap,
{
    if norm_sq(wx, wy) > cap * cap {
        lemma_norm_sq_nonneg(wx, wy);
        lemma_ceil_sqrt_exists(norm_sq(wx, wy));
        let s = ceil_sqrt(norm_sq(wx, wy));
        assert(cap * cap >= 0) by (nonlinear_arith);
        assert(s > 0) by (nonlinear_arith)
            requires
                s >= 0,
                norm_sq(wx, wy) <= s * s,
                norm_sq(wx, wy) > cap * cap,
                cap * cap >= 0,
        ;
        lemma_rescaled_within(wx, wy, cap, s);
    }
}

/// Settling a body leaves it inside the world and no faster than the cap.
pub proof fn lemma_settle_contained(c: Config, b: Body, d: (int, int, int, int))
    requires
        c.valid(),
        0 < b.radius,
        2 * b.radius <= c.width,
        2 * b.radius <= c.height,
    ensures
        settle(c, b, d).inside(c),
        speed_within(settle(c, b, d).velocity, c.max_speed as int),
        settle(c, b, d).radius == b.radius,
        settle(c, b, d).mass == b.mass,
{
    let v = capped(b.velocity.x + d.0, b.velocity.y + d.1, c.max_speed as int);
    lemma_capped_within(b.velocity.x + d.0, b.velocity.y + d.1, c.max_speed as int);
    crate::vector::lemma_speed_bounds_components(v.0, v.1, c.max_speed as int);
    let (py, vy) = bounce(b.position.y + d.3, v.1, b.radius as int, c.height as int);
    let (px, vx) = bounce(b.position.x + d.2, v.0, b.radius as int, c.width as int);
    assert(vx * vx == v.0 * v.0) by (nonlinear_arith)
        requires
            vx == v.0 || vx == -v.0,
    ;
    assert(vy * vy == v.1 * v.1) by (nonlinear_arith)
        requires
            vy == v.1 || vy == -v.1,
    ;
}

/// A body of this radius fits between the walls of the world.
pub open spec fn fits_world(c: Config, b: Body) -> bool {
    0 < b.radius && 2 * b.radius <= c.width && 2 * b.radius <= c.height
}

/// After a tick every body lies inside the world and moves no faster than the
/// cap, whatever the bodies were before.
pub proof fn lemma_step_contained(c: Config, s: Seq<Body>, dt: int)
    requires
        c.valid(),
        forall|k: int| 0 <= k < s.len() ==> fits_world(c, #[trigger] s[k]),
    ensures
        step(c, s, dt).len() == s.len(),
        forall|k: int|
            0 <= k < s.len() ==> (#[trigger] step(c, s, dt)[k]).inside(c) && speed_within(
                step(c, s, dt)[k].velocity,
                c.max_speed as int,
            ) && fits_world(c, step(c, s, dt)[k]),
{
    let a = advanced(c, s, dt);
    let total = pass_changes(c, dt, a, a.len() as int);
    let res = resolved(c, dt, a);
    assert forall|k: int| 0 <= k < res.len() implies (#[trigger] res[k]).inside(c) && speed_within(
        res[k].velocity,
        c.max_speed as int,
    ) && fits_world(c, res[k]) by {
        assert(a[k].radius == s[k].radius);
        lemma_settle_contained(c, a[k], total[k]);
    }
    let p = |b: Body| b.inside(c) && speed_within(b.velocity, c.max_speed as int) && fits_world(c, b);
    lemma_sorted_keeps(res, p);
}

/// Boundary containment and the speed cap hold after any positive number of
/// ticks: every body lies within `[radius, width - radius] x [radius, height -
/// radius]` and its speed is at most `max_speed`.
pub proof fn lemma_contained_after_ticks(c: Config, s: Seq<Body>, dt: int, n: nat)
    requires
        c.valid(),
        n >= 1,
        forall|k: int| 0 <= k < s.len() ==> fits_world(c, #[trigger] s[k]),
    ensures
        run(c, s, dt, n).len() == s.len(),
        forall|k: int|
            0 <= k < s.len() ==> (#[trigger] run(c, s, dt, n)[k]).inside(c) && speed_within(
                run(c, s, dt, n)[k].velocity,
                c.max_speed as int,
            ) && fits_world(c, run(c, s, dt, n)[k]),
    decreases n,
{
    let prev = run(c, s, dt, (n - 1) as nat);
    assert(run(c, s, dt, n) == step(c, prev, dt));
    if n == 1 {
        assert(prev == s);
        lemma_step_contained(c, s, dt);
    } else {
        lemma_contained_after_ticks(c, s, dt, (n - 1) as nat);
        lemma_step_contained(c, prev, dt);
    }
}

proof fn lemma_rounded_pair(m1: int, m2: int, a1: int, a2: int, q: int)
    requires
        m1 > 0,
        m2 > 0,
        q > 0,
        m2 * a1 == m1 * a2,
    ensures
        abs(m2 * tdiv(a1, q) - m1 * tdiv(a2, q)) < m1 + m2,
{
    let t1 = tdiv(a1, q);
    let t2 = tdiv(a2, q);
    lemma_tdiv_bounds(a1, q);
    lemma_tdiv_bounds(a2, q);
    let r1 = a1 - t1 * q;
    let r2 = a2 - t2 * q;
    let diff = m2 * t1 - m1 * t2;
    assert(diff * q == m2 * (t1 * q) - m1 * (t2 * q)) by (nonlinear_arith)
        requires
            diff == m2 * t1 - m1 * t2,
    ;
    assert(m2 * (t1 * q) == m2 * a1 - m2 * r1) by (nonlinear_arith)
        requires
            r1 == a1 - t1 * q,
    ;
    assert(m1 * (t2 * q) == m1 * a2 - m1 * r2) by (nonlinear_arith)
        requires
            r2 == a2 - t2 * q,
    ;
    assert(abs(diff) < m1 + m2) by (nonlinear_arith)
        requires
            diff * q == m1 * r2 - m2 * r1,
            -q < r1 < q,
            -q < r2 < q,
            m1 > 0,
            m2 > 0,
            q > 0,
            abs(diff) == (if diff < 0 { -diff } else { diff }),
    ;
}

/// Momentum is conserved by the elastic impulse up to rounding: along each
/// axis, `m1 v1' + m2 v2'` differs from `m1 v1 + m2 v2` by less than
/// `m1 + m2`, one velocity unit per body.
pub proof fn lemma_momentum_conserved(
    m1: int,
    m2: int,
    dx: int,
    dy: int,
    v1x: int,
    v1y: int,
    v2x: int,
    v2y: int,
)
    requires
        m1 > 0,
        m2 > 0,
    ensures
        ({
            let r = response(m1, m2, dx, dy, v1x, v1y, v2x, v2y);
            &&& abs(m1 * r.0 + m2 * r.2 - (m1 * v1x + m2 * v2x)) < m1 + m2
            &&& abs(m1 * r.1 + m2 * r.3 - (m1 * v1y + m2 * v2y)) < m1 + m2
        }),
{
    let r = response(m1, m2, dx, dy, v1x, v1y, v2x, v2y);
    let d2 = norm_sq(dx, dy);
    if d2 != 0 {
        lemma_norm_sq_nonneg(dx, dy);
        let p = dot(v1x - v2x, v1y - v2y, dx, dy);
        let q = (m1 + m2) * d2;
        assert(q > 0) by (nonlinear_arith)
            requires
                m1 + m2 > 0,
                d2 > 0,
                q == (m1 + m2) * d2,
        ;
        assert(m2 * (2 * m1 * p * dx) == m1 * (2 * m2 * p * dx)) by (nonlinear_arith);
        assert(m2 * (2 * m1 * p * dy) == m1 * (2 * m2 * p * dy)) by (nonlinear_arith);
        lemma_rounded_pair(m1, m2, 2 * m1 * p * dx, 2 * m2 * p * dx, q);
        lemma_rounded_pair(m1, m2, 2 * m1 * p * dy, 2 * m2 * p * dy, q);
        let t1 = tdiv(2 * m1 * p * dx, q);
        let t2 = tdiv(2 * m2 * p * dx, q);
        assert(m1 * r.0 + m2 * r.2 - (m1 * v1x + m2 * v2x) == m2 * t1 - m1 * t2) by (nonlinear_arith)
            requires
                r.0 == v1x - t2,
                r.2 == v2x + t1,
        ;
        let u1 = tdiv(2 * m1 * p * dy, q);
        let u2 = tdiv(2 * m2 * p * dy, q);
        assert(m1 * r.1 + m2 * r.3 - (m1 * v1y + m2 * v2y) == m2 * u1 - m1 * u2) by (nonlinear_arith)
            requires
                r.1 == v1y - u2,
                r.3 == v2y + u1,
        ;
    }
}

/// The elastic response before rounding, scaled by `q = (m1 + m2) |d|^2`:
/// `q v1 - 2 m2 p d` and `q v2 + 2 m1 p d`, where `p = (v1 - v2) . d`.
pub open spec fn scaled_response(
    m1: int,
    m2: int,
    dx: int,
    dy: int,
    v1x: int,
    v1y: int,
    v2x: int,
    v2y: int,
) -> (int, int, int, int) {
    let p = dot(v1x - v2x, v1y - v2y, dx, dy);
    let q = (m1 + m2) * norm_sq(dx, dy);
    (q * v1x - 2 * m2 * p * dx, q * v1y - 2 * m2 * p * dy, q * v2x + 2 * m1 * p * dx, q * v2y + 2 * m1 * p * dy)
}

proof fn lemma_weighted_square_minus(m: int, n: int, x: int, z: int)
    ensures
        m * ((x - n * z) * (x - n * z)) == m * (x * x) - 2 * ((m * n) * (z * x)) + ((m * n) * n) * (z * z),
{
    let b = n * z;
    assert((x - b) * (x - b) == x * x - 2 * (x * b) + b * b) by (nonlinear_arith);
    let p = x * x;
    let q = x * b;
    let r = b * b;
    assert(m * (p - 2 * q + r) == m * p - 2 * (m * q) + m * r) by (nonlinear_arith);
    assert(m * (x * b) == (m * n) * (z * x)) by (nonlinear_arith)
        requires
            b == n * z,
    ;
    assert(m * (b * b) == ((m * n) * n) * (z * z)) by (nonlinear_arith)
        requires
            b == n * z,
    ;
}

proof fn lemma_weighted_square_plus(m: int, n: int, x: int, z: int)
    ensures
        m * ((x + n * z) * (x + n * z)) == m * (x * x) + 2 * ((m * n) * (z * x)) + ((m * n) * n) * (z * z),
{
    let b = n * z;
    assert((x + b) * (x + b) == x * x + 2 * (x * b) + b * b) by (nonlinear_arith);
    let p = x * x;
    let q = x * b;
    let r = b * b;
    assert(m * (p + 2 * q + r) == m * p + 2 * (m * q) + m * r) by (nonlinear_arith);
    assert(m * (x * b) == (m * n) * (z * x)) by (nonlinear_arith)
        requires
            b == n * z,
    ;
    assert(m * (b * b) == ((m * n) * n) * (z * z)) by (nonlinear_arith)
        requires
            b == n * z,
    ;
}

proof fn lemma_scaled_square(m: int, q: int, v: int)
    ensures
        m * ((q * v) * (q * v)) == (q * q) * (m * (v * v)),
{
    assert(m * ((q * v) * (q * v)) == (q * q) * (m * (v * v))) by (nonlinear_arith);
}

proof fn lemma_cross_axis(k: int, c: int, q: int, a: int, b: int)
    ensures
        (k * c) * (q * a) - (k * c) * (q * b) == (q * k) * (c * (a - b)),
{
    assert((k * c) * (q * a) - (k * c) * (q * b) == (q * k) * (c * (a - b))) by (nonlinear_arith);
}

/// The elastic impulse conserves kinetic energy and momentum exactly before
/// rounding, and the engine's velocities are that response rounded: for
/// `q = (m1 + m2) |d|^2` and `W = scaled_response(..)`,
/// `m1 |W1|^2 + m2 |W2|^2 = q^2 (m1 |v1|^2 + m2 |v2|^2)`,
/// `m1 W1 + m2 W2 = q (m1 v1 + m2 v2)`, and each component of `q v1'`
/// (likewise `q v2'`) lies within `q` of the matching component of `W`.
#[verifier::rlimit(100)]
pub proof fn lemma_energy_conserved(
    m1: int,
    m2: int,
    dx: int,
    dy: int,
    v1x: int,
    v1y: int,
    v2x: int,
    v2y: int,
)
    requires
        m1 > 0,
        m2 > 0,
        norm_sq(dx, dy) > 0,
    ensures
        ({
            let q = (m1 + m2) * norm_sq(dx, dy);
            let w = scaled_response(m1, m2, dx, dy, v1x, v1y, v2x, v2y);
            let r = response(m1, m2, dx, dy, v1x, v1y, v2x, v2y);
            &&& m1 * norm_sq(w.0, w.1) + m2 * norm_sq(w.2, w.3) == q * q * (m1 * norm_sq(v1x, v1y) + m2
                * norm_sq(v2x, v2y))
            &&& m1 * w.0 + m2 * w.2 == q * (m1 * v1x + m2 * v2x)
            &&& m1 * w.1 + m2 * w.3 == q * (m1 * v1y + m2 * v2y)
            &&& abs(q * r.0 - w.0) < q
            &&& abs(q * r.1 - w.1) < q
            &&& abs(q * r.2 - w.2) < q
            &&& abs(q * r.3 - w.3) < q
        }),
{
    let d2 = norm_sq(dx, dy);
    let q = (m1 + m2) * d2;
    let p = dot(v1x - v2x, v1y - v2y, dx, dy);
    let k = 2 * p;
    let w = scaled_response(m1, m2, dx, dy, v1x, v1y, v2x, v2y);
    let r = response(m1, m2, dx, dy, v1x, v1y, v2x, v2y);
    assert(q > 0) by (nonlinear_arith)
        requires
            m1 + m2 > 0,
            d2 > 0,
            q == (m1 + m2) * d2,
    ;
    // Energy, axis by axis.
    assert(2 * m2 * p * dx == m2 * k * dx && 2 * m2 * p * dy == m2 * k * dy && 2 * m1 * p * dx == m1 * k * dx
        && 2 * m1 * p * dy == m1 * k * dy) by (nonlinear_arith)
        requires
            k == 2 * p,
    ;
    let zx = k * dx;
    let zy = k * dy;
    let x1 = q * v1x;
    let x2 = q * v2x;
    let y1 = q * v1y;
    let y2 = q * v2y;
    assert(w.0 == x1 - m2 * zx && w.2 == x2 + m1 * zx && w.1 == y1 - m2 * zy && w.3 == y2 + m1 * zy) by (
    nonlinear_arith)
        requires
            2 * m2 * p * dx == m2 * k * dx,
            2 * m2 * p * dy == m2 * k * dy,
            2 * m1 * p * dx == m1 * k * dx,
            2 * m1 * p * dy == m1 * k * dy,
            zx == k * dx,
            zy == k * dy,
            w == scaled_response(m1, m2, dx, dy, v1x, v1y, v2x, v2y),
            x1 == q * v1x,
            x2 == q * v2x,
            y1 == q * v1y,
            y2 == q * v2y,
            p == dot(v1x - v2x, v1y - v2y, dx, dy),
            q == (m1 + m2) * norm_sq(dx, dy),
    ;
    let mm = m1 * m2;
    lemma_weighted_square_minus(m1, m2, x1, zx);
    lemma_weighted_square_plus(m2, m1, x2, zx);
    lemma_weighted_square_minus(m1, m2, y1, zy);
    lemma_weighted_square_plus(m2, m1, y2, zy);
    assert(m2 * m1 == mm && (m2 * m1) * m1 == mm * m1 && (m1 * m2) * m2 == mm * m2) by (nonlinear_arith)
        requires
            mm == m1 * m2,
    ;
    lemma_scaled_square(m1, q, v1x);
    lemma_scaled_square(m2, q, v2x);
    lemma_scaled_square(m1, q, v1y);
    lemma_scaled_square(m2, q, v2y);
    lemma_cross_axis(k, dx, q, v1x, v2x);
    lemma_cross_axis(k, dy, q, v1y, v2y);
    let cx = zx * x1;
    let cx2 = zx * x2;
    let cy = zy * y1;
    let cy2 = zy * y2;
    // Cross terms: mm (cx - cx2 + cy - cy2) = mm q k p.
    assert(cx - cx2 + cy - cy2 == (q * k) * p) by (nonlinear_arith)
        requires
            cx - cx2 == (q * k) * (dx * (v1x - v2x)),
            cy - cy2 == (q * k) * (dy * (v1y - v2y)),
            p == dx * (v1x - v2x) + dy * (v1y - v2y),
    ;
    assert(mm * cx - mm * cx2 + mm * cy - mm * cy2 == mm * ((q * k) * p)) by (nonlinear_arith)
        requires
            cx - cx2 + cy - cy2 == (q * k) * p,
    ;
    // Square terms: (m1 + m2) mm k^2 |d|^2 = mm q k^2 = 2 mm q k p.
    let sx = zx * zx;
    let sy = zy * zy;
    assert(sx + sy == (k * k) * d2) by (nonlinear_arith)
        requires
            sx == zx * zx,
            sy == zy * zy,
            zx == k * dx,
            zy == k * dy,
            d2 == dx * dx + dy * dy,
    ;
    assert((mm * m2) * sx + (mm * m1) * sx + (mm * m2) * sy + (mm * m1) * sy == mm * ((m1 + m2) * (sx + sy)))
        by (nonlinear_arith);
    assert(mm * ((m1 + m2) * ((k * k) * d2)) == 2 * (mm * ((q * k) * p))) by (nonlinear_arith)
        requires
            q == (m1 + m2) * d2,
            k == 2 * p,
    ;
    let ev = m1 * (v1x * v1x) + m2 * (v2x * v2x) + (m1 * (v1y * v1y) + m2 * (v2y * v2y));
    assert((q * q) * (m1 * (v1x * v1x)) + (q * q) * (m2 * (v2x * v2x)) + (q * q) * (m1 * (v1y * v1y)) + (q
        * q) * (m2 * (v2y * v2y)) == (q * q) * ev) by (nonlinear_arith)
        requires
            ev == m1 * (v1x * v1x) + m2 * (v2x * v2x) + (m1 * (v1y * v1y) + m2 * (v2y * v2y)),
    ;
    assert(m1 * norm_sq(v1x, v1y) + m2 * norm_sq(v2x, v2y) == ev) by (nonlinear_arith)
        requires
            ev == m1 * (v1x * v1x) + m2 * (v2x * v2x) + (m1 * (v1y * v1y) + m2 * (v2y * v2y)),
    ;
    assert(m1 * norm_sq(w.0, w.1) + m2 * norm_sq(w.2, w.3) == m1 * (w.0 * w.0) + m2 * (w.2 * w.2) + (m1 * (
    w.1 * w.1) + m2 * (w.3 * w.3))) by (nonlinear_arith);
    // Momentum.
    assert(m1 * (x1 - m2 * zx) + m2 * (x2 + m1 * zx) == q * (m1 * v1x + m2 * v2x)) by (nonlinear_arith)
        requires
            x1 == q * v1x,
            x2 == q * v2x,
    ;
    assert(m1 * (y1 - m2 * zy) + m2 * (y2 + m1 * zy) == q * (m1 * v1y + m2 * v2y)) by (nonlinear_arith)
        requires
            y1 == q * v1y,
            y2 == q * v2y,
    ;
    // Rounding.
    lemma_round_scaled(q, v1x, 2 * m2 * p * dx, -1);
    lemma_round_scaled(q, v1y, 2 * m2 * p * dy, -1);
    lemma_round_scaled(q, v2x, 2 * m1 * p * dx, 1);
    lemma_round_scaled(q, v2y, 2 * m1 * p * dy, 1);
}

proof fn lemma_round_scaled(q: int, v: int, a: int, sign: int)
    requires
        q > 0,
        sign == 1 || sign == -1,
    ensures
        abs(q * (v + sign * tdiv(a, q)) - (q * v + sign * a)) < q,
{
    lemma_tdiv_bounds(a, q);
    let t = tdiv(a, q);
    if sign == 1 {
        assert(q * (v + sign * t) - (q * v + sign * a) == -(a - t * q)) by (nonlinear_arith)
            requires
                sign == 1,
        ;
    } else {
        assert(q * (v + sign * t) - (q * v + sign * a) == a - t * q) by (nonlinear_arith)
            requires
                sign == -1,
        ;
    }
}

proof fn lemma_push_back_search(dx: int, dy: int, dvx: int, dvy: int, rsum: int, j: int)
    requires
        norm_sq(dvx, dvy) > 0,
        rsum >= 0,
        0 <= j <= 2 * abs(dot(dx, dy, dvx, dvy)) + rsum,
        forall|i: int| 0 <= i < j ==> #[trigger] gap_sq(dx, dy, dvx, dvy, i) < rsum * rsum,
    ensures
        exists|k: int|
            is_push_back_count(dx, dy, dvx, dvy, rsum, k) && k <= 2 * abs(dot(dx, dy, dvx, dvy)) + rsum,
    decreases 2 * abs(dot(dx, dy, dvx, dvy)) + rsum - j,
{
    if gap_sq(dx, dy, dvx, dvy, j) >= rsum * rsum {
        assert(is_push_back_count(dx, dy, dvx, dvy, rsum, j));
    } else {
        if j >= 2 * abs(dot(dx, dy, dvx, dvy)) + rsum {
            lemma_push_back_bound(dx, dy, dvx, dvy, rsum, j);
        }
        lemma_push_back_search(dx, dy, dvx, dvy, rsum, j + 1);
    }
}

/// Push-back separation terminates: for two bodies whose velocities differ,
/// there is a least number of steps back after which they no longer overlap,
/// and it is at most `2 |d . dv| + rsum`.
pub proof fn lemma_push_back_terminates(dx: int, dy: int, dvx: int, dvy: int, rsum: int)
    requires
        norm_sq(dvx, dvy) > 0,
        rsum >= 0,
    ensures
        is_push_back_count(dx, dy, dvx, dvy, rsum, push_back_count(dx, dy, dvx, dvy, rsum)),
        push_back_count(dx, dy, dvx, dvy, rsum) <= 2 * abs(dot(dx, dy, dvx, dvy)) + rsum,
{
    lemma_push_back_search(dx, dy, dvx, dvy, rsum, 0);
    let w = choose|k: int|
        is_push_back_count(dx, dy, dvx, dvy, rsum, k) && k <= 2 * abs(dot(dx, dy, dvx, dvy)) + rsum;
    let k = push_back_count(dx, dy, dvx, dvy, rsum);
    lemma_push_back_unique(dx, dy, dvx, dvy, rsum, k, w);
}

/// A contact conserves momentum up to rounding: along each axis the two
/// velocity changes it makes satisfy `|m_a dv_a + m_b dv_b| < m_a + m_b`.
pub proof fn lemma_contact_momentum(c: Config, dt: int, a: Body, b: Body)
    requires
        a.mass > 0,
        b.mass > 0,
    ensures
        ({
            let e = pair_effect(c, dt, a, b);
            &&& abs(a.mass * e.0.0 + b.mass * e.1.0) < a.mass + b.mass
            &&& abs(a.mass * e.0.1 + b.mass * e.1.1) < a.mass + b.mass
        }),
{
    let e = pair_effect(c, dt, a, b);
    let va = a.velocity;
    let vb = b.velocity;
    if crate::resolve::overlapping(a, b) {
        let t = if c.separation == crate::body::SeparationPolicy::TimeBacktrack {
            crate::resolve::contact_of(a, b)
        } else {
            None
        };
        let (ddx, ddy) = match t {
            Some((tn, td)) => (
                crate::collision::between(a.previous_position.x as int, a.position.x as int, tn, td)
                    - crate::collision::between(b.previous_position.x as int, b.position.x as int, tn, td),
                crate::collision::between(a.previous_position.y as int, a.position.y as int, tn, td)
                    - crate::collision::between(b.previous_position.y as int, b.position.y as int, tn, td),
            ),
            None => {
                let dx = a.position.x - b.position.x;
                let dy = a.position.y - b.position.y;
                let k = push_back_count(dx, dy, va.x - vb.x, va.y - vb.y, a.radius + b.radius);
                (dx - k * (va.x - vb.x), dy - k * (va.y - vb.y))
            },
        };
        lemma_momentum_conserved(
            a.mass as int,
            b.mass as int,
            ddx,
            ddy,
            va.x as int,
            va.y as int,
            vb.x as int,
            vb.y as int,
        );
        let r = response(a.mass as int, b.mass as int, ddx, ddy, va.x as int, va.y as int, vb.x as int, vb.y as int);
        assert(e.0.0 == r.0 - va.x && e.1.0 == r.2 - vb.x && e.0.1 == r.1 - va.y && e.1.1 == r.3 - vb.y);
        let ma = a.mass as int;
        let mb = b.mass as int;
        assert(ma * (r.0 - va.x) + mb * (r.2 - vb.x) == ma * r.0 + mb * r.2 - (ma * va.x + mb * vb.x))
            by (nonlinear_arith);
        assert(ma * (r.1 - va.y) + mb * (r.3 - vb.y) == ma * r.1 + mb * r.3 - (ma * va.y + mb * vb.y))
            by (nonlinear_arith);
    }
}

/// Where a body that keeps its velocity would be after `k` ticks of length
/// `dt`.
pub open spec fn drifted(b: Body, dt: int, k: int) -> (int, int) {
    (b.position.x + b.velocity.x * (k * dt), b.position.y + b.velocity.y * (k * dt))
}

/// A body of radius `r` centred at `p` lies inside the world.
pub open spec fn fits(c: Config, r: int, p: (int, int)) -> bool {
    r <= p.0 <= c.width - r && r <= p.1 <= c.height - r
}

/// With gravity disabled, a lone body no faster than the cap moves in a
/// straight line at constant velocity while it stays clear of the walls: after
/// `n` ticks of length `dt` it is at `position + velocity * n * dt`.
pub proof fn lemma_free_flight(c: Config, b: Body, dt: int, n: nat)
    requires
        c.valid(),
        !c.gravity_enabled,
        0 < b.radius,
        speed_within(b.velocity, c.max_speed as int),
        forall|k: int| 1 <= k <= n ==> #[trigger] fits(c, b.radius as int, drifted(b, dt, k)),
    ensures
        run(c, seq![b], dt, n).len() == 1,
        (run(c, seq![b], dt, n)[0].position.x as int, run(c, seq![b], dt, n)[0].position.y as int) == drifted(
            b,
            dt,
            n as int,
        ),
        run(c, seq![b], dt, n)[0].velocity == b.velocity,
        run(c, seq![b], dt, n)[0].radius == b.radius,
    decreases n,
{
    if n == 0 {
        assert(b.velocity.x * (0 * dt) == 0 && b.velocity.y * (0 * dt) == 0) by (nonlinear_arith);
    } else {
        lemma_free_flight(c, b, dt, (n - 1) as nat);
        let prev = run(c, seq![b], dt, (n - 1) as nat);
        let p = prev[0];
        let zero = Vector2D { x: 0, y: 0 };
        assert(crate::forces::acceleration_of(c, prev, 0) == (0int, 0int));
        assert(0 * dt == 0) by (nonlinear_arith);
        assert(p.velocity.x + zero.x * dt == p.velocity.x && p.velocity.y + zero.y * dt == p.velocity.y);
        let moved = crate::motion::integrated(p, zero, dt, c.max_speed as int);
        assert(b.velocity.x * ((n - 1) * dt) + b.velocity.x * dt == b.velocity.x * (n * dt)
            && b.velocity.y * ((n - 1) * dt) + b.velocity.y * dt == b.velocity.y * (n * dt)) by (nonlinear_arith);
        assert(fits(c, b.radius as int, drifted(b, dt, n as int)));
        let adv = advanced(c, prev, dt);
        assert(adv[0] == crate::motion::clamped(moved, c));
        assert(adv[0].position.x == moved.position.x && adv[0].position.y == moved.position.y);
        assert(adv[0].velocity == b.velocity);
        let total = pass_changes(c, dt, adv, 1);
        assert(total == pass_changes(c, dt, adv, 0));
        assert(total[0] == (0int, 0int, 0int, 0int));
        let res = resolved(c, dt, adv);
        assert(res =~= seq![settle(c, adv[0], total[0])]);
        lemma_sorted_single(settle(c, adv[0], total[0]));
    }
}

} // verus!
