use vstd::prelude::*;

use crate::arith::{abs, lemma_mul_abs_bound};
use crate::body::{Body, Config, DT_LIMIT, LIMIT, MAX_BODIES};
use crate::vector::{lemma_norm_sq_nonneg, lemma_speed_bounds_components, norm_sq, scaled_to, Vector2D};

verus! {

/// `(wx, wy)` rescaled to length `cap` (rounding each component toward zero)
/// when it is longer than `cap`, else unchanged.
pub open spec fn capped(wx: int, wy: int, cap: int) -> (int, int) {
    if norm_sq(wx, wy) > cap * cap {
        scaled_to(wx, wy, cap)
    } else {
        (wx, wy)
    }
}

/// The speed of `v` is at most `cap`.
pub open spec fn speed_within(v: Vector2D, cap: int) -> bool {
    norm_sq(v.x as int, v.y as int) <= cap * cap
}

/// One axis of the boundary test: past the far wall (`p + r > lim`) the body
/// is put back against it and its velocity negated; then likewise past the
/// near wall (`p - r < 0`). Returns the new position and velocity.
pub open spec fn bounce(p: int, v: int, r: int, lim: int) -> (int, int) {
    let (pos, vel) = if p + r > lim {
        (lim - r, -v)
    } else {
        (p, v)
    };
    if pos - r < 0 {
        (r, -vel)
    } else {
        (pos, vel)
    }
}

/// `b` with its position and velocity corrected against the walls of the
/// world, the y axis (bottom, then top) before the x axis (right, then left).
pub open spec fn clamped(b: Body, c: Config) -> Body {
    let (py, vy) = bounce(b.position.y as int, b.velocity.y as int, b.radius as int, c.height as int);
    let (px, vx) = bounce(b.position.x as int, b.velocity.x as int, b.radius as int, c.width as int);
    Body {
        position: Vector2D { x: px as i64, y: py as i64 },
        velocity: Vector2D { x: vx as i64, y: vy as i64 },
        ..b
    }
}

/// `b` advanced by `dt` under acceleration `a` (semi-implicit Euler): the
/// velocity gains `a * dt` and is capped at `cap`, the start position is
/// recorded, and the position moves by the new velocity times `dt`.
pub open spec fn integrated(b: Body, a: Vector2D, dt: int, cap: int) -> Body {
    let v = capped(b.velocity.x + a.x * dt, b.velocity.y + a.y * dt, cap);
    Body {
        acceleration: a,
        velocity: Vector2D { x: v.0 as i64, y: v.1 as i64 },
        previous_position: b.position,
        position: Vector2D { x: (b.position.x + v.0 * dt) as i64, y: (b.position.y + v.1 * dt) as i64 },
        ..b
    }
}

/// Rescales `w` to length `cap` when it is longer.
pub fn cap_speed(w: Vector2D, cap: i64) -> (r: Vector2D)
    requires
        w.within(0x1000_0000_0000_0000),
        0 <= cap <= LIMIT,
    ensures
        (r.x as int, r.y as int) == capped(w.x as int, w.y as int, cap as int),
        speed_within(r, cap as int),
        r.within(cap as int),
{
    let n = w.norm_squared();
    proof {
        lemma_mul_abs_bound(cap as int, cap as int, LIMIT as int, LIMIT as int);
    }
    if n <= (cap as i128) * (cap as i128) {
        proof {
            lemma_speed_bounds_components(w.x as int, w.y as int, cap as int);
        }
        return w;
    }
    proof {
        lemma_norm_sq_nonneg(w.x as int, w.y as int);
        assert(cap * cap >= 0) by (nonlinear_arith);
    }
    w.normalize(cap)
}

/// One axis of the boundary test (see `bounce`), on a position that may lie
/// far outside the world.
pub fn bounce_axis(p: i128, v: i64, r: i64, lim: i64) -> (out: (i64, i64))
    requires
        0 < r,
        2 * r <= lim <= LIMIT,
        v > i64::MIN,
        -0x0100_0000_0000_0000_0000_0000_0000_0000 <= p <= 0x0100_0000_0000_0000_0000_0000_0000_0000,
    ensures
        (out.0 as int, out.1 as int) == bounce(p as int, v as int, r as int, lim as int),
        r <= out.0 <= lim - r,
        abs(out.1 as int) == abs(v as int),
{
    let mut pos: i128 = p;
    let mut vel: i64 = v;
    if pos + (r as i128) > lim as i128 {
        pos = (lim - r) as i128;
        vel = -vel;
    }
    if pos - (r as i128) < 0 {
        pos = r as i128;
        vel = -vel;
    }
    (pos as i64, vel)
}

/// Corrects the position and velocity of `b` against the walls of the world.
pub fn clamp_to_bounds(b: &Body, c: &Config) -> (r: Body)
    requires
        c.valid(),
        0 < b.radius,
        2 * b.radius <= c.width,
        2 * b.radius <= c.height,
        b.velocity.x > i64::MIN,
        b.velocity.y > i64::MIN,
    ensures
        r == clamped(*b, *c),
        r.inside(*c),
        abs(r.velocity.x as int) == abs(b.velocity.x as int),
        abs(r.velocity.y as int) == abs(b.velocity.y as int),
{
    let (py, vy) = bounce_axis(b.position.y as i128, b.velocity.y, b.radius, c.height);
    let (px, vx) = bounce_axis(b.position.x as i128, b.velocity.x, b.radius, c.width);
    Body { position: Vector2D { x: px, y: py }, velocity: Vector2D { x: vx, y: vy }, ..*b }
}

/// Advances `b` by `dt` under acceleration `a`, capping its speed at `cap`.
pub fn integrate(b: &Body, a: Vector2D, dt: i64, cap: i64) -> (r: Body)
    requires
        b.position.within(LIMIT as int),
        b.velocity.within(LIMIT as int),
        a.within(MAX_BODIES * LIMIT),
        0 <= dt <= DT_LIMIT,
        0 <= cap <= LIMIT,
    ensures
        r == integrated(*b, a, dt as int, cap as int),
        speed_within(r.velocity, cap as int),
        r.velocity.within(cap as int),
        r.position.within(LIMIT + LIMIT * DT_LIMIT),
{
    proof {
        lemma_mul_abs_bound(a.x as int, dt as int, MAX_BODIES * LIMIT, DT_LIMIT as int);
        lemma_mul_abs_bound(a.y as int, dt as int, MAX_BODIES * LIMIT, DT_LIMIT as int);
    }
    let w = Vector2D { x: b.velocity.x + a.x * dt, y: b.velocity.y + a.y * dt };
    let v = cap_speed(w, cap);
    proof {
        lemma_mul_abs_bound(v.x as int, dt as int, LIMIT as int, DT_LIMIT as int);
        lemma_mul_abs_bound(v.y as int, dt as int, LIMIT as int, DT_LIMIT as int);
    }
    Body {
        acceleration: a,
        velocity: v,
        previous_position: b.position,
        position: Vector2D { x: b.position.x + v.x * dt, y: b.position.y + v.y * dt },
        ..*b
    }
}

} // verus!
