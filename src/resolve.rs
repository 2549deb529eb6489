use vstd::prelude::*;

use crate::arith::{abs, lemma_mul_abs_bound, lemma_tdiv_le_bound, div_toward_zero, tdiv};
use crate::body::{Body, Config, SeparationPolicy, DT_LIMIT, LIMIT};
use crate::collision::{
    between, contact_fraction, contact_time, elastic_response, push_back_count, push_back_steps, response,
};
use crate::vector::{norm_sq, Vector2D};

verus! {

/// What one pair contact does to one body: a change of velocity and a
/// displacement.
#[derive(Clone, Copy, Debug, PartialEq, Eq, Structural)]
pub struct Change {
    pub dvx: i128,
    pub dvy: i128,
    pub dpx: i128,
    pub dpy: i128,
}

impl Change {
    pub open spec fn ints(self) -> (int, int, int, int) {
        (self.dvx as int, self.dvy as int, self.dpx as int, self.dpy as int)
    }

    /// Velocity change within `2^32` and displacement within `2^90`.
    pub open spec fn bounded(self) -> bool {
        &&& abs(self.dvx as int) <= 0x1_0000_0000
        &&& abs(self.dvy as int) <= 0x1_0000_0000
        &&& abs(self.dpx as int) <= 0x0400_0000_0000_0000_0000_0000
        &&& abs(self.dpy as int) <= 0x0400_0000_0000_0000_0000_0000
    }
}

/// Effect of push-back separation followed by the impulse: both bodies step
/// back `k` times along their own velocities, and their velocities are then
/// those of an elastic collision at the separated positions.
pub open spec fn pushed_apart(a: Body, b: Body) -> ((int, int, int, int), (int, int, int, int)) {
    let dx = a.position.x - b.position.x;
    let dy = a.position.y - b.position.y;
    let dvx = a.velocity.x - b.velocity.x;
    let dvy = a.velocity.y - b.velocity.y;
    let k = push_back_count(dx, dy, dvx, dvy, a.radius + b.radius);
    let r = response(
        a.mass as int,
        b.mass as int,
        dx - k * dvx,
        dy - k * dvy,
        a.velocity.x as int,
        a.velocity.y as int,
        b.velocity.x as int,
        b.velocity.y as int,
    );
    (
        (r.0 - a.velocity.x, r.1 - a.velocity.y, -(k * a.velocity.x), -(k * a.velocity.y)),
        (r.2 - b.velocity.x, r.3 - b.velocity.y, -(k * b.velocity.x), -(k * b.velocity.y)),
    )
}

/// Effect of backtracking to the contact instant `tn / td` of the tick: both
/// bodies go back to where they were then, take the velocities of an elastic
/// collision there, and move on with them for the rest of the tick.
pub open spec fn backtracked(a: Body, b: Body, tn: int, td: int, dt: int) -> (
    (int, int, int, int),
    (int, int, int, int),
) {
    let ax = between(a.previous_position.x as int, a.position.x as int, tn, td);
    let ay = between(a.previous_position.y as int, a.position.y as int, tn, td);
    let bx = between(b.previous_position.x as int, b.position.x as int, tn, td);
    let by = between(b.previous_position.y as int, b.position.y as int, tn, td);
    let r = response(
        a.mass as int,
        b.mass as int,
        ax - bx,
        ay - by,
        a.velocity.x as int,
        a.velocity.y as int,
        b.velocity.x as int,
        b.velocity.y as int,
    );
    let rem = (td - tn) * dt / td;
    (
        (r.0 - a.velocity.x, r.1 - a.velocity.y, ax + r.0 * rem - a.position.x, ay + r.1 * rem - a.position.y),
        (r.2 - b.velocity.x, r.3 - b.velocity.y, bx + r.2 * rem - b.position.x, by + r.3 * rem - b.position.y),
    )
}

/// The contact instant of `a` and `b` within the tick, from where each was at
/// its start (`previous_position`) and is now.
pub open spec fn contact_of(a: Body, b: Body) -> Option<(int, int)> {
    contact_fraction(
        (a.position.x - a.previous_position.x) - (b.position.x - b.previous_position.x),
        (a.position.y - a.previous_position.y) - (b.position.y - b.previous_position.y),
        a.previous_position.x - b.previous_position.x,
        a.previous_position.y - b.previous_position.y,
        a.radius + b.radius,
    )
}

/// The two bodies overlap: their centres are closer than the sum of radii.
pub open spec fn overlapping(a: Body, b: Body) -> bool {
    norm_sq(a.position.x - b.position.x, a.position.y - b.position.y) < (a.radius + b.radius) * (
    a.radius + b.radius)
}

/// What the contact of `a` and `b` does to each of them: nothing unless they
/// overlap; else they are separated by the configured policy (backtracking
/// falls back to push-back when no contact instant exists) and take the
/// velocities of an elastic collision.
pub open spec fn pair_effect(c: Config, dt: int, a: Body, b: Body) -> (
    (int, int, int, int),
    (int, int, int, int),
) {
    if !overlapping(a, b) {
        ((0, 0, 0, 0), (0, 0, 0, 0))
    } else {
        let t = if c.separation == SeparationPolicy::TimeBacktrack {
            contact_of(a, b)
        } else {
            None
        };
        match t {
            Some((tn, td)) => backtracked(a, b, tn, td, dt),
            None => pushed_apart(a, b),
        }
    }
}

proof fn lemma_between_bound(from: int, to: int, tn: int, td: int, m: int)
    requires
        0 <= tn < td,
        abs(to - from) <= m,
    ensures
        abs(tdiv((to - from) * tn, td)) <= m,
        abs(between(from, to, tn, td) - from) <= m,
{
    let a = to - from;
    assert(abs(a * tn) <= m * td) by (nonlinear_arith)
        requires
            abs(a) <= m,
            abs(a) == (if a < 0 { -a } else { a }),
            abs(a * tn) == (if a * tn < 0 { -(a * tn) } else { a * tn }),
            0 <= tn < td,
    ;
    assert(m >= 0);
    lemma_tdiv_le_bound(a * tn, td, m);
}

/// The position of one body `tn / td` of the way through the tick.
fn point_between(from: i64, to: i64, tn: i128, td: i128) -> (r: i64)
    requires
        -LIMIT <= from <= LIMIT,
        -LIMIT <= to <= LIMIT,
        0 <= tn < td <= 0x4000_0000_0000_0000,
    ensures
        r == between(from as int, to as int, tn as int, td as int),
        -3 * LIMIT <= r <= 3 * LIMIT,
{
    proof {
        lemma_between_bound(from as int, to as int, tn as int, td as int, 2 * LIMIT);
        lemma_mul_abs_bound((to - from) as int, tn as int, 2 * LIMIT, 0x4000_0000_0000_0000);
    }
    let q = div_toward_zero(((to as i128) - (from as i128)) * tn, td);
    from + q as i64
}

/// Effect of push-back separation and the impulse on two overlapping bodies.
fn push_apart(a: &Body, b: &Body) -> (r: (Change, Change))
    requires
        0 < a.radius <= LIMIT / 2,
        0 < b.radius <= LIMIT / 2,
        0 < a.mass <= crate::body::MASS_LIMIT,
        0 < b.mass <= crate::body::MASS_LIMIT,
        a.position.within(LIMIT as int),
        b.position.within(LIMIT as int),
        a.velocity.within(LIMIT as int),
        b.velocity.within(LIMIT as int),
        overlapping(*a, *b),
    ensures
        (r.0.ints(), r.1.ints()) == pushed_apart(*a, *b),
        r.0.bounded(),
        r.1.bounded(),
{
    let d = a.position.subtract(&b.position);
    let dv = a.velocity.subtract(&b.velocity);
    let rsum = a.radius + b.radius;
    let k = push_back_steps(d, dv, rsum);
    proof {
        lemma_mul_abs_bound(k as int, dv.x as int, 0x1000_0000_1000_0000, 2 * LIMIT);
        lemma_mul_abs_bound(k as int, dv.y as int, 0x1000_0000_1000_0000, 2 * LIMIT);
        lemma_mul_abs_bound(k as int, a.velocity.x as int, 0x1000_0000_1000_0000, LIMIT as int);
        lemma_mul_abs_bound(k as int, a.velocity.y as int, 0x1000_0000_1000_0000, LIMIT as int);
        lemma_mul_abs_bound(k as int, b.velocity.x as int, 0x1000_0000_1000_0000, LIMIT as int);
        lemma_mul_abs_bound(k as int, b.velocity.y as int, 0x1000_0000_1000_0000, LIMIT as int);
    }
    let sep = Vector2D {
        x: ((d.x as i128) - (k as i128) * (dv.x as i128)) as i64,
        y: ((d.y as i128) - (k as i128) * (dv.y as i128)) as i64,
    };
    let (va, vb) = elastic_response(a.mass, b.mass, sep, a.velocity, b.velocity);
    let kk = k as i128;
    let ca = Change {
        dvx: (va.x - a.velocity.x) as i128,
        dvy: (va.y - a.velocity.y) as i128,
        dpx: -(kk * (a.velocity.x as i128)),
        dpy: -(kk * (a.velocity.y as i128)),
    };
    let cb = Change {
        dvx: (vb.x - b.velocity.x) as i128,
        dvy: (vb.y - b.velocity.y) as i128,
        dpx: -(kk * (b.velocity.x as i128)),
        dpy: -(kk * (b.velocity.y as i128)),
    };
    (ca, cb)
}

/// Effect of backtracking to the contact instant `tn / td` and the impulse.
fn backtrack_apart(a: &Body, b: &Body, tn: i128, td: i128, dt: i64) -> (r: (Change, Change))
    requires
        0 < a.mass <= crate::body::MASS_LIMIT,
        0 < b.mass <= crate::body::MASS_LIMIT,
        a.position.within(LIMIT as int),
        b.position.within(LIMIT as int),
        a.previous_position.within(LIMIT as int),
        b.previous_position.within(LIMIT as int),
        a.velocity.within(LIMIT as int),
        b.velocity.within(LIMIT as int),
        0 <= tn < td <= 0x4000_0000_0000_0000,
        0 <= dt <= DT_LIMIT,
    ensures
        (r.0.ints(), r.1.ints()) == backtracked(*a, *b, tn as int, td as int, dt as int),
        r.0.bounded(),
        r.1.bounded(),
{
    let ax = point_between(a.previous_position.x, a.position.x, tn, td);
    let ay = point_between(a.previous_position.y, a.position.y, tn, td);
    let bx = point_between(b.previous_position.x, b.position.x, tn, td);
    let by = point_between(b.previous_position.y, b.position.y, tn, td);
    let d = Vector2D { x: ax - bx, y: ay - by };
    let (va, vb) = elastic_response(a.mass, b.mass, d, a.velocity, b.velocity);
    proof {
        lemma_mul_abs_bound((td - tn) as int, dt as int, 0x4000_0000_0000_0000, DT_LIMIT as int);
        let w = (td - tn) as int;
        let t = dt as int;
        let e = td as int;
        assert(0 <= w * t / e <= t) by (nonlinear_arith)
            requires
                0 < w <= e,
                0 <= t,
        ;
    }
    let rem: i128 = (td - tn) * (dt as i128) / td;
    proof {
        lemma_mul_abs_bound(va.x as int, rem as int, 9 * LIMIT, DT_LIMIT as int);
        lemma_mul_abs_bound(va.y as int, rem as int, 9 * LIMIT, DT_LIMIT as int);
        lemma_mul_abs_bound(vb.x as int, rem as int, 9 * LIMIT, DT_LIMIT as int);
        lemma_mul_abs_bound(vb.y as int, rem as int, 9 * LIMIT, DT_LIMIT as int);
    }
    let ca = Change {
        dvx: (va.x - a.velocity.x) as i128,
        dvy: (va.y - a.velocity.y) as i128,
        dpx: (ax as i128) + (va.x as i128) * rem - (a.position.x as i128),
        dpy: (ay as i128) + (va.y as i128) * rem - (a.position.y as i128),
    };
    let cb = Change {
        dvx: (vb.x - b.velocity.x) as i128,
        dvy: (vb.y - b.velocity.y) as i128,
        dpx: (bx as i128) + (vb.x as i128) * rem - (b.position.x as i128),
        dpy: (by as i128) + (vb.y as i128) * rem - (b.position.y as i128),
    };
    (ca, cb)
}

/// What the contact of `a` and `b` does to each of them (see `pair_effect`).
pub fn contact_effect(c: &Config, dt: i64, a: &Body, b: &Body) -> (r: (Change, Change))
    requires
        c.valid(),
        a.valid(*c),
        b.valid(*c),
        0 <= dt <= DT_LIMIT,
    ensures
        (r.0.ints(), r.1.ints()) == pair_effect(*c, dt as int, *a, *b),
        r.0.bounded(),
        r.1.bounded(),
{
    let none = Change { dvx: 0, dvy: 0, dpx: 0, dpy: 0 };
    let d = a.position.subtract(&b.position);
    let rsum = a.radius + b.radius;
    proof {
        lemma_mul_abs_bound(rsum as int, rsum as int, LIMIT as int, LIMIT as int);
    }
    if d.norm_squared() >= (rsum as i128) * (rsum as i128) {
        return (none, none);
    }
    if c.separation == SeparationPolicy::TimeBacktrack {
        let u = Vector2D {
            x: (a.position.x - a.previous_position.x) - (b.position.x - b.previous_position.x),
            y: (a.position.y - a.previous_position.y) - (b.position.y - b.previous_position.y),
        };
        let v = a.previous_position.subtract(&b.previous_position);
        match contact_time(u, v, rsum) {
            Some((tn, td)) => {
                return backtrack_apart(a, b, tn, td, dt);
            },
            None => {},
        }
    }
    push_apart(a, b)
}

} // verus!
