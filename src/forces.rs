use vstd::prelude::*;

use crate::arith::{abs, lemma_mul_abs_bound, min};
use crate::body::{Body, Config, LIMIT, MASS_LIMIT, MAX_BODIES};
use crate::vector::{norm_sq, scaled_to, Vector2D};

verus! {

/// The pull of `from` on `on`: along the line from `on` to `from`, of size
/// `G * mass / distance^2` clamped to the configured maximum; nothing when the
/// two centres coincide.
pub open spec fn pull_of(c: Config, on: Body, from: Body) -> (int, int) {
    let dx = from.position.x - on.position.x;
    let dy = from.position.y - on.position.y;
    let d2 = norm_sq(dx, dy);
    if d2 == 0 {
        (0, 0)
    } else {
        let mag = min(c.gravitational_constant * from.mass / d2, c.max_force_magnitude as int);
        scaled_to(dx, dy, mag)
    }
}

/// Sum of the pulls on body `i` of the bodies `0 .. n` other than `i` itself.
pub open spec fn gravity_sum(c: Config, bodies: Seq<Body>, i: int, n: int) -> (int, int)
    decreases n,
{
    if n <= 0 {
        (0, 0)
    } else {
        let prev = gravity_sum(c, bodies, i, n - 1);
        if n - 1 == i {
            prev
        } else {
            let g = pull_of(c, bodies[i], bodies[n - 1]);
            (prev.0 + g.0, prev.1 + g.1)
        }
    }
}

/// Acceleration of body `i`: the sum of all pulls on it when gravity is
/// enabled, zero otherwise.
pub open spec fn acceleration_of(c: Config, bodies: Seq<Body>, i: int) -> (int, int) {
    if c.gravity_enabled {
        gravity_sum(c, bodies, i, bodies.len() as int)
    } else {
        (0, 0)
    }
}

/// All bodies are valid for `c`.
pub open spec fn all_valid(c: Config, bodies: Seq<Body>) -> bool {
    forall|i: int| 0 <= i < bodies.len() ==> (#[trigger] bodies[i]).valid(c)
}

pub fn gravity_pull(c: &Config, on: &Body, from: &Body) -> (r: Vector2D)
    requires
        c.valid(),
        on.valid(*c),
        from.valid(*c),
    ensures
        (r.x as int, r.y as int) == pull_of(*c, *on, *from),
        abs(r.x as int) <= c.max_force_magnitude,
        abs(r.y as int) <= c.max_force_magnitude,
{
    let d = from.position.subtract(&on.position);
    let d2 = d.norm_squared();
    if d2 == 0 {
        return Vector2D::zero();
    }
    proof {
        lemma_mul_abs_bound(c.gravitational_constant as int, from.mass as int, LIMIT as int, MASS_LIMIT as int);
    }
    let pull: i128 = (c.gravitational_constant as i128) * (from.mass as i128) / d2;
    let mag: i128 = if pull < c.max_force_magnitude as i128 {
        pull
    } else {
        c.max_force_magnitude as i128
    };
    proof {
        assert(mag >= 0) by (nonlinear_arith)
            requires
                pull == (c.gravitational_constant as int * from.mass as int) / (d2 as int),
                c.gravitational_constant >= 0,
                from.mass > 0,
                d2 > 0,
                mag == pull || mag == c.max_force_magnitude,
                c.max_force_magnitude >= 0,
        ;
    }
    let g = d.normalize(mag as i64);
    proof {
        crate::vector::lemma_speed_bounds_components(g.x as int, g.y as int, mag as int);
    }
    g
}

/// The acceleration of every body, indexed as `bodies` is.
pub fn compute_accelerations(c: &Config, bodies: &Vec<Body>) -> (r: Vec<Vector2D>)
    requires
        c.valid(),
        all_valid(*c, bodies@),
        bodies.len() <= MAX_BODIES,
    ensures
        r.len() == bodies.len(),
        forall|i: int|
            0 <= i < bodies.len() ==> (r[i].x as int, r[i].y as int) == #[trigger] acceleration_of(
                *c,
                bodies@,
                i,
            ),
        forall|i: int|
            0 <= i < bodies.len() ==> r[i].within(MAX_BODIES * c.max_force_magnitude),
{
    let n = bodies.len();
    let mut r: Vec<Vector2D> = Vec::new();
    for i in 0..n
        invariant
            n == bodies.len(),
            c.valid(),
            all_valid(*c, bodies@),
            n <= MAX_BODIES,
            r.len() == i,
            forall|k: int|
                0 <= k < i ==> (r[k].x as int, r[k].y as int) == #[trigger] acceleration_of(
                    *c,
                    bodies@,
                    k,
                ),
            forall|k: int| 0 <= k < i ==> r[k].within(MAX_BODIES * c.max_force_magnitude),
    {
        let mut ax: i64 = 0;
        let mut ay: i64 = 0;
        if c.gravity_enabled {
            for j in 0..n
                invariant
                    n == bodies.len(),
                    c.valid(),
                    all_valid(*c, bodies@),
                    n <= MAX_BODIES,
                    0 <= i < n,
                    c.gravity_enabled,
                    (ax as int, ay as int) == gravity_sum(*c, bodies@, i as int, j as int),
                    abs(ax as int) <= j * c.max_force_magnitude,
                    abs(ay as int) <= j * c.max_force_magnitude,
            {
                proof {
                    assert(j * c.max_force_magnitude <= MAX_BODIES * LIMIT) by (nonlinear_arith)
                        requires
                            j < MAX_BODIES,
                            0 <= c.max_force_magnitude <= LIMIT,
                    ;
                    assert((j + 1) * c.max_force_magnitude == j * c.max_force_magnitude + c.max_force_magnitude) by (nonlinear_arith);
                    assert(0 <= j * c.max_force_magnitude) by (nonlinear_arith)
                        requires
                            j >= 0,
                            c.max_force_magnitude >= 0,
                    ;
                }
                if j != i {
                    let g = gravity_pull(c, &bodies[i], &bodies[j]);
                    ax = ax + g.x;
                    ay = ay + g.y;
                }
            }
        }
        proof {
            assert(n * c.max_force_magnitude <= MAX_BODIES * c.max_force_magnitude) by (nonlinear_arith)
                requires
                    n <= MAX_BODIES,
                    c.max_force_magnitude >= 0,
            ;
        }
        r.push(Vector2D { x: ax, y: ay });
    }
    r
}

} // verus!
