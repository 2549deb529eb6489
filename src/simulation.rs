use vstd::prelude::*;

use crate::body::{Body, Config, ConfigError, DT_LIMIT, LIMIT, MASS_LIMIT, MAX_BODIES};
use crate::forces::{acceleration_of, all_valid, compute_accelerations};
use crate::motion::{clamp_to_bounds, clamped, integrate, integrated, speed_within};
use crate::order::{lemma_sorted_keeps, sort_by_x, sorted_by_x};
use crate::pass::{resolve_collisions, resolved};
use crate::vector::Vector2D;

verus! {

/// The bodies `s` after integration and the wall correction of one tick of
/// length `dt`.
pub open spec fn advanced(c: Config, s: Seq<Body>, dt: int) -> Seq<Body> {
    Seq::new(
        s.len(),
        |i: int|
            {
                let a = acceleration_of(c, s, i);
                clamped(
                    integrated(s[i], Vector2D { x: a.0 as i64, y: a.1 as i64 }, dt, c.max_speed as int),
                    c,
                )
            },
    )
}

/// The bodies `s` after one tick of length `dt`: forces, integration, walls,
/// then the collision pass, which hands the bodies back in ascending order of
/// x.
pub open spec fn step(c: Config, s: Seq<Body>, dt: int) -> Seq<Body> {
    sorted_by_x(resolved(c, dt, advanced(c, s, dt)))
}

/// What is wrong with a configuration, if anything.
pub open spec fn config_error(c: Config) -> Option<ConfigError> {
    if c.width <= 0 || c.height <= 0 {
        Some(ConfigError::NonPositiveBounds)
    } else if !c.valid() {
        Some(ConfigError::OutOfRange)
    } else {
        None
    }
}

/// What is wrong with one body in a world of configuration `c`, if anything.
pub open spec fn body_error(c: Config, b: Body) -> Option<ConfigError> {
    if b.mass <= 0 {
        Some(ConfigError::NonPositiveMass)
    } else if b.radius <= 0 {
        Some(ConfigError::NonPositiveRadius)
    } else if 2 * b.radius > c.width || 2 * b.radius > c.height {
        Some(ConfigError::BodyTooLarge)
    } else if !b.valid(c) {
        Some(ConfigError::OutOfRange)
    } else {
        None
    }
}

/// The error of the first body of `s` that has one.
pub open spec fn bodies_error(c: Config, s: Seq<Body>) -> Option<ConfigError>
    decreases s.len(),
{
    if s.len() == 0 {
        None
    } else {
        match bodies_error(c, s.drop_last()) {
            Some(e) => Some(e),
            None => body_error(c, s.last()),
        }
    }
}

/// Why a simulation of `bodies` under `c` cannot be built, if it cannot: the
/// configuration is checked first, then the number of bodies, then each body
/// in order.
pub open spec fn setup_error(c: Config, bodies: Seq<Body>) -> Option<ConfigError> {
    if config_error(c) is Some {
        config_error(c)
    } else if bodies.len() > MAX_BODIES {
        Some(ConfigError::TooManyBodies)
    } else {
        bodies_error(c, bodies)
    }
}

proof fn lemma_bodies_error_none(c: Config, s: Seq<Body>)
    requires
        c.valid(),
    ensures
        bodies_error(c, s) is None <==> all_valid(c, s),
    decreases s.len(),
{
    if s.len() > 0 {
        lemma_bodies_error_none(c, s.drop_last());
        if all_valid(c, s) {
            assert forall|i: int| 0 <= i < s.drop_last().len() implies (#[trigger] s.drop_last()[i]).valid(
                c,
            ) by {
                assert(s.drop_last()[i] == s[i]);
            }
            assert(s.last() == s[s.len() - 1]);
        } else if bodies_error(c, s) is None {
            assert forall|i: int| 0 <= i < s.len() implies (#[trigger] s[i]).valid(c) by {
                if i < s.len() - 1 {
                    assert(s.drop_last()[i] == s[i]);
                }
            }
        }
    }
}

fn check_body(c: &Config, b: &Body) -> (r: Option<ConfigError>)
    requires
        c.valid(),
    ensures
        r == body_error(*c, *b),
{
    if b.mass <= 0 {
        Some(ConfigError::NonPositiveMass)
    } else if b.radius <= 0 {
        Some(ConfigError::NonPositiveRadius)
    } else if b.radius > c.width / 2 || b.radius > c.height / 2 {
        Some(ConfigError::BodyTooLarge)
    } else if b.mass > MASS_LIMIT || !within_limit(&b.position) || !within_limit(&b.previous_position)
        || !within_limit(&b.velocity) {
        Some(ConfigError::OutOfRange)
    } else {
        None
    }
}

fn within_limit(v: &Vector2D) -> (r: bool)
    ensures
        r == v.within(LIMIT as int),
{
    -LIMIT <= v.x && v.x <= LIMIT && -LIMIT <= v.y && v.y <= LIMIT
}

/// A world of circular bodies inside a rectangle, advanced one tick at a time.
pub struct Simulation {
    config: Config,
    bodies: Vec<Body>,
}

impl Simulation {
    pub closed spec fn spec_config(&self) -> Config {
        self.config
    }

    pub closed spec fn spec_bodies(&self) -> Seq<Body> {
        self.bodies@
    }

    /// The configuration is valid, and so is every body under it.
    pub open spec fn wf(&self) -> bool {
        &&& self.spec_config().valid()
        &&& all_valid(self.spec_config(), self.spec_bodies())
        &&& self.spec_bodies().len() <= MAX_BODIES
    }

    /// Builds a simulation of `bodies` under `config`, or says why it cannot.
    pub fn new(config: Config, bodies: Vec<Body>) -> (r: Result<Simulation, ConfigError>)
        ensures
            r matches Ok(s) ==> s.wf() && s.spec_config() == config && s.spec_bodies() == bodies@,
            r is Ok <==> setup_error(config, bodies@) is None,
            r matches Err(e) ==> setup_error(config, bodies@) == Some(e),
    {
        if config.width <= 0 || config.height <= 0 {
            return Err(ConfigError::NonPositiveBounds);
        }
        if config.width > LIMIT || config.height > LIMIT || config.gravitational_constant < 0
            || config.gravitational_constant > LIMIT || config.max_force_magnitude < 0
            || config.max_force_magnitude > LIMIT || config.max_speed < 0 || config.max_speed > LIMIT
            || config.time_factor < 0 {
            return Err(ConfigError::OutOfRange);
        }
        if bodies.len() > MAX_BODIES {
            return Err(ConfigError::TooManyBodies);
        }
        let n = bodies.len();
        for i in 0..n
            invariant
                n == bodies.len(),
                n <= MAX_BODIES,
                config.valid(),
                bodies_error(config, bodies@.take(i as int)) is None,
        {
            proof {
                assert(bodies@.take(i as int + 1).drop_last() =~= bodies@.take(i as int));
                assert(bodies@.take(i as int + 1).last() == bodies@[i as int]);
            }
            match check_body(&config, &bodies[i]) {
                Some(e) => {
                    proof {
                        lemma_bodies_error_prefix(config, bodies@, i as int + 1);
                        lemma_bodies_error_extends(config, bodies@, i as int + 1);
                    }
                    return Err(e);
                },
                None => {},
            }
        }
        proof {
            assert(bodies@.take(n as int) =~= bodies@);
            lemma_bodies_error_none(config, bodies@);
        }
        Ok(Simulation { config, bodies })
    }

    /// Advances every body by `elapsed` times the configured time factor.
    pub fn tick(&mut self, elapsed: i64)
        requires
            old(self).wf(),
            0 <= elapsed,
            elapsed * old(self).spec_config().time_factor <= DT_LIMIT,
        ensures
            final(self).wf(),
            final(self).spec_config() == old(self).spec_config(),
            final(self).spec_bodies() == step(
                old(self).spec_config(),
                old(self).spec_bodies(),
                elapsed * old(self).spec_config().time_factor,
            ),
            forall|i: int|
                0 <= i < final(self).spec_bodies().len() ==> (#[trigger] final(self).spec_bodies()[i]).inside(
                    final(self).spec_config(),
                ),
            forall|i: int|
                0 <= i < final(self).spec_bodies().len() ==> speed_within(
                    (#[trigger] final(self).spec_bodies()[i]).velocity,
                    final(self).spec_config().max_speed as int,
                ),
    {
        let c = self.config;
        proof {
            assert(0 <= elapsed * c.time_factor) by (nonlinear_arith)
                requires
                    0 <= elapsed,
                    0 <= c.time_factor,
            ;
        }
        let dt = elapsed * c.time_factor;
        let acc = compute_accelerations(&c, &self.bodies);
        let n = self.bodies.len();
        proof {
            assert(MAX_BODIES * c.max_force_magnitude <= MAX_BODIES * LIMIT) by (nonlinear_arith)
                requires
                    0 <= c.max_force_magnitude <= LIMIT,
            ;
        }
        let mut moved: Vec<Body> = Vec::new();
        for i in 0..n
            invariant
                n == self.bodies.len(),
                c == self.config,
                c.valid(),
                all_valid(c, self.bodies@),
                n <= MAX_BODIES,
                0 <= dt <= DT_LIMIT,
                acc.len() == n,
                forall|k: int|
                    0 <= k < n ==> (acc[k].x as int, acc[k].y as int) == #[trigger] acceleration_of(
                        c,
                        self.bodies@,
                        k,
                    ),
                forall|k: int| 0 <= k < n ==> acc[k].within(MAX_BODIES * c.max_force_magnitude),
                MAX_BODIES * c.max_force_magnitude <= MAX_BODIES * LIMIT,
                moved.len() == i,
                forall|k: int|
                    0 <= k < i ==> moved[k] == advanced(c, self.bodies@, dt as int)[k],
                all_valid(c, moved@),
        {
            let b = integrate(&self.bodies[i], acc[i], dt, c.max_speed);
            let b2 = clamp_to_bounds(&b, &c);
            proof {
                let a = acceleration_of(c, self.bodies@, i as int);
                assert(acc[i as int] == Vector2D { x: a.0 as i64, y: a.1 as i64 });
            }
            moved.push(b2);
        }
        proof {
            assert(moved@ =~= advanced(c, self.bodies@, dt as int));
        }
        let next = resolve_collisions(&c, dt, &moved);
        proof {
            assert forall|k: int| 0 <= k < next.len() implies (#[trigger] next[k]).valid(c) && next[k].inside(c)
                && speed_within(next[k].velocity, c.max_speed as int) by {
                crate::vector::lemma_speed_bounds_components(
                    next[k].velocity.x as int,
                    next[k].velocity.y as int,
                    c.max_speed as int,
                );
                assert(next[k].radius == moved[k].radius);
                assert(next[k].mass == moved[k].mass);
                assert(next[k].previous_position == moved[k].previous_position);
            }
            let p = |b: Body| b.valid(c) && b.inside(c) && speed_within(b.velocity, c.max_speed as int);
            lemma_sorted_keeps(next@, p);
        }
        let sorted = sort_by_x(&next);
        self.bodies = sorted;
    }

    /// The bodies, in their current order.
    pub fn bodies(&self) -> (r: &Vec<Body>)
        ensures
            r@ == self.spec_bodies(),
    {
        &self.bodies
    }

    pub fn config(&self) -> (r: Config)
        ensures
            r == self.spec_config(),
    {
        self.config
    }
}

/// The first error of a prefix is the first error of the whole.
proof fn lemma_bodies_error_extends(c: Config, s: Seq<Body>, k: int)
    requires
        0 <= k <= s.len(),
        bodies_error(c, s.take(k)) is Some,
    ensures
        bodies_error(c, s) == bodies_error(c, s.take(k)),
    decreases s.len() - k,
{
    if k == s.len() {
        assert(s.take(k) =~= s);
    } else {
        assert(s.drop_last().take(k) =~= s.take(k));
        lemma_bodies_error_extends(c, s.drop_last(), k);
    }
}

proof fn lemma_bodies_error_prefix(c: Config, s: Seq<Body>, i: int)
    requires
        0 < i <= s.len(),
        bodies_error(c, s.take(i - 1)) is None,
        body_error(c, s[i - 1]) is Some,
    ensures
        bodies_error(c, s.take(i)) == body_error(c, s[i - 1]),
{
    assert(s.take(i).drop_last() =~= s.take(i - 1));
    assert(s.take(i).last() == s[i - 1]);
}

} // verus!
