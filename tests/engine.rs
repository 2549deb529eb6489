use ball_physics::arith::{ceil_sqrt_u128, div_toward_zero};
use ball_physics::collision::{contact_time, elastic_response, push_back_steps};
use ball_physics::forces::{compute_accelerations, gravity_pull};
use ball_physics::motion::{bounce_axis, cap_speed, clamp_to_bounds, integrate};
use ball_physics::order::sort_by_x;
use ball_physics::pass::resolve_collisions;
use ball_physics::resolve::contact_effect;
use ball_physics::{Body, Config, ConfigError, SeparationPolicy, Simulation, Vector2D};

fn v(x: i64, y: i64) -> Vector2D {
    Vector2D { x, y }
}

fn body(px: i64, py: i64, vx: i64, vy: i64, radius: i64, mass: i64) -> Body {
    Body {
        position: v(px, py),
        previous_position: v(px, py),
        velocity: v(vx, vy),
        acceleration: v(0, 0),
        radius,
        mass,
        color: 0xff00_00ff,
    }
}

fn config(width: i64, height: i64, separation: SeparationPolicy) -> Config {
    Config {
        width,
        height,
        gravity_enabled: false,
        gravitational_constant: 0,
        max_force_magnitude: 100,
        max_speed: 1000,
        time_factor: 1,
        separation,
    }
}

fn momentum(b: &[Body]) -> (i64, i64) {
    b.iter().fold((0, 0), |(x, y), b| (x + b.mass * b.velocity.x, y + b.mass * b.velocity.y))
}

#[test]
fn vector_arithmetic() {
    let a = v(3, 4);
    let b = v(-2, 7);
    assert_eq!(a.dot(&b), 22);
    assert_eq!(a.norm_squared(), 25);
    assert_eq!(a.norm(), 5);
    assert_eq!(v(1, 1).norm(), 2);
    assert_eq!(a.add(&b), v(1, 11));
    assert_eq!(a.subtract(&b), v(5, -3));
    assert_eq!(b.scale(-3), v(6, -21));
    assert_eq!(Vector2D::zero(), v(0, 0));
}

#[test]
fn ceiling_square_roots() {
    assert_eq!(ceil_sqrt_u128(0), 0);
    assert_eq!(ceil_sqrt_u128(1), 1);
    assert_eq!(ceil_sqrt_u128(2), 2);
    assert_eq!(ceil_sqrt_u128(4), 2);
    assert_eq!(ceil_sqrt_u128(5), 3);
    assert_eq!(ceil_sqrt_u128(2500), 50);
    assert_eq!(ceil_sqrt_u128(1u128 << 126), 1u128 << 63);
}

#[test]
fn division_rounds_toward_zero() {
    assert_eq!(div_toward_zero(7, 2), 3);
    assert_eq!(div_toward_zero(-7, 2), -3);
    assert_eq!(div_toward_zero(-6, 3), -2);
}

#[test]
fn gravity_pull_follows_inverse_square() {
    let mut c = config(1000, 1000, SeparationPolicy::PushBack);
    c.gravity_enabled = true;
    c.gravitational_constant = 1000;
    let on = body(0, 0, 0, 0, 5, 50);
    let from = body(30, 40, 0, 0, 5, 50);
    // 1000 * 50 / 2500 = 20 along (3, 4) / 5.
    assert_eq!(gravity_pull(&c, &on, &from), v(12, 16));
    c.gravitational_constant = 100_000;
    // 2000 is clamped to the maximum of 100.
    assert_eq!(gravity_pull(&c, &on, &from), v(60, 80));
    // Coinciding centres exert nothing.
    assert_eq!(gravity_pull(&c, &on, &on), v(0, 0));
}

#[test]
fn accelerations_sum_pulls_or_vanish() {
    let mut c = config(1000, 1000, SeparationPolicy::PushBack);
    c.gravitational_constant = 1000;
    let bodies = vec![body(100, 100, 0, 0, 5, 50), body(130, 140, 0, 0, 5, 50)];
    assert_eq!(compute_accelerations(&c, &bodies), vec![v(0, 0), v(0, 0)]);
    c.gravity_enabled = true;
    assert_eq!(compute_accelerations(&c, &bodies), vec![v(12, 16), v(-12, -16)]);
}

#[test]
fn speed_is_capped_keeping_direction() {
    assert_eq!(cap_speed(v(300, 400), 100), v(60, 80));
    assert_eq!(cap_speed(v(-300, 400), 100), v(-60, 80));
    assert_eq!(cap_speed(v(3, 4), 5), v(3, 4));
}

#[test]
fn walls_reflect_and_clamp() {
    assert_eq!(bounce_axis(-5, 3, 10, 100), (10, -3));
    assert_eq!(bounce_axis(95, 7, 10, 100), (90, -7));
    assert_eq!(bounce_axis(50, 7, 10, 100), (50, 7));
    let c = config(100, 200, SeparationPolicy::PushBack);
    let b = clamp_to_bounds(&body(120, -30, 5, -6, 10, 1), &c);
    assert_eq!(b.position, v(90, 10));
    assert_eq!(b.velocity, v(-5, 6));
}

#[test]
fn integration_is_semi_implicit_euler() {
    let b = body(100, 200, 3, -4, 5, 1);
    let r = integrate(&b, v(2, 1), 10, 1000);
    assert_eq!(r.velocity, v(23, 6));
    assert_eq!(r.position, v(330, 260));
    assert_eq!(r.previous_position, v(100, 200));
    assert_eq!(r.acceleration, v(2, 1));
    let capped = integrate(&b, v(297, 404), 1, 100);
    assert_eq!(capped.velocity, v(60, 80));
}

#[test]
fn equal_masses_exchange_velocities() {
    let (a, b) = elastic_response(1, 1, v(-15, 0), v(50, 0), v(-50, 0));
    assert_eq!(a, v(-50, 0));
    assert_eq!(b, v(50, 0));
}

#[test]
fn unequal_masses_head_on() {
    let (a, b) = elastic_response(3, 1, v(-20, 0), v(10, 0), v(-10, 0));
    assert_eq!(a, v(0, 0));
    assert_eq!(b, v(20, 0));
    // Momentum 20 and kinetic energy (doubled) 400 before and after.
    assert_eq!(3 * a.x + b.x, 3 * 10 + (-10));
    assert_eq!(3 * a.x * a.x + b.x * b.x, 3 * 100 + 100);
}

#[test]
fn oblique_impulse_keeps_momentum_within_rounding() {
    let (a, b) = elastic_response(2, 3, v(3, 4), v(1, 2), v(-2, 1));
    assert_eq!(a, v(0, 0));
    assert_eq!(b, v(-1, 2));
    let before = (2 * 1 + 3 * -2, 2 * 2 + 3 * 1);
    let after = (2 * a.x + 3 * b.x, 2 * a.y + 3 * b.y);
    assert!((after.0 - before.0).abs() < 5);
    assert!((after.1 - before.1).abs() < 5);
}

#[test]
fn coinciding_centres_skip_the_impulse() {
    let (a, b) = elastic_response(1, 2, v(0, 0), v(5, 1), v(-3, 2));
    assert_eq!(a, v(5, 1));
    assert_eq!(b, v(-3, 2));
}

#[test]
fn push_back_counts_steps_until_apart() {
    assert_eq!(push_back_steps(v(-6, 0), v(24, 0), 10), 1);
    assert_eq!(push_back_steps(v(-15, 0), v(100, 0), 20), 1);
    assert_eq!(push_back_steps(v(-1, 0), v(1, 0), 10), 9);
    // Equal velocities never part: no steps.
    assert_eq!(push_back_steps(v(-6, 0), v(0, 0), 10), 0);
}

#[test]
fn contact_instant_is_the_earlier_root() {
    assert_eq!(contact_time(v(24, 0), v(-30, 0), 10), Some((480, 576)));
    assert_eq!(contact_time(v(0, 0), v(-30, 0), 10), None);
    // Moving apart: the root lies before the tick.
    assert_eq!(contact_time(v(-24, 0), v(-30, 0), 10), None);
}

#[test]
fn separated_bodies_are_untouched() {
    let c = config(1000, 1000, SeparationPolicy::PushBack);
    let (ea, eb) = contact_effect(&c, 1, &body(100, 100, 5, 0, 10, 1), &body(120, 100, -5, 0, 10, 1));
    assert_eq!((ea.dvx, ea.dvy, ea.dpx, ea.dpy), (0, 0, 0, 0));
    assert_eq!((eb.dvx, eb.dvy, eb.dpx, eb.dpy), (0, 0, 0, 0));
}

#[test]
fn collision_pass_pushes_back_and_swaps() {
    let c = config(1000, 1000, SeparationPolicy::PushBack);
    let bodies = vec![body(100, 500, 50, 0, 10, 1), body(115, 500, -50, 0, 10, 1)];
    let r = resolve_collisions(&c, 0, &bodies);
    assert_eq!(r[0].position, v(50, 500));
    assert_eq!(r[0].velocity, v(-50, 0));
    assert_eq!(r[1].position, v(165, 500));
    assert_eq!(r[1].velocity, v(50, 0));
}

#[test]
fn head_on_equal_masses_tick() {
    let c = config(1000, 1000, SeparationPolicy::PushBack);
    let mut s = Simulation::new(c, vec![body(100, 500, 50, 0, 10, 1), body(115, 500, -50, 0, 10, 1)]).unwrap();
    s.tick(0);
    let b = s.bodies();
    assert_eq!(b[0].velocity, v(-50, 0));
    assert_eq!(b[1].velocity, v(50, 0));
    assert_eq!(b[0].position, v(50, 500));
    assert_eq!(b[1].position, v(165, 500));
}

#[test]
fn push_back_tick_separates_approaching_bodies() {
    let c = config(1000, 1000, SeparationPolicy::PushBack);
    let mut s = Simulation::new(c, vec![body(100, 500, 12, 0, 5, 1), body(130, 500, -12, 0, 5, 1)]).unwrap();
    s.tick(1);
    let b = s.bodies();
    assert_eq!(b[0].position, v(100, 500));
    assert_eq!(b[0].velocity, v(-12, 0));
    assert_eq!(b[1].position, v(130, 500));
    assert_eq!(b[1].velocity, v(12, 0));
}

#[test]
fn backtrack_tick_rolls_back_to_contact() {
    let c = config(1000, 1000, SeparationPolicy::TimeBacktrack);
    let mut s = Simulation::new(c, vec![body(100, 500, 12, 0, 5, 1), body(130, 500, -12, 0, 5, 1)]).unwrap();
    s.tick(1);
    let b = s.bodies();
    assert_eq!(b[0].position, v(110, 500));
    assert_eq!(b[0].velocity, v(-12, 0));
    assert_eq!(b[1].position, v(120, 500));
    assert_eq!(b[1].velocity, v(12, 0));
    assert_eq!(b[0].previous_position, v(100, 500));
}

#[test]
fn lone_body_reflects_off_the_bottom_wall() {
    let c = config(1200, 600, SeparationPolicy::PushBack);
    let mut s = Simulation::new(c, vec![body(50, 50, 1, 1, 10, 1)]).unwrap();
    for k in 1..=540 {
        s.tick(1);
        assert_eq!(s.bodies()[0].position, v(50 + k, 50 + k));
        assert_eq!(s.bodies()[0].velocity, v(1, 1));
    }
    s.tick(1);
    assert_eq!(s.bodies()[0].position, v(591, 590));
    assert_eq!(s.bodies()[0].velocity, v(1, -1));
    s.tick(1);
    assert_eq!(s.bodies()[0].position, v(592, 589));
}

#[test]
fn lone_body_drifts_in_a_straight_line() {
    let c = config(10_000, 10_000, SeparationPolicy::PushBack);
    let mut s = Simulation::new(c, vec![body(100, 100, 3, 4, 5, 1)]).unwrap();
    for _ in 0..10 {
        s.tick(2);
    }
    assert_eq!(s.bodies()[0].position, v(160, 180));
    assert_eq!(s.bodies()[0].velocity, v(3, 4));
}

#[test]
fn gravity_tick_accelerates_both_bodies() {
    let mut c = config(1000, 1000, SeparationPolicy::PushBack);
    c.gravity_enabled = true;
    c.gravitational_constant = 1000;
    let mut s = Simulation::new(c, vec![body(100, 100, 0, 0, 5, 50), body(130, 140, 0, 0, 5, 50)]).unwrap();
    s.tick(1);
    let b = s.bodies();
    assert_eq!(b[0].acceleration, v(12, 16));
    assert_eq!(b[0].velocity, v(12, 16));
    assert_eq!(b[0].position, v(112, 116));
    assert_eq!(b[1].velocity, v(-12, -16));
    assert_eq!(b[1].position, v(118, 124));
}

#[test]
fn time_factor_scales_the_step() {
    let mut c = config(10_000, 10_000, SeparationPolicy::PushBack);
    c.time_factor = 3;
    let mut s = Simulation::new(c, vec![body(100, 100, 3, 4, 5, 1)]).unwrap();
    s.tick(2);
    assert_eq!(s.bodies()[0].position, v(118, 124));
}

#[test]
fn many_ticks_keep_bodies_inside_and_capped() {
    let mut c = config(2000, 1000, SeparationPolicy::PushBack);
    c.gravity_enabled = true;
    c.gravitational_constant = 5_000_000;
    c.max_force_magnitude = 40;
    c.max_speed = 150;
    let mut seed: u64 = 12345;
    let mut next = |m: i64| {
        seed = seed.wrapping_mul(6364136223846793005).wrapping_add(1442695040888963407);
        ((seed >> 33) % (m as u64)) as i64
    };
    let mut bodies = Vec::new();
    for _ in 0..30 {
        bodies.push(body(next(2000), next(1000), next(400) - 200, next(400) - 200, 10 + next(10), 1 + next(9)));
    }
    let mut s = Simulation::new(c, bodies).unwrap();
    for _ in 0..200 {
        s.tick(1);
        for b in s.bodies() {
            assert!(b.radius <= b.position.x && b.position.x <= 2000 - b.radius);
            assert!(b.radius <= b.position.y && b.position.y <= 1000 - b.radius);
            assert!(b.velocity.x * b.velocity.x + b.velocity.y * b.velocity.y <= 150 * 150);
        }
    }
}

#[test]
fn isolated_pair_keeps_momentum_within_rounding() {
    let c = config(100_000, 100_000, SeparationPolicy::PushBack);
    let bodies = vec![body(50_000, 50_000, 7, 3, 30, 5), body(50_040, 50_020, -4, -6, 30, 2)];
    let before = momentum(&bodies);
    let mut s = Simulation::new(c, bodies).unwrap();
    s.tick(0);
    let after = momentum(s.bodies());
    assert!((after.0 - before.0).abs() < 7);
    assert!((after.1 - before.1).abs() < 7);
    assert_ne!(s.bodies()[0].velocity, v(7, 3));
}

#[test]
fn construction_rejects_bad_configurations() {
    let ok = body(100, 100, 0, 0, 10, 1);
    let c = config(1000, 1000, SeparationPolicy::PushBack);
    let mut bad = c;
    bad.width = 0;
    assert_eq!(Simulation::new(bad, vec![ok]).err(), Some(ConfigError::NonPositiveBounds));
    let mut bad = c;
    bad.max_speed = -1;
    assert_eq!(Simulation::new(bad, vec![ok]).err(), Some(ConfigError::OutOfRange));
    let mut bad = c;
    bad.height = 1 << 40;
    assert_eq!(Simulation::new(bad, vec![ok]).err(), Some(ConfigError::OutOfRange));
    let mut b = ok;
    b.mass = 0;
    assert_eq!(Simulation::new(c, vec![ok, b]).err(), Some(ConfigError::NonPositiveMass));
    let mut b = ok;
    b.radius = -3;
    assert_eq!(Simulation::new(c, vec![b]).err(), Some(ConfigError::NonPositiveRadius));
    let mut b = ok;
    b.radius = 501;
    assert_eq!(Simulation::new(c, vec![b]).err(), Some(ConfigError::BodyTooLarge));
    let mut b = ok;
    b.position = v(1 << 40, 0);
    assert_eq!(Simulation::new(c, vec![b]).err(), Some(ConfigError::OutOfRange));
    assert_eq!(Simulation::new(c, vec![ok; 1025]).err(), Some(ConfigError::TooManyBodies));
    // The configuration is judged before the bodies.
    let mut b = ok;
    b.mass = 0;
    let mut bad = c;
    bad.height = -1;
    assert_eq!(Simulation::new(bad, vec![b]).err(), Some(ConfigError::NonPositiveBounds));
    let s = Simulation::new(c, vec![ok]).unwrap();
    assert_eq!(s.config(), c);
    assert_eq!(s.bodies().len(), 1);
}

#[test]
fn sorting_orders_by_x_and_keeps_ties() {
    let mut a = body(300, 1, 0, 0, 5, 1);
    let b = body(100, 2, 0, 0, 5, 1);
    let c = body(300, 3, 0, 0, 5, 1);
    let d = body(200, 4, 0, 0, 5, 1);
    a.color = 7;
    let r = sort_by_x(&vec![a, b, c, d]);
    let order: Vec<i64> = r.iter().map(|b| b.position.y).collect();
    assert_eq!(order, vec![2, 4, 1, 3]);
    assert_eq!(r[2].color, 7);
    assert!(sort_by_x(&Vec::new()).is_empty());
}

#[test]
fn tick_hands_bodies_back_in_ascending_x() {
    let c = config(1000, 1000, SeparationPolicy::PushBack);
    let mut s = Simulation::new(c, vec![body(500, 100, 1, 0, 5, 1), body(100, 300, 2, 0, 5, 1)]).unwrap();
    s.tick(1);
    assert_eq!(s.bodies()[0].position, v(102, 300));
    assert_eq!(s.bodies()[1].position, v(501, 100));
}
