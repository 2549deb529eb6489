use vstd::prelude::*;

use crate::arith::abs;
use crate::body::{Body, Config, DT_LIMIT, MAX_BODIES};
use crate::forces::all_valid;
use crate::motion::{bounce, bounce_axis, cap_speed, capped, speed_within};
use crate::resolve::{contact_effect, pair_effect, Change};
use crate::vector::Vector2D;

verus! {

/// Componentwise sum of two changes.
pub open spec fn add4(x: (int, int, int, int), y: (int, int, int, int)) -> (int, int, int, int) {
    (x.0 + y.0, x.1 + y.1, x.2 + y.2, x.3 + y.3)
}

/// The changes in `acc` plus those of the pairs `(i, i + 1) .. (i, j - 1)` of
/// the bodies `s`.
pub open spec fn row_changes(
    c: Config,
    dt: int,
    s: Seq<Body>,
    acc: Seq<(int, int, int, int)>,
    i: int,
    j: int,
) -> Seq<(int, int, int, int)>
    decreases j - i,
{
    if j <= i + 1 {
        acc
    } else {
        let prev = row_changes(c, dt, s, acc, i, j - 1);
        let e = pair_effect(c, dt, s[i], s[j - 1]);
        prev.update(i, add4(prev[i], e.0)).update(j - 1, add4(prev[j - 1], e.1))
    }
}

/// The changes of all pairs `(k, l)` with `k < l` and `k < i`, each computed
/// from the bodies `s` as they stand before the pass.
pub open spec fn pass_changes(c: Config, dt: int, s: Seq<Body>, i: int) -> Seq<(int, int, int, int)>
    decreases i,
{
    if i <= 0 {
        Seq::new(s.len(), |k: int| (0, 0, 0, 0))
    } else {
        row_changes(c, dt, s, pass_changes(c, dt, s, i - 1), i - 1, s.len() as int)
    }
}

/// `b` after the changes `d` of its contacts: its velocity changed and capped,
/// its position moved, and both corrected against the walls.
pub open spec fn settle(c: Config, b: Body, d: (int, int, int, int)) -> Body {
    let v = capped(b.velocity.x + d.0, b.velocity.y + d.1, c.max_speed as int);
    let (py, vy) = bounce(b.position.y + d.3, v.1, b.radius as int, c.height as int);
    let (px, vx) = bounce(b.position.x + d.2, v.0, b.radius as int, c.width as int);
    Body {
        position: Vector2D { x: px as i64, y: py as i64 },
        velocity: Vector2D { x: vx as i64, y: vy as i64 },
        ..b
    }
}

/// The bodies `s` after one collision pass over every pair.
pub open spec fn resolved(c: Config, dt: int, s: Seq<Body>) -> Seq<Body> {
    let total = pass_changes(c, dt, s, s.len() as int);
    Seq::new(s.len(), |k: int| settle(c, s[k], total[k]))
}

proof fn lemma_row_len(c: Config, dt: int, s: Seq<Body>, acc: Seq<(int, int, int, int)>, i: int, j: int)
    requires
        0 <= i,
        j <= acc.len(),
    ensures
        row_changes(c, dt, s, acc, i, j).len() == acc.len(),
    decreases j - i,
{
    if j > i + 1 {
        lemma_row_len(c, dt, s, acc, i, j - 1);
    }
}

proof fn lemma_pass_len(c: Config, dt: int, s: Seq<Body>, i: int)
    requires
        0 <= i <= s.len(),
    ensures
        pass_changes(c, dt, s, i).len() == s.len(),
    decreases i,
{
    if i > 0 {
        lemma_pass_len(c, dt, s, i - 1);
        lemma_row_len(c, dt, s, pass_changes(c, dt, s, i - 1), i - 1, s.len() as int);
    }
}

/// Bound on an accumulated change after `cnt` contacts.
pub open spec fn within_count(ch: Change, cnt: int) -> bool {
    &&& abs(ch.dvx as int) <= cnt * 0x1_0000_0000
    &&& abs(ch.dvy as int) <= cnt * 0x1_0000_0000
    &&& abs(ch.dpx as int) <= cnt * 0x0400_0000_0000_0000_0000_0000
    &&& abs(ch.dpy as int) <= cnt * 0x0400_0000_0000_0000_0000_0000
}

fn add_change(x: Change, y: Change, Ghost(cnt): Ghost<int>) -> (r: Change)
    requires
        0 <= cnt < 0x20_0000,
        within_count(x, cnt),
        y.bounded(),
    ensures
        r.ints() == add4(x.ints(), y.ints()),
        within_count(r, cnt + 1),
{
    Change { dvx: x.dvx + y.dvx, dvy: x.dvy + y.dvy, dpx: x.dpx + y.dpx, dpy: x.dpy + y.dpy }
}

proof fn lemma_same_square(a: int, b: int)
    requires
        abs(a) == abs(b),
    ensures
        a * a == b * b,
{
    assert(a * a == b * b) by (nonlinear_arith)
        requires
            a == b || a == -b,
    ;
}

/// Applies the accumulated changes `ch` to `b` (see `settle`).
fn settle_body(c: &Config, b: &Body, ch: Change, Ghost(cnt): Ghost<int>) -> (r: Body)
    requires
        c.valid(),
        b.valid(*c),
        0 <= cnt <= 0x20_0000,
        within_count(ch, cnt),
    ensures
        r == settle(*c, *b, ch.ints()),
        r.inside(*c),
        speed_within(r.velocity, c.max_speed as int),
        r.velocity.within(c.max_speed as int),
{
    let w = Vector2D { x: (b.velocity.x as i128 + ch.dvx) as i64, y: (b.velocity.y as i128 + ch.dvy) as i64 };
    let v = cap_speed(w, c.max_speed);
    let (py, vy) = bounce_axis(b.position.y as i128 + ch.dpy, v.y, b.radius, c.height);
    let (px, vx) = bounce_axis(b.position.x as i128 + ch.dpx, v.x, b.radius, c.width);
    proof {
        lemma_same_square(vx as int, v.x as int);
        lemma_same_square(vy as int, v.y as int);
    }
    Body { position: Vector2D { x: px, y: py }, velocity: Vector2D { x: vx, y: vy }, ..*b }
}

/// One collision pass: every pair of overlapping bodies is separated and takes
/// the velocities of an elastic collision, each pair judged on the bodies as
/// they stand before the pass; the changes a body receives add up, and its
/// speed is then capped and its position corrected against the walls.
pub fn resolve_collisions(c: &Config, dt: i64, bodies: &Vec<Body>) -> (r: Vec<Body>)
    requires
        c.valid(),
        all_valid(*c, bodies@),
        bodies.len() <= MAX_BODIES,
        0 <= dt <= DT_LIMIT,
    ensures
        r@ == resolved(*c, dt as int, bodies@),
        forall|k: int| 0 <= k < r.len() ==> (#[trigger] r[k]).inside(*c),
        forall|k: int|
            0 <= k < r.len() ==> speed_within((#[trigger] r[k]).velocity, c.max_speed as int),
{
    let n = bodies.len();
    let ghost s = bodies@;
    let mut acc: Vec<Change> = Vec::new();
    for k in 0..n
        invariant
            acc.len() == k,
            forall|l: int| 0 <= l < k ==> (#[trigger] acc[l]).ints() == (0int, 0int, 0int, 0int),
    {
        acc.push(Change { dvx: 0, dvy: 0, dpx: 0, dpy: 0 });
    }
    proof {
        lemma_pass_len(*c, dt as int, s, 0);
    }
    let ghost mut cnt: int = 0;
    for i in 0..n
        invariant
            n == bodies.len(),
            s == bodies@,
            c.valid(),
            all_valid(*c, s),
            n <= MAX_BODIES,
            0 <= dt <= DT_LIMIT,
            acc.len() == n,
            pass_changes(*c, dt as int, s, i as int).len() == n,
            forall|k: int|
                0 <= k < n ==> (#[trigger] acc[k]).ints() == pass_changes(*c, dt as int, s, i as int)[k],
            0 <= cnt <= i * n,
            forall|k: int| 0 <= k < n ==> within_count(#[trigger] acc[k], cnt),
    {
        let ghost base = pass_changes(*c, dt as int, s, i as int);
        proof {
            lemma_row_len(*c, dt as int, s, base, i as int, (i + 1) as int);
        }
        for j in i + 1..n
            invariant
                n == bodies.len(),
                s == bodies@,
                c.valid(),
                all_valid(*c, s),
                n <= MAX_BODIES,
                0 <= dt <= DT_LIMIT,
                0 <= i < n,
                acc.len() == n,
                base.len() == n,
                base == pass_changes(*c, dt as int, s, i as int),
                forall|k: int|
                    0 <= k < n ==> (#[trigger] acc[k]).ints() == row_changes(
                        *c,
                        dt as int,
                        s,
                        base,
                        i as int,
                        j as int,
                    )[k],
                row_changes(*c, dt as int, s, base, i as int, j as int).len() == n,
                0 <= cnt <= i * n + j,
                forall|k: int| 0 <= k < n ==> within_count(#[trigger] acc[k], cnt),
        {
            proof {
                assert(i * n + j < 0x10_0000 + 0x400) by (nonlinear_arith)
                    requires
                        i < n,
                        j < n,
                        n <= 0x400,
                ;
                lemma_row_len(*c, dt as int, s, base, i as int, (j + 1) as int);
            }
            let (ea, eb) = contact_effect(c, dt, &bodies[i], &bodies[j]);
            let before_i = acc[i];
            let ni = add_change(before_i, ea, Ghost(cnt));
            let before_j = acc[j];
            let nj = add_change(before_j, eb, Ghost(cnt));
            let ghost old_acc = acc@;
            acc.set(i, ni);
            acc.set(j, nj);
            proof {
                assert forall|k: int| 0 <= k < n implies within_count(#[trigger] acc[k], cnt + 1) by {
                    if k != i && k != j {
                        assert(acc[k] == old_acc[k]);
                        assert(within_count(old_acc[k], cnt));
                    }
                }
                cnt = cnt + 1;
            }
        }
        proof {
            assert(i * n + n == (i + 1) * n) by (nonlinear_arith);
        }
    }
    proof {
        assert(n * n <= 0x10_0000) by (nonlinear_arith)
            requires
                n <= 0x400,
        ;
    }
    let mut r: Vec<Body> = Vec::new();
    for k in 0..n
        invariant
            n == bodies.len(),
            s == bodies@,
            c.valid(),
            all_valid(*c, s),
            acc.len() == n,
            pass_changes(*c, dt as int, s, n as int).len() == n,
            forall|l: int|
                0 <= l < n ==> (#[trigger] acc[l]).ints() == pass_changes(*c, dt as int, s, n as int)[l],
            0 <= cnt <= 0x10_0000,
            forall|l: int| 0 <= l < n ==> within_count(#[trigger] acc[l], cnt),
            r.len() == k,
            forall|l: int|
                0 <= l < k ==> r[l] == settle(*c, s[l], pass_changes(*c, dt as int, s, n as int)[l]),
            forall|l: int| 0 <= l < k ==> (#[trigger] r[l]).inside(*c),
            forall|l: int| 0 <= l < k ==> speed_within((#[trigger] r[l]).velocity, c.max_speed as int),
    {
        let b = settle_body(c, &bodies[k], acc[k], Ghost(cnt));
        r.push(b);
    }
    assert(r@ =~= resolved(*c, dt as int, s));
    r
}

} // verus!
