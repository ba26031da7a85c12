//! Properties that hold of the phases on every body set.

use vstd::prelude::*;
use vstd::arithmetic::div_mod::{lemma_div_multiples_vanish_quotient, lemma_div_is_ordered, lemma_div_by_multiple};
use crate::fixed::{in_range, quot, advanced, root, lemma_root_is, lemma_root_exists, ONE};
use crate::body::{Vec3, Body, TickError, axis, all_valid, coincide, apart_from};
use crate::gravity::{GRAVITY, offset, gravity_skip, pull, total_pull, pulled_speed, pull_fits, gravity_report, gravity_step, sq_dist};
use crate::collision::{DAMPING_NUM, DAMPING_DEN, reflected, reflect, reflect_fits, dot_offset, overlaps, bounce, move_fits, moved_point, collision_report, collision_step};
use crate::tick::tick_step;

verus! {

/// The pull of a union of two groups is the sum of the pulls of the groups.
pub proof fn lemma_pull_superposition(s1: Seq<Body>, s2: Seq<Body>, b: Body, a: int)
    ensures
        total_pull(s1 + s2, b, a) == total_pull(s1, b, a) + total_pull(s2, b, a),
    decreases s2.len(),
{
    if s2.len() == 0 {
        assert(s1 + s2 =~= s1);
    } else {
        lemma_pull_superposition(s1, s2.drop_last(), b, a);
        assert((s1 + s2).drop_last() =~= s1 + s2.drop_last());
        assert((s1 + s2).last() == s2.last());
    }
}

/// The superposition of pulls, as the gravity phase applies it: where the phase does
/// not skip a body of `s1 + s2`, each component of its new velocity is its old one
/// advanced by the sum of the pulls of the two groups.
pub proof fn lemma_gravity_superposition(s1: Seq<Body>, s2: Seq<Body>, i: int, dt: int, a: int)
    requires
        0 <= i < s1.len() + s2.len(),
        0 <= a < 3,
        gravity_skip(s1 + s2, (s1 + s2)[i], dt) is None,
    ensures
        axis(gravity_step(s1 + s2, dt)[i].velocity, a) == advanced(
            axis((s1 + s2)[i].velocity, a),
            total_pull(s1, (s1 + s2)[i], a) + total_pull(s2, (s1 + s2)[i], a),
            dt,
        ),
{
    lemma_pull_superposition(s1, s2, (s1 + s2)[i], a);
}

/// Two distinct bodies at rest at distinct positions: after the gravity phase each
/// velocity component is the pull of the other over `dt`, and points toward the other
/// body: it has the sign of the displacement to it, and is zero where that is zero.
pub proof fn lemma_two_body_toward(a: Body, b: Body, dt: int, ax: int)
    requires
        a.valid(),
        b.valid(),
        a.id != b.id,
        a.position != b.position,
        a.velocity == (Vec3 { x: 0, y: 0, z: 0 }),
        b.velocity == (Vec3 { x: 0, y: 0, z: 0 }),
        0 <= dt,
        0 <= ax < 3,
    ensures
        pulled_speed(seq![a, b], a, dt, ax) == quot(pull(a, b, ax) * dt, ONE as int),
        pulled_speed(seq![a, b], b, dt, ax) == quot(pull(b, a, ax) * dt, ONE as int),
        offset(a, b, ax) > 0 ==> pulled_speed(seq![a, b], a, dt, ax) >= 0,
        offset(a, b, ax) < 0 ==> pulled_speed(seq![a, b], a, dt, ax) <= 0,
        offset(a, b, ax) == 0 ==> pulled_speed(seq![a, b], a, dt, ax) == 0,
        offset(b, a, ax) > 0 ==> pulled_speed(seq![a, b], b, dt, ax) >= 0,
        offset(b, a, ax) < 0 ==> pulled_speed(seq![a, b], b, dt, ax) <= 0,
        offset(b, a, ax) == 0 ==> pulled_speed(seq![a, b], b, dt, ax) == 0,
{
    let s = seq![a, b];
    assert(s.drop_last() =~= seq![a]);
    assert(seq![a].drop_last() =~= Seq::<Body>::empty());
    reveal_with_fuel(total_pull, 3);
    lemma_toward_one(a, b, dt, ax);
    lemma_toward_one(b, a, dt, ax);
}

/// `o`'s pull on `b`, and the speed it gives over `dt`, have the sign of the
/// displacement from `b` to `o`.
proof fn lemma_toward_one(b: Body, o: Body, dt: int, ax: int)
    requires
        b.valid(),
        o.valid(),
        b.position != o.position,
        0 <= dt,
        0 <= ax < 3,
    ensures
        offset(b, o, ax) > 0 ==> quot(pull(b, o, ax) * dt, ONE as int) >= 0,
        offset(b, o, ax) < 0 ==> quot(pull(b, o, ax) * dt, ONE as int) <= 0,
        offset(b, o, ax) == 0 ==> quot(pull(b, o, ax) * dt, ONE as int) == 0,
{
    let n2 = sq_dist(b.position, o.position);
    let dx = o.position.x - b.position.x;
    let dy = o.position.y - b.position.y;
    let dz = o.position.z - b.position.z;
    assert(dx * dx >= 0 && dy * dy >= 0 && dz * dz >= 0) by (nonlinear_arith);
    assert(n2 >= 1) by (nonlinear_arith)
        requires
            n2 == dx * dx + dy * dy + dz * dz,
            dx != 0 || dy != 0 || dz != 0,
    ;
    lemma_root_exists(n2);
    let r = root(n2);
    assert(r >= 1) by (nonlinear_arith)
        requires
            0 <= r,
            n2 < (r + 1) * (r + 1),
            n2 >= 1,
    ;
    let den = n2 * r;
    assert(den >= 1) by (nonlinear_arith)
        requires
            n2 >= 1,
            r >= 1,
            den == n2 * r,
    ;
    let d = offset(b, o, ax);
    let k = GRAVITY * o.mass * ONE * ONE;
    let num = GRAVITY * o.mass * d * ONE * ONE;
    assert(num == k * d) by (nonlinear_arith)
        requires
            num == GRAVITY * o.mass * d * ONE * ONE,
            k == GRAVITY * o.mass * ONE * ONE,
    ;
    assert(k > 0);
    assert(d > 0 ==> num > 0) by (nonlinear_arith)
        requires
            num == k * d,
            k > 0,
    ;
    assert(d < 0 ==> num < 0) by (nonlinear_arith)
        requires
            num == k * d,
            k > 0,
    ;
    let p = pull(b, o, ax);
    if num >= 0 {
        lemma_div_is_ordered(0, num, den);
    } else {
        lemma_div_is_ordered(0, -num, den);
    }
    assert(0int / den == 0) by (nonlinear_arith)
        requires
            den >= 1,
    ;
    assert(d == 0 ==> num == 0);
    assert(p >= 0 ==> p * dt >= 0) by (nonlinear_arith)
        requires
            dt >= 0,
    ;
    assert(p <= 0 ==> p * dt <= 0) by (nonlinear_arith)
        requires
            dt >= 0,
    ;
    if p * dt >= 0 {
        lemma_div_is_ordered(0, p * dt, ONE as int);
    } else {
        lemma_div_is_ordered(0, -(p * dt), ONE as int);
    }
}

/// With a time step of zero the gravity phase changes no body; it skips exactly the
/// bodies that share their position with another.
pub proof fn lemma_gravity_zero_step(s: Seq<Body>)
    requires
        all_valid(s),
    ensures
        gravity_step(s, 0) == s,
        forall|i: int|
            0 <= i < s.len() ==> #[trigger] gravity_report(s, 0)[i] == (if apart_from(s, s[i]) {
                None
            } else {
                Some(TickError::Coincident)
            }),
{
    assert forall|i: int| 0 <= i < s.len() implies pull_fits(s, #[trigger] s[i], 0) && gravity_step(s, 0)[i] == s[i] by {
        assert(s[i].valid());
        assert(total_pull(s, s[i], 0) * 0 == 0);
        assert(total_pull(s, s[i], 1) * 0 == 0);
        assert(total_pull(s, s[i], 2) * 0 == 0);
    }
    assert(gravity_step(s, 0) =~= s);
}

/// A body that overlaps no body of `s` keeps its velocity.
proof fn lemma_bounce_clear(s: Seq<Body>, b: Body)
    requires
        forall|j: int| 0 <= j < s.len() ==> !#[trigger] overlaps(b, s[j]),
    ensures
        bounce(s, b) == Some(b.velocity),
    decreases s.len(),
{
    if s.len() > 0 {
        let t = s.drop_last();
        assert forall|j: int| 0 <= j < t.len() implies !#[trigger] overlaps(b, t[j]) by {
            assert(t[j] == s[j]);
        }
        lemma_bounce_clear(t, b);
        assert(!overlaps(b, s[s.len() - 1]));
    }
}

/// Where no two spheres overlap, the collision phase changes no velocity and moves
/// each body by its velocity over `dt`; it skips, and leaves as it is, exactly a body
/// whose new position would leave the grid's bounds.
pub proof fn lemma_no_overlap_only_moves(s: Seq<Body>, dt: int)
    requires
        all_valid(s),
        forall|i: int, j: int| 0 <= i < s.len() && 0 <= j < s.len() ==> !#[trigger] overlaps(s[i], s[j]),
    ensures
        forall|i: int|
            0 <= i < s.len() ==> #[trigger] collision_step(s, dt)[i] == (if move_fits(s[i].position, s[i].velocity, dt) {
                Body { position: moved_point(s[i].position, s[i].velocity, dt), ..s[i] }
            } else {
                s[i]
            }),
        forall|i: int|
            0 <= i < s.len() ==> #[trigger] collision_report(s, dt)[i] == (if move_fits(s[i].position, s[i].velocity, dt) {
                None
            } else {
                Some(TickError::OutOfRange)
            }),
{
    assert forall|i: int| 0 <= i < s.len() implies apart_from(s, #[trigger] s[i]) && bounce(s, s[i]) == Some(s[i].velocity) by {
        assert forall|j: int| 0 <= j < s.len() implies !#[trigger] coincide(s[i], s[j]) by {
            assert(s[i].valid() && s[j].valid());
            if coincide(s[i], s[j]) {
                assert(sq_dist(s[i].position, s[j].position) == 0);
                assert((s[i].radius + s[j].radius) * (s[i].radius + s[j].radius) > 0) by (nonlinear_arith)
                    requires
                        s[i].radius + s[j].radius > 0,
                ;
                assert(overlaps(s[i], s[j]));
            }
        }
        assert forall|j: int| 0 <= j < s.len() implies !#[trigger] overlaps(s[i], s[j]) by {}
        lemma_bounce_clear(s, s[i]);
    }
}

/// Two bodies at rest a distance `r` apart along the x axis: after the gravity phase
/// each moves toward the other, along that axis alone, at `G * m / r^2 * dt`, where
/// `m` is the other's mass (in grid units, each quotient rounded toward zero).
pub proof fn lemma_two_body_pull(a: Body, b: Body, r: int, dt: int)
    requires
        a.valid(),
        b.valid(),
        a.id != b.id,
        r > 0,
        b.position.x == a.position.x + r,
        b.position.y == a.position.y,
        b.position.z == a.position.z,
        a.velocity == (Vec3 { x: 0, y: 0, z: 0 }),
        b.velocity == (Vec3 { x: 0, y: 0, z: 0 }),
    ensures
        pulled_speed(seq![a, b], a, dt, 0) == quot(GRAVITY * b.mass * ONE * ONE / (r * r) * dt, ONE as int),
        pulled_speed(seq![a, b], b, dt, 0) == -quot(GRAVITY * a.mass * ONE * ONE / (r * r) * dt, ONE as int),
        pulled_speed(seq![a, b], a, dt, 1) == 0,
        pulled_speed(seq![a, b], a, dt, 2) == 0,
        pulled_speed(seq![a, b], b, dt, 1) == 0,
        pulled_speed(seq![a, b], b, dt, 2) == 0,
{
    let s = seq![a, b];
    assert(s.drop_last() =~= seq![a]);
    assert(seq![a].drop_last() =~= Seq::<Body>::empty());
    assert(seq![b].drop_last() =~= Seq::<Body>::empty());
    assert(sq_dist(a.position, b.position) == r * r);
    assert((-r) * (-r) == r * r) by (nonlinear_arith);
    assert(sq_dist(b.position, a.position) == r * r);
    assert(r * r <= r * r < (r + 1) * (r + 1)) by (nonlinear_arith)
        requires
            r > 0,
    ;
    lemma_root_is(r * r, r);
    assert(r * r > 0) by (nonlinear_arith)
        requires
            r > 0,
    ;
    reveal_with_fuel(total_pull, 3);
    let den = r * r * r;
    assert(den > 0 && 0int / den == 0) by (nonlinear_arith)
        requires
            r > 0,
            den == r * r * r,
    ;
    let ka = GRAVITY * a.mass * ONE * ONE;
    let kb = GRAVITY * b.mass * ONE * ONE;
    assert(ka > 0 && kb > 0);
    lemma_div_multiples_vanish_quotient(r, ka, r * r);
    lemma_div_multiples_vanish_quotient(r, kb, r * r);
    assert(GRAVITY * b.mass * r * ONE * ONE == r * kb) by (nonlinear_arith)
        requires
            kb == GRAVITY * b.mass * ONE * ONE,
    ;
    assert(GRAVITY * a.mass * (-r) * ONE * ONE == -(r * ka)) by (nonlinear_arith)
        requires
            ka == GRAVITY * a.mass * ONE * ONE,
    ;
    assert(r * r * r == r * (r * r)) by (nonlinear_arith);
    assert(r * ka >= 0) by (nonlinear_arith)
        requires
            r > 0,
            ka > 0,
    ;
    assert(pull(a, b, 0) == kb / (r * r));
    assert(pull(b, a, 0) == -(ka / (r * r)));
    assert(crate::gravity::offset(a, b, 1) == 0);
    assert(crate::gravity::offset(b, a, 1) == 0);
    assert(GRAVITY * b.mass * 0 * ONE * ONE == 0);
    assert(GRAVITY * a.mass * 0 * ONE * ONE == 0);
    assert(pull(a, b, 1) == 0);
    assert(pull(a, b, 2) == 0);
    assert(pull(b, a, 1) == 0);
    assert(pull(b, a, 2) == 0);
    assert(total_pull(s, a, 0) == kb / (r * r));
    assert(total_pull(s, b, 0) == -(ka / (r * r)));
    assert(total_pull(s, a, 1) == 0);
    assert(total_pull(s, a, 2) == 0);
    assert(total_pull(s, b, 1) == 0);
    assert(total_pull(s, b, 2) == 0);
    let qa = ka / (r * r);
    assert(-qa * dt == -(qa * dt)) by (nonlinear_arith);
}

/// Whether a body stands apart depends only on the identities and positions of the set.
proof fn lemma_apart_reads_snapshot(s1: Seq<Body>, s2: Seq<Body>, b: Body)
    requires
        s1.len() == s2.len(),
        forall|j: int| 0 <= j < s1.len() ==> (#[trigger] s1[j]).id == s2[j].id && s1[j].position == s2[j].position,
    ensures
        apart_from(s1, b) == apart_from(s2, b),
{
    assert forall|j: int| 0 <= j < s1.len() implies coincide(b, #[trigger] s1[j]) == coincide(b, s2[j]) by {}
    if apart_from(s1, b) {
        assert forall|j: int| 0 <= j < s2.len() implies !#[trigger] coincide(b, s2[j]) by {
            assert(!coincide(b, s1[j]));
        }
    }
    if apart_from(s2, b) {
        assert forall|j: int| 0 <= j < s1.len() implies !#[trigger] coincide(b, s1[j]) by {
            assert(!coincide(b, s2[j]));
        }
    }
}

/// Two sets that agree on every body's identity, mass and position pull a body alike.
proof fn lemma_pull_reads_snapshot(s1: Seq<Body>, s2: Seq<Body>, b: Body, a: int)
    requires
        s1.len() == s2.len(),
        forall|j: int|
            0 <= j < s1.len() ==> (#[trigger] s1[j]).id == s2[j].id && s1[j].mass == s2[j].mass
                && s1[j].position == s2[j].position,
    ensures
        total_pull(s1, b, a) == total_pull(s2, b, a),
    decreases s1.len(),
{
    if s1.len() > 0 {
        let t1 = s1.drop_last();
        let t2 = s2.drop_last();
        assert forall|j: int| 0 <= j < t1.len() implies (#[trigger] t1[j]).id == t2[j].id && t1[j].mass == t2[j].mass
            && t1[j].position == t2[j].position by {
            assert(t1[j] == s1[j] && t2[j] == s2[j]);
        }
        lemma_pull_reads_snapshot(t1, t2, b, a);
        assert(s1.last() == s1[s1.len() - 1]);
    }
}

/// The gravity phase reads other bodies only through their identity, mass and
/// position: two sets that agree on those, and on the body itself, give that body the
/// same new velocity, whatever the other bodies' velocities and radii are.
pub proof fn lemma_gravity_reads_snapshot(s1: Seq<Body>, s2: Seq<Body>, i: int, dt: int)
    requires
        s1.len() == s2.len(),
        0 <= i < s1.len(),
        s1[i] == s2[i],
        forall|j: int|
            0 <= j < s1.len() ==> (#[trigger] s1[j]).id == s2[j].id && s1[j].mass == s2[j].mass
                && s1[j].position == s2[j].position,
    ensures
        gravity_report(s1, dt)[i] == gravity_report(s2, dt)[i],
        gravity_step(s1, dt)[i] == gravity_step(s2, dt)[i],
{
    lemma_apart_reads_snapshot(s1, s2, s1[i]);
    lemma_pull_reads_snapshot(s1, s2, s1[i], 0);
    lemma_pull_reads_snapshot(s1, s2, s1[i], 1);
    lemma_pull_reads_snapshot(s1, s2, s1[i], 2);
}

/// Two sets that agree on every body's identity, position and radius reflect a body
/// alike.
proof fn lemma_bounce_reads_snapshot(s1: Seq<Body>, s2: Seq<Body>, b: Body)
    requires
        s1.len() == s2.len(),
        forall|j: int|
            0 <= j < s1.len() ==> (#[trigger] s1[j]).id == s2[j].id && s1[j].radius == s2[j].radius
                && s1[j].position == s2[j].position,
    ensures
        bounce(s1, b) == bounce(s2, b),
    decreases s1.len(),
{
    if s1.len() > 0 {
        let t1 = s1.drop_last();
        let t2 = s2.drop_last();
        assert forall|j: int| 0 <= j < t1.len() implies (#[trigger] t1[j]).id == t2[j].id && t1[j].radius == t2[j].radius
            && t1[j].position == t2[j].position by {
            assert(t1[j] == s1[j] && t2[j] == s2[j]);
        }
        lemma_bounce_reads_snapshot(t1, t2, b);
        assert(s1.last() == s1[s1.len() - 1]);
        let (l1, l2) = (s1.last(), s2.last());
        assert(overlaps(b, l1) == overlaps(b, l2));
        assert forall|v: Vec3| reflect(v, b, l1) == reflect(v, b, l2) && reflect_fits(v, b, l1) == reflect_fits(v, b, l2) by {
            assert(sq_dist(b.position, l1.position) == sq_dist(b.position, l2.position));
        }
    }
}

/// The collision phase reads other bodies only through their identity, position and
/// radius: two sets that agree on those, and on the body itself, resolve that body
/// alike, whatever the other bodies' velocities and masses are. In particular a
/// reflection never depends on the other body's velocity.
pub proof fn lemma_collision_reads_snapshot(s1: Seq<Body>, s2: Seq<Body>, i: int, dt: int)
    requires
        s1.len() == s2.len(),
        0 <= i < s1.len(),
        s1[i] == s2[i],
        forall|j: int|
            0 <= j < s1.len() ==> (#[trigger] s1[j]).id == s2[j].id && s1[j].radius == s2[j].radius
                && s1[j].position == s2[j].position,
    ensures
        collision_report(s1, dt)[i] == collision_report(s2, dt)[i],
        collision_step(s1, dt)[i] == collision_step(s2, dt)[i],
{
    lemma_apart_reads_snapshot(s1, s2, s1[i]);
    lemma_bounce_reads_snapshot(s1, s2, s1[i]);
}

/// Two overlapping bodies, `b` a distance `r` from `a` along the x axis, with `a`
/// moving along that axis: the collision phase reverses `a`'s velocity and keeps
/// `DAMPING_NUM / DAMPING_DEN` of it (rounded toward zero).
pub proof fn lemma_head_on_reflection(a: Body, b: Body, r: int)
    requires
        a.valid(),
        b.valid(),
        a.id != b.id,
        0 < r < a.radius + b.radius,
        b.position.x == a.position.x + r,
        b.position.y == a.position.y,
        b.position.z == a.position.z,
        a.velocity.y == 0,
        a.velocity.z == 0,
    ensures
        bounce(seq![a, b], a) == Some(
            Vec3 { x: quot(-(DAMPING_NUM * a.velocity.x), DAMPING_DEN as int) as i64, y: 0, z: 0 },
        ),
{
    let s = seq![a, b];
    let vx = a.velocity.x as int;
    assert(s.drop_last() =~= seq![a]);
    assert(seq![a].drop_last() =~= Seq::<Body>::empty());
    let n2 = r * r;
    assert(sq_dist(a.position, b.position) == n2);
    assert(n2 < (a.radius + b.radius) * (a.radius + b.radius)) by (nonlinear_arith)
        requires
            0 < r < a.radius + b.radius,
            n2 == r * r,
    ;
    assert(overlaps(a, b));
    assert(n2 > 0) by (nonlinear_arith)
        requires
            r > 0,
            n2 == r * r,
    ;
    let v = a.velocity;
    assert(dot_offset(v, a, b) == vx * r);
    assert((vx * n2 - 2 * (vx * r) * r) * DAMPING_NUM == n2 * (-(DAMPING_NUM * vx))) by (nonlinear_arith)
        requires
            n2 == r * r,
    ;
    assert((0 * n2 - 2 * (vx * r) * 0) * DAMPING_NUM == 0) by (nonlinear_arith);
    assert(0int / (DAMPING_DEN * n2) == 0) by (nonlinear_arith)
        requires
            n2 > 0,
    ;
    let m = if vx >= 0 { DAMPING_NUM * vx } else { -(DAMPING_NUM * vx) };
    lemma_div_multiples_vanish_quotient(n2, m, DAMPING_DEN as int);
    assert(n2 * m == if vx >= 0 { -(n2 * (-(DAMPING_NUM * vx))) } else { n2 * (-(DAMPING_NUM * vx)) }) by (nonlinear_arith)
        requires
            m == (if vx >= 0 { DAMPING_NUM * vx } else { -(DAMPING_NUM * vx) }),
    ;
    assert(n2 * DAMPING_DEN == DAMPING_DEN * n2) by (nonlinear_arith);
    assert(reflected(v, a, b, 0) == quot(-(DAMPING_NUM * vx), DAMPING_DEN as int));
    assert(reflected(v, a, b, 1) == 0);
    assert(reflected(v, a, b, 2) == 0);
    let av = if vx >= 0 { vx } else { -vx };
    lemma_div_is_ordered(DAMPING_NUM * av, DAMPING_DEN * av, DAMPING_DEN as int);
    lemma_div_by_multiple(av, DAMPING_DEN as int);
    assert(DAMPING_DEN * av == av * DAMPING_DEN) by (nonlinear_arith);
    assert(m == DAMPING_NUM * av);
    assert(0 <= m / DAMPING_DEN as int) by {
        lemma_div_is_ordered(0, m, DAMPING_DEN as int);
    }
    assert(m / DAMPING_DEN as int <= av);
    assert(in_range(quot(-(DAMPING_NUM * vx), DAMPING_DEN as int)));
    assert(reflect_fits(v, a, b));
    assert(bounce(seq![a], a) == Some(v)) by {
        assert(bounce(Seq::<Body>::empty(), a) == Some(v));
        assert(!overlaps(a, a));
        assert(seq![a].last() == a);
        assert(seq![a].drop_last() =~= Seq::<Body>::empty());
    }
    assert(s.last() == b);
}

/// Equal body sets and time steps give equal ticks: the phases draw on nothing but
/// their arguments.
pub proof fn lemma_tick_deterministic(s1: Seq<Body>, s2: Seq<Body>, dt: int)
    requires
        s1 =~= s2,
    ensures
        gravity_report(s1, dt) == gravity_report(s2, dt),
        collision_report(gravity_step(s1, dt), dt) == collision_report(gravity_step(s2, dt), dt),
        tick_step(s1, dt) == tick_step(s2, dt),
{
}

} // verus!
