//! The force integrator: every body is pulled by every other one.

use vstd::prelude::*;
use vstd::arithmetic::div_mod::{lemma_div_is_ordered, lemma_div_is_ordered_by_denominator, lemma_div_by_multiple};
use crate::fixed::{in_range, quot, advanced, is_root, root, isqrt, quot_exec, advance, ONE, LIMIT};
use crate::body::{Vec3, Body, TickError, axis, all_valid, coincide, apart_from, apart_exec};

verus! {

/// The gravitational constant, in grid units.
pub const GRAVITY: i64 = 1;

/// Bound on one body's pull in grid units, with room for a sum over any set.
pub const PULL_BOUND: i128 = 0x8_0000_0000_0000;

/// Component `a` of the displacement from `b` to `o`.
pub open spec fn offset(b: Body, o: Body, a: int) -> int {
    axis(o.position, a) - axis(b.position, a)
}

/// Squared distance between two points.
pub open spec fn sq_dist(p: Vec3, q: Vec3) -> int {
    (q.x - p.x) * (q.x - p.x) + (q.y - p.y) * (q.y - p.y) + (q.z - p.z) * (q.z - p.z)
}

/// Component `a` of the acceleration that `o` gives `b`: `G * m(o) * d / (|d|^2 * l)`,
/// where `d` is the displacement from `b` to `o` in grid steps and `l` the integer
/// square root of `|d|^2`, which stands for `|d|`; the quotient is rounded toward zero.
/// Where `|d|` spans few grid steps, `l` falls short of `|d|` and the pull exceeds the
/// exact one (by up to 41% at one step along two axes).
pub open spec fn pull(b: Body, o: Body, a: int) -> int {
    let n2 = sq_dist(b.position, o.position);
    quot(GRAVITY * o.mass * offset(b, o, a) * ONE * ONE, n2 * root(n2))
}

/// Component `a` of the acceleration that the bodies of `s` other than `b` give `b`.
pub open spec fn total_pull(s: Seq<Body>, b: Body, a: int) -> int
    decreases s.len(),
{
    if s.len() == 0 {
        0
    } else {
        total_pull(s.drop_last(), b, a) + if s.last().id != b.id {
            pull(b, s.last(), a)
        } else {
            0
        }
    }
}

/// Component `a` of `b`'s velocity after the pull of `s` over `dt`.
pub open spec fn pulled_speed(s: Seq<Body>, b: Body, dt: int, a: int) -> int {
    advanced(axis(b.velocity, a), total_pull(s, b, a), dt)
}

/// The new velocity of `b` lies within the grid's bounds.
pub open spec fn pull_fits(s: Seq<Body>, b: Body, dt: int) -> bool {
    &&& in_range(pulled_speed(s, b, dt, 0))
    &&& in_range(pulled_speed(s, b, dt, 1))
    &&& in_range(pulled_speed(s, b, dt, 2))
}

/// `b` with the velocity that the pull of `s` over `dt` gives it.
pub open spec fn after_gravity(s: Seq<Body>, b: Body, dt: int) -> Body {
    Body {
        velocity: Vec3 {
            x: pulled_speed(s, b, dt, 0) as i64,
            y: pulled_speed(s, b, dt, 1) as i64,
            z: pulled_speed(s, b, dt, 2) as i64,
        },
        ..b
    }
}

/// Why the gravity phase leaves `b` as it is, if it does: `b` shares its position with
/// another body, so its pull has no finite value, or its new velocity would leave the
/// grid's bounds.
pub open spec fn gravity_skip(s: Seq<Body>, b: Body, dt: int) -> Option<TickError> {
    if !apart_from(s, b) {
        Some(TickError::Coincident)
    } else if !pull_fits(s, b, dt) {
        Some(TickError::OutOfRange)
    } else {
        None
    }
}

/// `b` after the gravity phase on `s`.
pub open spec fn gravity_body(s: Seq<Body>, b: Body, dt: int) -> Body {
    if gravity_skip(s, b, dt) is None {
        after_gravity(s, b, dt)
    } else {
        b
    }
}

/// For each body of `s`, why the gravity phase skips it, if it does.
pub open spec fn gravity_report(s: Seq<Body>, dt: int) -> Seq<Option<TickError>> {
    Seq::new(s.len(), |i: int| gravity_skip(s, s[i], dt))
}

/// The body set after the gravity phase: each body is resolved on its own against the
/// set as it stood before the phase.
pub open spec fn gravity_step(s: Seq<Body>, dt: int) -> Seq<Body> {
    Seq::new(s.len(), |i: int| gravity_body(s, s[i], dt))
}

proof fn lemma_square_pos(x: int)
    requires
        x != 0,
    ensures
        x * x > 0,
{
    assert(x * x > 0) by (nonlinear_arith)
        requires
            x != 0,
    ;
}

/// One body's pull is at most its mass times `ONE * ONE` in each component.
proof fn lemma_pull_bound(b: Body, o: Body, a: int, r: int)
    requires
        b.valid(),
        o.valid(),
        b.position != o.position,
        is_root(sq_dist(b.position, o.position), r),
        0 <= a < 3,
    ensures
        -(o.mass * ONE * ONE) <= pull(b, o, a) <= o.mass * ONE * ONE,
        sq_dist(b.position, o.position) >= 1,
        r >= 1,
{
    let n2 = sq_dist(b.position, o.position);
    let d = offset(b, o, a);
    let dx = o.position.x - b.position.x;
    let dy = o.position.y - b.position.y;
    let dz = o.position.z - b.position.z;
    assert(dx * dx >= 0 && dy * dy >= 0 && dz * dz >= 0) by (nonlinear_arith);
    if dx != 0 {
        lemma_square_pos(dx);
    } else if dy != 0 {
        lemma_square_pos(dy);
    } else {
        lemma_square_pos(dz);
    }
    assert(n2 >= 1);
    assert(d * d <= n2);
    let ad = if d >= 0 { d } else { -d };
    assert(ad * ad == d * d) by (nonlinear_arith)
        requires
            ad == d || ad == -d,
    ;
    assert(ad <= r) by (nonlinear_arith)
        requires
            0 <= ad,
            0 <= r,
            ad * ad < (r + 1) * (r + 1),
    ;
    assert(r >= 1) by (nonlinear_arith)
        requires
            0 <= r,
            n2 < (r + 1) * (r + 1),
            n2 >= 1,
    ;
    assert(root(n2) == r) by {
        crate::fixed::lemma_root_is(n2, r);
    }
    let k = GRAVITY * o.mass * ONE * ONE;
    assert(k > 0);
    let num = GRAVITY * o.mass * d * ONE * ONE;
    let anum = k * ad;
    assert(num == k * d) by (nonlinear_arith)
        requires
            num == GRAVITY * o.mass * d * ONE * ONE,
            k == GRAVITY * o.mass * ONE * ONE,
    ;
    assert(anum <= k * r) by (nonlinear_arith)
        requires
            k > 0,
            ad <= r,
            anum == k * ad,
    ;
    let den = n2 * r;
    assert(r <= den) by (nonlinear_arith)
        requires
            n2 >= 1,
            r >= 1,
            den == n2 * r,
    ;
    assert(0 <= anum) by (nonlinear_arith)
        requires
            k > 0,
            ad >= 0,
            anum == k * ad,
    ;
    lemma_div_is_ordered(anum, k * r, den);
    lemma_div_is_ordered_by_denominator(k * r, r, den);
    lemma_div_by_multiple(k, r);
    assert(anum / den <= k);
    assert(num >= 0 ==> anum == num) by (nonlinear_arith)
        requires
            num == k * d,
            anum == k * ad,
            ad == (if d >= 0 { d } else { -d }),
            k > 0,
    ;
    assert(num < 0 ==> anum == -num) by (nonlinear_arith)
        requires
            num == k * d,
            anum == k * ad,
            ad == (if d >= 0 { d } else { -d }),
            k > 0,
    ;
    assert(GRAVITY * o.mass * ONE * ONE == o.mass * ONE * ONE);
}

/// The acceleration that `o` gives `b`.
fn pull_exec(b: &Body, o: &Body) -> (r: (i128, i128, i128))
    requires
        b.valid(),
        o.valid(),
        b.position != o.position,
    ensures
        r.0 as int == pull(*b, *o, 0),
        r.1 as int == pull(*b, *o, 1),
        r.2 as int == pull(*b, *o, 2),
        -PULL_BOUND <= r.0 <= PULL_BOUND,
        -PULL_BOUND <= r.1 <= PULL_BOUND,
        -PULL_BOUND <= r.2 <= PULL_BOUND,
{
    let dx: i128 = o.position.x as i128 - b.position.x as i128;
    let dy: i128 = o.position.y as i128 - b.position.y as i128;
    let dz: i128 = o.position.z as i128 - b.position.z as i128;
    assert(dx * dx <= 0x4_0000_0000_0000_0000 && dy * dy <= 0x4_0000_0000_0000_0000
        && dz * dz <= 0x4_0000_0000_0000_0000 && dx * dx >= 0 && dy * dy >= 0 && dz * dz >= 0)
        by (nonlinear_arith)
        requires
            -0x2_0000_0000 <= dx <= 0x2_0000_0000,
            -0x2_0000_0000 <= dy <= 0x2_0000_0000,
            -0x2_0000_0000 <= dz <= 0x2_0000_0000,
    ;
    let n2: i128 = dx * dx + dy * dy + dz * dz;
    let len: u128 = isqrt(n2 as u128);
    assert(len <= 0x4_0000_0000) by (nonlinear_arith)
        requires
            len * len <= n2,
            n2 <= 0xc_0000_0000_0000_0000,
            len >= 0,
    ;
    let len: i128 = len as i128;
    proof {
        lemma_pull_bound(*b, *o, 0, len as int);
        lemma_pull_bound(*b, *o, 1, len as int);
        lemma_pull_bound(*b, *o, 2, len as int);
    }
    assert(n2 * len <= 0x30_0000_0000_0000_0000_0000_0000) by (nonlinear_arith)
        requires
            0 <= n2 <= 0xc_0000_0000_0000_0000,
            0 <= len <= 0x4_0000_0000,
    ;
    let den: i128 = n2 * len;
    let m: i128 = GRAVITY as i128 * o.mass as i128;
    assert(m * ONE * ONE <= 0x8_0000_0000_0000) by (nonlinear_arith)
        requires
            0 < m <= LIMIT,
    ;
    assert(den > 0) by (nonlinear_arith)
        requires
            n2 >= 1,
            len >= 1,
            den == n2 * len,
    ;
    let px = quot_exec(k_times(m, dx), den);
    let py = quot_exec(k_times(m, dy), den);
    let pz = quot_exec(k_times(m, dz), den);
    (px, py, pz)
}

/// `m * d * ONE * ONE`, for a mass and a displacement on the grid.
fn k_times(m: i128, d: i128) -> (r: i128)
    requires
        0 < m <= LIMIT,
        -0x2_0000_0000 <= d <= 0x2_0000_0000,
    ensures
        r == m * d * ONE * ONE,
        r > i128::MIN,
{
    assert(-0x10_0000_0000_0000_0000_0000 <= m * d * ONE * ONE <= 0x10_0000_0000_0000_0000_0000)
        by (nonlinear_arith)
        requires
            0 < m <= LIMIT,
            -0x2_0000_0000 <= d <= 0x2_0000_0000,
    ;
    assert(-0x1_0000_0000_0000_0000_0000 <= m * d <= 0x1_0000_0000_0000_0000_0000) by (nonlinear_arith)
        requires
            0 < m <= LIMIT,
            -0x2_0000_0000 <= d <= 0x2_0000_0000,
    ;
    m * d * ONE as i128 * ONE as i128
}

/// The acceleration that the bodies of `bodies` other than `b` give `b`.
fn total_pull_exec(bodies: &Vec<Body>, b: &Body) -> (r: (i128, i128, i128))
    requires
        all_valid(bodies@),
        b.valid(),
        apart_from(bodies@, *b),
    ensures
        r.0 as int == total_pull(bodies@, *b, 0),
        r.1 as int == total_pull(bodies@, *b, 1),
        r.2 as int == total_pull(bodies@, *b, 2),
        -(bodies@.len() * PULL_BOUND) <= r.0 <= bodies@.len() * PULL_BOUND,
        -(bodies@.len() * PULL_BOUND) <= r.1 <= bodies@.len() * PULL_BOUND,
        -(bodies@.len() * PULL_BOUND) <= r.2 <= bodies@.len() * PULL_BOUND,
{
    let n = bodies.len();
    let mut ax: i128 = 0;
    let mut ay: i128 = 0;
    let mut az: i128 = 0;
    let mut j: usize = 0;
    while j < n
        invariant
            n == bodies@.len(),
            j <= n,
            all_valid(bodies@),
            b.valid(),
            apart_from(bodies@, *b),
            ax as int == total_pull(bodies@.subrange(0, j as int), *b, 0),
            ay as int == total_pull(bodies@.subrange(0, j as int), *b, 1),
            az as int == total_pull(bodies@.subrange(0, j as int), *b, 2),
            -(j * PULL_BOUND) <= ax <= j * PULL_BOUND,
            -(j * PULL_BOUND) <= ay <= j * PULL_BOUND,
            -(j * PULL_BOUND) <= az <= j * PULL_BOUND,
        decreases n - j,
    {
        let o = &bodies[j];
        assert(bodies@.subrange(0, j + 1).drop_last() =~= bodies@.subrange(0, j as int));
        if o.id != b.id {
            assert(!coincide(*b, bodies@[j as int]));
            assert(bodies@[j as int].valid());
            let (px, py, pz) = pull_exec(b, o);
            ax = ax + px;
            ay = ay + py;
            az = az + pz;
        }
        j += 1;
    }
    assert(bodies@.subrange(0, n as int) =~= bodies@);
    (ax, ay, az)
}

/// The velocity that the pull of `bodies` over `dt` gives `b`, if it lies within the
/// grid's bounds.
fn pulled_velocity(bodies: &Vec<Body>, b: &Body, dt: i64) -> (r: Option<Vec3>)
    requires
        all_valid(bodies@),
        b.valid(),
        apart_from(bodies@, *b),
        0 <= dt <= LIMIT,
    ensures
        r == (if pull_fits(bodies@, *b, dt as int) {
            Some(after_gravity(bodies@, *b, dt as int).velocity)
        } else {
            None
        }),
{
    let n = bodies.len();
    assert(n <= 0xffff_ffff_ffff_ffff);
    let (ax, ay, az) = total_pull_exec(bodies, b);
    let x = advance(b.velocity.x, ax, dt);
    let y = advance(b.velocity.y, ay, dt);
    let z = advance(b.velocity.z, az, dt);
    match (x, y, z) {
        (Some(x), Some(y), Some(z)) => Some(Vec3 { x, y, z }),
        _ => None,
    }
}

/// Changes every body's velocity by the pull of all the others over `delta_seconds`.
///
/// All pulls are computed from the positions and masses that the set holds when the
/// call begins. A body that shares its position with another, or whose new velocity
/// would leave the grid's bounds, keeps its velocity; the result says, for each body
/// in order, why it was skipped, if it was. The other bodies are not affected.
pub fn apply_gravity(bodies: &mut Vec<Body>, delta_seconds: i64) -> (r: Vec<Option<TickError>>)
    requires
        all_valid(old(bodies)@),
        0 <= delta_seconds <= LIMIT,
    ensures
        r@ == gravity_report(old(bodies)@, delta_seconds as int),
        final(bodies)@ == gravity_step(old(bodies)@, delta_seconds as int),
{
    let ghost s = bodies@;
    let n = bodies.len();
    let mut next: Vec<Body> = Vec::new();
    let mut report: Vec<Option<TickError>> = Vec::new();
    let mut i: usize = 0;
    while i < n
        invariant
            bodies@ == s,
            n == s.len(),
            i <= n,
            all_valid(s),
            0 <= delta_seconds <= LIMIT,
            next@.len() == i,
            report@.len() == i,
            forall|k: int| 0 <= k < i ==> #[trigger] next@[k] == gravity_body(s, s[k], delta_seconds as int),
            forall|k: int| 0 <= k < i ==> #[trigger] report@[k] == gravity_skip(s, s[k], delta_seconds as int),
        decreases n - i,
    {
        let b = bodies[i];
        assert(b.valid());
        if !apart_exec(bodies, &b) {
            next.push(b);
            report.push(Some(TickError::Coincident));
        } else {
            match pulled_velocity(bodies, &b, delta_seconds) {
                None => {
                    next.push(b);
                    report.push(Some(TickError::OutOfRange));
                },
                Some(v) => {
                    next.push(Body { velocity: v, ..b });
                    report.push(None);
                },
            }
        }
        i += 1;
    }
    assert(next@ =~= gravity_step(s, delta_seconds as int));
    assert(report@ =~= gravity_report(s, delta_seconds as int));
    *bodies = next;
    report
}

} // verus!
