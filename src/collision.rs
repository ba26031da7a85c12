//! The collision resolver and position integrator: overlapping spheres reflect
//! their velocities, then every body moves.

use vstd::prelude::*;
use crate::fixed::{in_range, quot, advanced, quot_exec, advance, LIMIT};
use crate::body::{Vec3, Body, TickError, axis, all_valid, coincide, apart_from, apart_exec};
use crate::gravity::{offset, sq_dist};

verus! {

/// A reflection keeps `DAMPING_NUM / DAMPING_DEN` of the speed.
pub const DAMPING_NUM: i64 = 199;

pub const DAMPING_DEN: i64 = 200;

/// `b` and `o` are distinct and their spheres overlap.
pub open spec fn overlaps(b: Body, o: Body) -> bool {
    &&& b.id != o.id
    &&& sq_dist(b.position, o.position) < (b.radius + o.radius) * (b.radius + o.radius)
}

/// Dot product of `v` with the displacement from `b` to `o`.
pub open spec fn dot_offset(v: Vec3, b: Body, o: Body) -> int {
    v.x * offset(b, o, 0) + v.y * offset(b, o, 1) + v.z * offset(b, o, 2)
}

/// Component `a` of `v` reflected about the direction from `b` to `o` and damped:
/// `(v - 2 (v . n) n) * DAMPING_NUM / DAMPING_DEN` with `n = d / |d|`, rounded toward zero.
pub open spec fn reflected(v: Vec3, b: Body, o: Body, a: int) -> int {
    let n2 = sq_dist(b.position, o.position);
    quot(
        (axis(v, a) * n2 - 2 * dot_offset(v, b, o) * offset(b, o, a)) * DAMPING_NUM,
        DAMPING_DEN * n2,
    )
}

pub open spec fn reflect_fits(v: Vec3, b: Body, o: Body) -> bool {
    &&& in_range(reflected(v, b, o, 0))
    &&& in_range(reflected(v, b, o, 1))
    &&& in_range(reflected(v, b, o, 2))
}

pub open spec fn reflect(v: Vec3, b: Body, o: Body) -> Vec3 {
    Vec3 {
        x: reflected(v, b, o, 0) as i64,
        y: reflected(v, b, o, 1) as i64,
        z: reflected(v, b, o, 2) as i64,
    }
}

/// `b`'s velocity after reflecting, in order, off every body of `s` that it overlaps;
/// `None` if some reflection leaves the grid's bounds.
pub open spec fn bounce(s: Seq<Body>, b: Body) -> Option<Vec3>
    decreases s.len(),
{
    if s.len() == 0 {
        Some(b.velocity)
    } else {
        match bounce(s.drop_last(), b) {
            None => None,
            Some(v) => if !overlaps(b, s.last()) {
                Some(v)
            } else if reflect_fits(v, b, s.last()) {
                Some(reflect(v, b, s.last()))
            } else {
                None
            },
        }
    }
}

/// `p` moved at velocity `v` for `dt`.
pub open spec fn moved_point(p: Vec3, v: Vec3, dt: int) -> Vec3 {
    Vec3 {
        x: advanced(p.x as int, v.x as int, dt) as i64,
        y: advanced(p.y as int, v.y as int, dt) as i64,
        z: advanced(p.z as int, v.z as int, dt) as i64,
    }
}

pub open spec fn move_fits(p: Vec3, v: Vec3, dt: int) -> bool {
    &&& in_range(advanced(p.x as int, v.x as int, dt))
    &&& in_range(advanced(p.y as int, v.y as int, dt))
    &&& in_range(advanced(p.z as int, v.z as int, dt))
}

/// `b` after its reflections off the bodies of `s` and its move over `dt`; `None` if a
/// reflection or the new position leaves the grid's bounds.
pub open spec fn resolved(s: Seq<Body>, b: Body, dt: int) -> Option<Body> {
    match bounce(s, b) {
        None => None,
        Some(v) => if move_fits(b.position, v, dt) {
            Some(Body { velocity: v, position: moved_point(b.position, v, dt), ..b })
        } else {
            None
        },
    }
}

/// Why the collision phase leaves `b` as it is, if it does: `b` shares its position
/// with another body, so the direction of a reflection is undefined, or a reflection or
/// the new position would leave the grid's bounds.
pub open spec fn collision_skip(s: Seq<Body>, b: Body, dt: int) -> Option<TickError> {
    if !apart_from(s, b) {
        Some(TickError::Coincident)
    } else if resolved(s, b, dt) is None {
        Some(TickError::OutOfRange)
    } else {
        None
    }
}

/// `b` after the collision phase on `s`.
pub open spec fn collision_body(s: Seq<Body>, b: Body, dt: int) -> Body {
    if collision_skip(s, b, dt) is None {
        resolved(s, b, dt)->Some_0
    } else {
        b
    }
}

/// For each body of `s`, why the collision phase skips it, if it does.
pub open spec fn collision_report(s: Seq<Body>, dt: int) -> Seq<Option<TickError>> {
    Seq::new(s.len(), |i: int| collision_skip(s, s[i], dt))
}

/// The body set after the collision phase: each body is resolved on its own against
/// the set as it stood before the phase.
pub open spec fn collision_step(s: Seq<Body>, dt: int) -> Seq<Body> {
    Seq::new(s.len(), |i: int| collision_body(s, s[i], dt))
}

/// Whether `b` and `o` overlap.
fn overlaps_exec(b: &Body, o: &Body) -> (r: bool)
    requires
        b.valid(),
        o.valid(),
    ensures
        r == overlaps(*b, *o),
{
    if b.id == o.id {
        return false;
    }
    let dx: i128 = o.position.x as i128 - b.position.x as i128;
    let dy: i128 = o.position.y as i128 - b.position.y as i128;
    let dz: i128 = o.position.z as i128 - b.position.z as i128;
    assert(dx * dx <= 0x4_0000_0000_0000_0000 && dy * dy <= 0x4_0000_0000_0000_0000
        && dz * dz <= 0x4_0000_0000_0000_0000) by (nonlinear_arith)
        requires
            -0x2_0000_0000 <= dx <= 0x2_0000_0000,
            -0x2_0000_0000 <= dy <= 0x2_0000_0000,
            -0x2_0000_0000 <= dz <= 0x2_0000_0000,
    ;
    assert(dx * dx >= 0 && dy * dy >= 0 && dz * dz >= 0) by (nonlinear_arith);
    let n2: i128 = dx * dx + dy * dy + dz * dz;
    let reach: i128 = b.radius as i128 + o.radius as i128;
    assert(reach * reach <= 0x4_0000_0000_0000_0000) by (nonlinear_arith)
        requires
            0 < reach <= 0x2_0000_0000,
    ;
    n2 < reach * reach
}

/// `(va * n2 - 2 * dv * da) * DAMPING_NUM / (DAMPING_DEN * n2)`, rounded toward zero.
fn reflect_axis(va: i128, n2: i128, dv: i128, da: i128) -> (r: i128)
    requires
        -0x8000_0000 <= va <= 0x8000_0000,
        1 <= n2 <= 0xc_0000_0000_0000_0000,
        -0x10_0000_0000_0000_0000 <= dv <= 0x10_0000_0000_0000_0000,
        -0x2_0000_0000 <= da <= 0x2_0000_0000,
    ensures
        r as int == quot((va * n2 - 2 * dv * da) * DAMPING_NUM, DAMPING_DEN * n2),
{
    assert(-0x8_0000_0000_0000_0000_0000_0000 <= va * n2 <= 0x8_0000_0000_0000_0000_0000_0000)
        by (nonlinear_arith)
        requires
            -0x8000_0000 <= va <= 0x8000_0000,
            1 <= n2 <= 0xc_0000_0000_0000_0000,
    ;
    assert(-0x40_0000_0000_0000_0000_0000_0000 <= 2 * dv * da <= 0x40_0000_0000_0000_0000_0000_0000)
        by (nonlinear_arith)
        requires
            -0x10_0000_0000_0000_0000 <= dv <= 0x10_0000_0000_0000_0000,
            -0x2_0000_0000 <= da <= 0x2_0000_0000,
    ;
    assert(-0x2_0000_0000_0000_0000_0000_0000_0000 <= (va * n2 - 2 * dv * da) * DAMPING_NUM
        <= 0x2_0000_0000_0000_0000_0000_0000_0000) by (nonlinear_arith)
        requires
            -0x48_0000_0000_0000_0000_0000_0000 <= va * n2 - 2 * dv * da <= 0x48_0000_0000_0000_0000_0000_0000,
    ;
    let num: i128 = (va * n2 - 2 * dv * da) * DAMPING_NUM as i128;
    let den: i128 = DAMPING_DEN as i128 * n2;
    quot_exec(num, den)
}

/// `v` reflected off `o` as `b` sees it, if the result lies within the grid's bounds.
fn reflect_exec(v: Vec3, b: &Body, o: &Body) -> (r: Option<Vec3>)
    requires
        v.in_range(),
        b.valid(),
        o.valid(),
        b.position != o.position,
    ensures
        r == (if reflect_fits(v, *b, *o) {
            Some(reflect(v, *b, *o))
        } else {
            None
        }),
{
    let dx: i128 = o.position.x as i128 - b.position.x as i128;
    let dy: i128 = o.position.y as i128 - b.position.y as i128;
    let dz: i128 = o.position.z as i128 - b.position.z as i128;
    assert(dx * dx <= 0x4_0000_0000_0000_0000 && dy * dy <= 0x4_0000_0000_0000_0000
        && dz * dz <= 0x4_0000_0000_0000_0000) by (nonlinear_arith)
        requires
            -0x2_0000_0000 <= dx <= 0x2_0000_0000,
            -0x2_0000_0000 <= dy <= 0x2_0000_0000,
            -0x2_0000_0000 <= dz <= 0x2_0000_0000,
    ;
    assert(dx * dx >= 0 && dy * dy >= 0 && dz * dz >= 0) by (nonlinear_arith);
    assert(dx != 0 || dy != 0 || dz != 0);
    assert(dx * dx + dy * dy + dz * dz >= 1) by (nonlinear_arith)
        requires
            dx != 0 || dy != 0 || dz != 0,
    ;
    let n2: i128 = dx * dx + dy * dy + dz * dz;
    let vx: i128 = v.x as i128;
    let vy: i128 = v.y as i128;
    let vz: i128 = v.z as i128;
    assert(-0x4_0000_0000_0000_0000 <= vx * dx <= 0x4_0000_0000_0000_0000
        && -0x4_0000_0000_0000_0000 <= vy * dy <= 0x4_0000_0000_0000_0000
        && -0x4_0000_0000_0000_0000 <= vz * dz <= 0x4_0000_0000_0000_0000) by (nonlinear_arith)
        requires
            -0x8000_0000 <= vx <= 0x8000_0000,
            -0x8000_0000 <= vy <= 0x8000_0000,
            -0x8000_0000 <= vz <= 0x8000_0000,
            -0x2_0000_0000 <= dx <= 0x2_0000_0000,
            -0x2_0000_0000 <= dy <= 0x2_0000_0000,
            -0x2_0000_0000 <= dz <= 0x2_0000_0000,
    ;
    let dv: i128 = vx * dx + vy * dy + vz * dz;
    let rx = reflect_axis(vx, n2, dv, dx);
    let ry = reflect_axis(vy, n2, dv, dy);
    let rz = reflect_axis(vz, n2, dv, dz);
    let lim: i128 = LIMIT as i128;
    if rx < -lim || rx > lim || ry < -lim || ry > lim || rz < -lim || rz > lim {
        None
    } else {
        Some(Vec3 { x: rx as i64, y: ry as i64, z: rz as i64 })
    }
}

/// `b`'s velocity after its reflections off the bodies of `bodies`.
fn bounce_exec(bodies: &Vec<Body>, b: &Body) -> (r: Option<Vec3>)
    requires
        all_valid(bodies@),
        b.valid(),
        apart_from(bodies@, *b),
    ensures
        r == bounce(bodies@, *b),
{
    let n = bodies.len();
    let mut cur: Option<Vec3> = Some(b.velocity);
    let mut j: usize = 0;
    while j < n
        invariant
            n == bodies@.len(),
            j <= n,
            all_valid(bodies@),
            b.valid(),
            apart_from(bodies@, *b),
            cur == bounce(bodies@.subrange(0, j as int), *b),
            cur matches Some(v) ==> v.in_range(),
        decreases n - j,
    {
        assert(bodies@.subrange(0, j + 1).drop_last() =~= bodies@.subrange(0, j as int));
        assert(bodies@[j as int].valid());
        let o = &bodies[j];
        match cur {
            None => {},
            Some(v) => {
                if overlaps_exec(b, o) {
                    assert(!coincide(*b, bodies@[j as int]));
                    cur = reflect_exec(v, b, o);
                }
            },
        }
        j += 1;
    }
    assert(bodies@.subrange(0, n as int) =~= bodies@);
    cur
}

/// `b` after its reflections off the bodies of `bodies` and its move over `dt`.
fn resolved_exec(bodies: &Vec<Body>, b: &Body, dt: i64) -> (r: Option<Body>)
    requires
        all_valid(bodies@),
        b.valid(),
        apart_from(bodies@, *b),
        0 <= dt <= LIMIT,
    ensures
        r == resolved(bodies@, *b, dt as int),
{
    match bounce_exec(bodies, b) {
        None => None,
        Some(v) => {
            let x = advance(b.position.x, v.x as i128, dt);
            let y = advance(b.position.y, v.y as i128, dt);
            let z = advance(b.position.z, v.z as i128, dt);
            match (x, y, z) {
                (Some(x), Some(y), Some(z)) => Some(Body { velocity: v, position: Vec3 { x, y, z }, ..*b }),
                _ => None,
            }
        },
    }
}

/// Reflects the velocity of every body that overlaps another, then moves every body
/// by its velocity over `delta_seconds`.
///
/// Overlaps are tested on the positions that the set holds when the call begins; a
/// body that overlaps several others reflects off each in turn, in the set's order.
/// Only the body itself reflects: the other one reflects when its own turn comes. A
/// body that shares its position with another, or whose reflections or new position
/// would leave the grid's bounds, is left as it is; the result says, for each body in
/// order, why it was skipped, if it was. The other bodies are not affected.
pub fn resolve_collisions_and_move(bodies: &mut Vec<Body>, delta_seconds: i64) -> (r: Vec<Option<TickError>>)
    requires
        all_valid(old(bodies)@),
        0 <= delta_seconds <= LIMIT,
    ensures
        r@ == collision_report(old(bodies)@, delta_seconds as int),
        final(bodies)@ == collision_step(old(bodies)@, delta_seconds as int),
{
    let ghost s = bodies@;
    let n = bodies.len();
    let mut next: Vec<Body> = Vec::new();
    let mut report: Vec<Option<TickError>> = Vec::new();
    let mut i: usize = 0;
    while i < n
        invariant
            bodies@ == s,
            n == s.len(),
            i <= n,
            all_valid(s),
            0 <= delta_seconds <= LIMIT,
            next@.len() == i,
            report@.len() == i,
            forall|k: int| 0 <= k < i ==> #[trigger] next@[k] == collision_body(s, s[k], delta_seconds as int),
            forall|k: int| 0 <= k < i ==> #[trigger] report@[k] == collision_skip(s, s[k], delta_seconds as int),
        decreases n - i,
    {
        let b = bodies[i];
        assert(b.valid());
        if !apart_exec(bodies, &b) {
            next.push(b);
            report.push(Some(TickError::Coincident));
        } else {
            match resolved_exec(bodies, &b, delta_seconds) {
                None => {
                    next.push(b);
                    report.push(Some(TickError::OutOfRange));
                },
                Some(c) => {
                    next.push(c);
                    report.push(None);
                },
            }
        }
        i += 1;
    }
    assert(next@ =~= collision_step(s, delta_seconds as int));
    assert(report@ =~= collision_report(s, delta_seconds as int));
    *bodies = next;
    report
}

} // verus!
