//! One simulation tick: the gravity phase, then the collision phase.

use vstd::prelude::*;
use crate::fixed::LIMIT;
use crate::body::{Body, TickError, all_valid};
use crate::gravity::{gravity_report, gravity_step, apply_gravity};
use crate::collision::{collision_report, collision_step, resolve_collisions_and_move};

verus! {

/// The body set after a tick over `dt`: the gravity phase, then the collision phase
/// on the set that it left.
pub open spec fn tick_step(s: Seq<Body>, dt: int) -> Seq<Body> {
    collision_step(gravity_step(s, dt), dt)
}

/// The gravity phase leaves every body valid.
pub proof fn lemma_gravity_keeps_valid(s: Seq<Body>, dt: int)
    requires
        all_valid(s),
    ensures
        all_valid(gravity_step(s, dt)),
{
    assert forall|i: int| 0 <= i < s.len() implies #[trigger] gravity_step(s, dt)[i].valid() by {
        assert(s[i].valid());
    }
}

/// Runs the gravity phase, then the collision phase, over `delta_seconds`, and returns
/// what each phase reports of the bodies it skipped.
pub fn tick(bodies: &mut Vec<Body>, delta_seconds: i64) -> (r: (Vec<Option<TickError>>, Vec<Option<TickError>>))
    requires
        all_valid(old(bodies)@),
        0 <= delta_seconds <= LIMIT,
    ensures
        r.0@ == gravity_report(old(bodies)@, delta_seconds as int),
        r.1@ == collision_report(gravity_step(old(bodies)@, delta_seconds as int), delta_seconds as int),
        final(bodies)@ == tick_step(old(bodies)@, delta_seconds as int),
{
    let ghost s = bodies@;
    let pulled = apply_gravity(bodies, delta_seconds);
    proof {
        lemma_gravity_keeps_valid(s, delta_seconds as int);
    }
    let moved = resolve_collisions_and_move(bodies, delta_seconds);
    (pulled, moved)
}

} // verus!
