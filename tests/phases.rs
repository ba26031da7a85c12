use planets::body::{all_valid_exec, find_coincident, Body, TickError, Vec3};
use planets::collision::resolve_collisions_and_move;
use planets::fixed::{advance, isqrt, quot_exec, LIMIT, ONE};
use planets::gravity::apply_gravity;
use planets::tick::tick;

fn v(x: i64, y: i64, z: i64) -> Vec3 {
    Vec3 { x, y, z }
}

fn body(id: u64, mass: i64, radius: i64, position: Vec3, velocity: Vec3) -> Body {
    Body { id, mass, radius, position, velocity }
}

fn clear(n: usize) -> Vec<Option<TickError>> {
    vec![None; n]
}

fn at_rest(id: u64, mass: i64, position: Vec3) -> Body {
    body(id, mass, ONE / 10, position, v(0, 0, 0))
}

#[test]
fn two_bodies_pull_each_other() {
    // 10 and 20 units of mass, 10 units apart, half a unit of time.
    let mut bodies = vec![at_rest(1, 10 * ONE, v(0, 0, 0)), at_rest(2, 20 * ONE, v(10 * ONE, 0, 0))];
    assert_eq!(apply_gravity(&mut bodies, ONE / 2), clear(bodies.len()));
    // G * 20 / 10^2 * 0.5 = 0.1 units, G * 10 / 10^2 * 0.5 = 0.05 units.
    assert_eq!(bodies[0].velocity, v(100, 0, 0));
    assert_eq!(bodies[1].velocity, v(-50, 0, 0));
    assert_eq!(bodies[0].position, v(0, 0, 0));
    assert_eq!(bodies[1].position, v(10 * ONE, 0, 0));
}

#[test]
fn two_bodies_pull_along_a_diagonal() {
    // 3-4-5 triangle: distance 5 units, mass 25 units, one unit of time.
    let mut bodies = vec![at_rest(1, ONE, v(0, 0, 0)), at_rest(2, 25 * ONE, v(3 * ONE, 0, 4 * ONE))];
    assert_eq!(apply_gravity(&mut bodies, ONE), clear(bodies.len()));
    // |a| = 25 / 25 = 1 unit, directed (0.6, 0, 0.8).
    assert_eq!(bodies[0].velocity, v(600, 0, 800));
}

#[test]
fn symmetric_ring_cancels_at_centre() {
    let r = 10 * ONE;
    let m = 5 * ONE;
    let mut bodies = vec![
        at_rest(1, m, v(r, 0, 0)),
        at_rest(2, m, v(-r, 0, 0)),
        at_rest(3, m, v(0, 0, r)),
        at_rest(4, m, v(0, 0, -r)),
        at_rest(5, m, v(0, 0, 0)),
    ];
    assert_eq!(apply_gravity(&mut bodies, ONE), clear(bodies.len()));
    assert_eq!(bodies[4].velocity, v(0, 0, 0));
    // The ring bodies are pulled inward, each by the same amount.
    assert!(bodies[0].velocity.x < 0);
    assert_eq!(bodies[0].velocity.x, -bodies[1].velocity.x);
    assert_eq!(bodies[2].velocity.z, bodies[0].velocity.x);
    assert_eq!(bodies[3].velocity.z, -bodies[0].velocity.x);
}

#[test]
fn pulls_add_up() {
    let a = at_rest(1, ONE, v(0, 0, 0));
    let b = at_rest(2, 20 * ONE, v(10 * ONE, 0, 0));
    let c = at_rest(3, 40 * ONE, v(0, 0, -20 * ONE));
    let mut all = vec![a, b, c];
    let mut ab = vec![a, b];
    let mut ac = vec![a, c];
    assert_eq!(apply_gravity(&mut all, ONE), clear(all.len()));
    assert_eq!(apply_gravity(&mut ab, ONE), clear(ab.len()));
    assert_eq!(apply_gravity(&mut ac, ONE), clear(ac.len()));
    assert_eq!(ab[0].velocity, v(200, 0, 0));
    assert_eq!(ac[0].velocity, v(0, 0, -100));
    assert_eq!(all[0].velocity, v(200, 0, -100));
}

#[test]
fn head_on_collision_reflects() {
    let mut bodies = vec![
        body(1, ONE, ONE, v(0, 0, 0), v(2000, 0, 0)),
        body(2, ONE, ONE, v(1500, 0, 0), v(-2000, 0, 0)),
    ];
    assert_eq!(resolve_collisions_and_move(&mut bodies, 100), clear(bodies.len()));
    // Reversed along the normal and damped by 0.995.
    assert_eq!(bodies[0].velocity, v(-1990, 0, 0));
    assert_eq!(bodies[1].velocity, v(1990, 0, 0));
    assert_eq!(bodies[0].position, v(-199, 0, 0));
    assert_eq!(bodies[1].position, v(1699, 0, 0));
}

#[test]
fn head_on_tick_reflects_after_gravity() {
    let mut bodies = vec![
        body(1, ONE, ONE, v(0, 0, 0), v(2000, 0, 0)),
        body(2, ONE, ONE, v(1500, 0, 0), v(-2000, 0, 0)),
    ];
    assert_eq!(tick(&mut bodies, 100), (clear(bodies.len()), clear(bodies.len())));
    // Gravity first adds 44 to each approach speed, then the reflection reverses it.
    assert_eq!(bodies[0].velocity, v(-2033, 0, 0));
    assert_eq!(bodies[1].velocity, v(2033, 0, 0));
    assert_eq!(bodies[0].position, v(-203, 0, 0));
    assert_eq!(bodies[1].position, v(1703, 0, 0));
}

#[test]
fn oblique_collision_keeps_tangential_part() {
    let mut bodies = vec![
        body(1, ONE, ONE, v(0, 0, 0), v(1000, 0, 1000)),
        body(2, ONE, ONE, v(1000, 0, 0), v(0, 0, 0)),
    ];
    assert_eq!(resolve_collisions_and_move(&mut bodies, 0), clear(bodies.len()));
    assert_eq!(bodies[0].velocity, v(-995, 0, 995));
    // The other body was at rest: reflecting zero gives zero.
    assert_eq!(bodies[1].velocity, v(0, 0, 0));
}

#[test]
fn multiple_overlaps_reflect_in_turn() {
    let mut bodies = vec![
        body(1, ONE, ONE, v(0, 0, 0), v(1000, 0, 0)),
        body(2, ONE, ONE, v(1000, 0, 0), v(0, 0, 0)),
        body(3, ONE, ONE, v(0, 0, 1000), v(0, 0, 0)),
    ];
    assert_eq!(resolve_collisions_and_move(&mut bodies, 0), clear(bodies.len()));
    // Off body 2: (-995, 0, 0); off body 3 the x part is untouched: (-990, 0, 0).
    assert_eq!(bodies[0].velocity, v(-990, 0, 0));
}

#[test]
fn zero_time_step_keeps_velocities() {
    let before = vec![
        body(1, 3 * ONE, ONE, v(0, 0, 0), v(5, -7, 9)),
        body(2, 8 * ONE, ONE, v(4 * ONE, 2 * ONE, 0), v(-1, 0, 3)),
        body(3, ONE, ONE, v(-ONE, 0, 6 * ONE), v(0, 0, 0)),
    ];
    let mut bodies = before.clone();
    assert_eq!(apply_gravity(&mut bodies, 0), clear(bodies.len()));
    assert_eq!(bodies, before);
}

#[test]
fn no_overlap_only_moves() {
    let mut bodies = vec![
        body(1, ONE, ONE, v(0, 0, 0), v(1000, -2000, 3)),
        body(2, ONE, ONE, v(10 * ONE, 0, 0), v(-500, 0, 0)),
    ];
    assert_eq!(resolve_collisions_and_move(&mut bodies, 500), clear(bodies.len()));
    assert_eq!(bodies[0].velocity, v(1000, -2000, 3));
    assert_eq!(bodies[1].velocity, v(-500, 0, 0));
    assert_eq!(bodies[0].position, v(500, -1000, 1));
    assert_eq!(bodies[1].position, v(10 * ONE - 250, 0, 0));
}

#[test]
fn ticks_are_repeatable() {
    let start = vec![
        body(1, 7 * ONE, ONE, v(0, 0, 0), v(10, 0, 0)),
        body(2, 3 * ONE, ONE / 2, v(4 * ONE, ONE, 0), v(0, -20, 0)),
        body(3, 9 * ONE, 2 * ONE, v(-3 * ONE, 0, 2 * ONE), v(0, 0, 5)),
    ];
    let mut first = start.clone();
    let mut second = start.clone();
    for _ in 0..20 {
        assert_eq!(tick(&mut first, 16), (clear(first.len()), clear(first.len())));
        assert_eq!(tick(&mut second, 16), (clear(second.len()), clear(second.len())));
    }
    assert_eq!(first, second);
    assert_ne!(first, start);
}

#[test]
fn coincident_bodies_are_skipped() {
    // Two bodies of mass 8 stacked 2 units from a lone body.
    let before = vec![
        at_rest(1, ONE, v(0, 0, 0)),
        at_rest(2, 8 * ONE, v(2 * ONE, 0, 0)),
        at_rest(3, 8 * ONE, v(2 * ONE, 0, 0)),
    ];
    let stacked = vec![None, Some(TickError::Coincident), Some(TickError::Coincident)];
    let mut bodies = before.clone();
    assert_eq!(apply_gravity(&mut bodies, ONE), stacked);
    // The lone body still gets its pull: 2 * 8 / 2^2 = 4 units.
    assert_eq!(bodies[0].velocity, v(4 * ONE, 0, 0));
    assert_eq!(bodies[1], before[1]);
    assert_eq!(bodies[2], before[2]);
    assert_eq!(resolve_collisions_and_move(&mut bodies, ONE), stacked);
    assert_eq!(bodies[0].position, v(4 * ONE, 0, 0));
    assert_eq!(bodies[1], before[1]);
    assert_eq!(bodies[2], before[2]);
    let mut again = before.clone();
    assert_eq!(tick(&mut again, ONE), (stacked.clone(), stacked));
    assert_eq!(again, bodies);
}

#[test]
fn same_identity_is_skipped() {
    // Two entries of one identity never act on each other, even when they coincide.
    let mut bodies = vec![at_rest(7, ONE, v(0, 0, 0)), at_rest(7, ONE, v(0, 0, 0))];
    assert!(!find_coincident(&bodies));
    assert_eq!(tick(&mut bodies, ONE), (clear(bodies.len()), clear(bodies.len())));
    assert_eq!(bodies[0].velocity, v(0, 0, 0));
}

#[test]
fn empty_and_single_sets() {
    let mut none: Vec<Body> = Vec::new();
    assert_eq!(tick(&mut none, ONE), (clear(none.len()), clear(none.len())));
    assert!(none.is_empty());
    let mut one = vec![body(1, ONE, ONE, v(0, 0, 0), v(3000, 0, -1000))];
    assert_eq!(tick(&mut one, ONE), (clear(one.len()), clear(one.len())));
    assert_eq!(one[0].velocity, v(3000, 0, -1000));
    assert_eq!(one[0].position, v(3000, 0, -1000));
}

#[test]
fn velocity_beyond_bounds_is_skipped() {
    let before = vec![
        body(1, ONE, ONE, v(0, 0, 0), v(LIMIT, 0, 0)),
        at_rest(2, 1000 * ONE, v(ONE, 0, 0)),
    ];
    let mut bodies = before.clone();
    assert_eq!(apply_gravity(&mut bodies, ONE), vec![Some(TickError::OutOfRange), None]);
    assert_eq!(bodies[0], before[0]);
    assert_eq!(bodies[1].velocity, v(-ONE, 0, 0));
}

#[test]
fn position_beyond_bounds_is_skipped() {
    let before = vec![
        body(1, ONE, ONE, v(LIMIT - 10, 0, 0), v(ONE, 0, 0)),
        body(2, ONE, ONE, v(0, 0, 0), v(5, 0, 0)),
    ];
    let mut bodies = before.clone();
    assert_eq!(resolve_collisions_and_move(&mut bodies, ONE), vec![Some(TickError::OutOfRange), None]);
    assert_eq!(bodies[0], before[0]);
    assert_eq!(bodies[1].position, v(5, 0, 0));
}

#[test]
fn skipped_body_does_not_hold_back_others() {
    let a = body(1, ONE, ONE, v(0, 0, 0), v(2 * ONE, 0, 0));
    let far = body(2, ONE, ONE, v(LIMIT, 0, 0), v(0, 0, 0));
    let mut calm = vec![a, far];
    let mut fleeing = vec![a, Body { velocity: v(LIMIT, 0, 0), ..far }];
    assert_eq!(resolve_collisions_and_move(&mut calm, ONE), clear(2));
    assert_eq!(resolve_collisions_and_move(&mut fleeing, ONE), vec![None, Some(TickError::OutOfRange)]);
    assert_eq!(calm[0], fleeing[0]);
    assert_eq!(calm[0].position, v(2 * ONE, 0, 0));
}

#[test]
fn huge_pull_with_zero_time_changes_nothing() {
    let mut bodies = vec![at_rest(1, LIMIT, v(0, 0, 0)), at_rest(2, LIMIT, v(1, 0, 0))];
    assert_eq!(apply_gravity(&mut bodies, 0), clear(bodies.len()));
    assert_eq!(bodies[0].velocity, v(0, 0, 0));
    let out = Some(TickError::OutOfRange);
    assert_eq!(apply_gravity(&mut bodies, 1), vec![out, out]);
    assert_eq!(bodies[0].velocity, v(0, 0, 0));
}

#[test]
fn coincidence_detection() {
    assert!(!find_coincident(&Vec::new()));
    assert!(!find_coincident(&vec![at_rest(1, ONE, v(1, 2, 3)), at_rest(2, ONE, v(1, 2, 4))]));
    assert!(find_coincident(&vec![at_rest(1, ONE, v(1, 2, 3)), at_rest(2, ONE, v(1, 2, 3))]));
}

#[test]
fn integer_square_roots() {
    assert_eq!(isqrt(0), 0);
    assert_eq!(isqrt(1), 1);
    assert_eq!(isqrt(99), 9);
    assert_eq!(isqrt(100), 10);
    assert_eq!(isqrt(3 * (1u128 << 64)), 7_439_101_573);
}

#[test]
fn quotients_round_toward_zero() {
    assert_eq!(quot_exec(7, 2), 3);
    assert_eq!(quot_exec(-7, 2), -3);
    assert_eq!(quot_exec(0, 5), 0);
}

#[test]
fn advancing_values() {
    assert_eq!(advance(0, 1500, 1000), Some(1500));
    assert_eq!(advance(10, -1999, 1), Some(9));
    assert_eq!(advance(LIMIT, 1000, 1000), None);
    assert_eq!(advance(5, i128::MAX / 1024, 0), Some(5));
}

#[test]
fn validity_checks() {
    assert!(at_rest(1, ONE, v(0, 0, 0)).is_valid());
    assert!(!at_rest(1, 0, v(0, 0, 0)).is_valid());
    assert!(!body(1, ONE, 0, v(0, 0, 0), v(0, 0, 0)).is_valid());
    assert!(!at_rest(1, ONE, v(0, LIMIT + 1, 0)).is_valid());
    assert!(!body(1, ONE, ONE, v(0, 0, 0), v(0, 0, -LIMIT - 1)).is_valid());
    assert!(all_valid_exec(&vec![at_rest(1, ONE, v(0, 0, 0)), at_rest(2, LIMIT, v(LIMIT, -LIMIT, 0))]));
    assert!(!all_valid_exec(&vec![at_rest(1, ONE, v(0, 0, 0)), at_rest(2, -5, v(0, 0, 0))]));
}

#[test]
fn gravity_ignores_other_velocities() {
    let a = at_rest(1, ONE, v(0, 0, 0));
    let b = at_rest(2, 20 * ONE, v(10 * ONE, 0, 0));
    let mut still = vec![a, b];
    let mut moving = vec![a, Body { velocity: v(-1000, 5, 9), radius: 3 * ONE, ..b }];
    assert_eq!(apply_gravity(&mut still, ONE), clear(still.len()));
    assert_eq!(apply_gravity(&mut moving, ONE), clear(moving.len()));
    assert_eq!(still[0], moving[0]);
}

#[test]
fn reflection_ignores_other_velocity() {
    let a = body(1, ONE, ONE, v(0, 0, 0), v(2000, 0, 0));
    let b = body(2, ONE, ONE, v(1500, 0, 0), v(0, 0, 0));
    let mut resting = vec![a, b];
    let mut rushing = vec![a, Body { velocity: v(-3000, 0, 0), mass: 50 * ONE, ..b }];
    assert_eq!(resolve_collisions_and_move(&mut resting, 10), clear(resting.len()));
    assert_eq!(resolve_collisions_and_move(&mut rushing, 10), clear(rushing.len()));
    assert_eq!(resting[0], rushing[0]);
    assert_eq!(resting[0].velocity, v(-1990, 0, 0));
}

#[test]
fn head_on_reflection_rounds_toward_zero() {
    let mut bodies = vec![
        body(1, ONE, ONE, v(0, 0, 0), v(-7, 0, 0)),
        body(2, ONE, ONE, v(ONE, 0, 0), v(0, 0, 0)),
    ];
    assert_eq!(resolve_collisions_and_move(&mut bodies, 0), clear(bodies.len()));
    // 7 * 0.995 = 6.965, kept as 6.
    assert_eq!(bodies[0].velocity, v(6, 0, 0));
}

#[test]
fn zero_time_step_with_coincident_bodies() {
    let before = vec![
        body(1, ONE, ONE, v(0, 0, 0), v(5, 0, 0)),
        body(2, ONE, ONE, v(0, 0, 0), v(0, 6, 0)),
        body(3, ONE, ONE, v(9 * ONE, 0, 0), v(0, 0, 7)),
    ];
    let mut bodies = before.clone();
    assert_eq!(
        apply_gravity(&mut bodies, 0),
        vec![Some(TickError::Coincident), Some(TickError::Coincident), None]
    );
    assert_eq!(bodies, before);
}
