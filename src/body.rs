//! Bodies: point masses with a radius, a position and a velocity.

use vstd::prelude::*;
use crate::fixed::{in_range, LIMIT};

verus! {

/// A vector of the grid: each component counts grid steps.
#[derive(Clone, Copy, Debug, PartialEq, Eq, Structural)]
pub struct Vec3 {
    pub x: i64,
    pub y: i64,
    pub z: i64,
}

/// One simulated sphere.
#[derive(Clone, Copy, Debug, PartialEq, Eq, Structural)]
pub struct Body {
    /// Identity, unique among the live bodies.
    pub id: u64,
    pub mass: i64,
    pub radius: i64,
    pub position: Vec3,
    pub velocity: Vec3,
}

/// Why a phase left a body as it was.
#[derive(Clone, Copy, Debug, PartialEq, Eq, Structural)]
pub enum TickError {
    /// Two distinct bodies share a position: the direction between them is undefined,
    /// so the acceleration or reflection that they cause has no finite value.
    Coincident,
    /// A velocity or position computed by the phase would leave the grid's bounds.
    OutOfRange,
}

/// Component `a` of `v` (0, 1 or 2 for x, y or z).
pub open spec fn axis(v: Vec3, a: int) -> int {
    if a == 0 {
        v.x as int
    } else if a == 1 {
        v.y as int
    } else {
        v.z as int
    }
}

impl Vec3 {
    pub open spec fn in_range(self) -> bool {
        in_range(self.x as int) && in_range(self.y as int) && in_range(self.z as int)
    }
}

impl Body {
    /// Mass and radius are positive; every quantity lies within the grid's bounds.
    pub open spec fn valid(self) -> bool {
        &&& 0 < self.mass <= LIMIT
        &&& 0 < self.radius <= LIMIT
        &&& self.position.in_range()
        &&& self.velocity.in_range()
    }
}

impl Body {
    /// Whether the body is valid.
    pub fn is_valid(&self) -> (r: bool)
        ensures
            r == self.valid(),
    {
        let lim = LIMIT;
        0 < self.mass && self.mass <= lim && 0 < self.radius && self.radius <= lim
            && -lim <= self.position.x && self.position.x <= lim
            && -lim <= self.position.y && self.position.y <= lim
            && -lim <= self.position.z && self.position.z <= lim
            && -lim <= self.velocity.x && self.velocity.x <= lim
            && -lim <= self.velocity.y && self.velocity.y <= lim
            && -lim <= self.velocity.z && self.velocity.z <= lim
    }
}

/// Whether every body of the set is valid.
pub fn all_valid_exec(bodies: &Vec<Body>) -> (r: bool)
    ensures
        r == all_valid(bodies@),
{
    let n = bodies.len();
    let mut i: usize = 0;
    while i < n
        invariant
            n == bodies@.len(),
            i <= n,
            forall|k: int| 0 <= k < i ==> #[trigger] bodies@[k].valid(),
        decreases n - i,
    {
        if !bodies[i].is_valid() {
            return false;
        }
        i += 1;
    }
    true
}

pub open spec fn all_valid(s: Seq<Body>) -> bool {
    forall|i: int| 0 <= i < s.len() ==> #[trigger] s[i].valid()
}

/// Two distinct bodies at the same position.
pub open spec fn coincide(a: Body, b: Body) -> bool {
    a.id != b.id && a.position == b.position
}

/// Some body of `s` shares its position with another body of `s`.
pub open spec fn has_coincident(s: Seq<Body>) -> bool {
    exists|i: int, j: int|
        0 <= i < s.len() && 0 <= j < s.len() && #[trigger] coincide(s[i], s[j])
}

/// No body of `s` other than `b` itself stands where `b` stands.
pub open spec fn apart_from(s: Seq<Body>, b: Body) -> bool {
    forall|j: int| 0 <= j < s.len() ==> !#[trigger] coincide(b, s[j])
}

/// Whether no body of the set other than `b` itself stands where `b` stands.
pub fn apart_exec(bodies: &Vec<Body>, b: &Body) -> (r: bool)
    ensures
        r == apart_from(bodies@, *b),
{
    let n = bodies.len();
    let mut j: usize = 0;
    while j < n
        invariant
            n == bodies@.len(),
            j <= n,
            forall|q: int| 0 <= q < j ==> !#[trigger] coincide(*b, bodies@[q]),
        decreases n - j,
    {
        if bodies[j].id != b.id && bodies[j].position == b.position {
            assert(coincide(*b, bodies@[j as int]));
            return false;
        }
        j += 1;
    }
    true
}

/// Whether two distinct bodies of the set share a position.
pub fn find_coincident(bodies: &Vec<Body>) -> (r: bool)
    ensures
        r == has_coincident(bodies@),
{
    let n = bodies.len();
    let mut i: usize = 0;
    while i < n
        invariant
            n == bodies@.len(),
            i <= n,
            forall|p: int, q: int| 0 <= p < i && 0 <= q < n ==> !#[trigger] coincide(bodies@[p], bodies@[q]),
        decreases n - i,
    {
        let mut j: usize = 0;
        while j < n
            invariant
                n == bodies@.len(),
                i < n,
                j <= n,
                forall|p: int, q: int| 0 <= p < i && 0 <= q < n ==> !#[trigger] coincide(bodies@[p], bodies@[q]),
                forall|q: int| 0 <= q < j ==> !#[trigger] coincide(bodies@[i as int], bodies@[q]),
            decreases n - j,
        {
            if bodies[i].id != bodies[j].id && bodies[i].position == bodies[j].position {
                assert(coincide(bodies@[i as int], bodies@[j as int]));
                return true;
            }
            j += 1;
        }
        i += 1;
    }
    false
}

} // verus!
