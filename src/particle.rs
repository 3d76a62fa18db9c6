use vstd::prelude::*;

use crate::fixed::sat;

verus! {

/// A 2D vector of fixed-point coordinates.
#[derive(Clone, Copy, PartialEq, Eq, Structural, Debug)]
pub struct Vec2 {
    pub x: i64,
    pub y: i64,
}

impl Vec2 {
    pub fn new(x: i64, y: i64) -> (r: Vec2)
        ensures
            r.x == x,
            r.y == y,
    {
        Vec2 { x, y }
    }

    pub fn zero() -> (r: Vec2)
        ensures
            r.x == 0,
            r.y == 0,
    {
        Vec2 { x: 0, y: 0 }
    }

    /// Component-wise sum, saturating at the range of `i64`.
    pub fn saturating_add(self, o: Vec2) -> (r: Vec2)
        ensures
            r == sat_add(self, o),
    {
        Vec2 {
            x: crate::fixed::saturate(self.x as i128 + o.x as i128),
            y: crate::fixed::saturate(self.y as i128 + o.y as i128),
        }
    }
}

pub open spec fn vec2(x: int, y: int) -> Vec2 {
    Vec2 { x: sat(x) as i64, y: sat(y) as i64 }
}

pub open spec fn sat_add(a: Vec2, b: Vec2) -> Vec2 {
    vec2(a.x + b.x, a.y + b.y)
}

/// Tag of the particles of the simulation.
#[derive(Clone, Copy, PartialEq, Eq, Structural, Debug)]
pub struct ParticleMarker;

/// Index of a particle's group.
#[derive(Clone, Copy, PartialEq, Eq, Structural, Debug)]
pub struct GroupId(pub usize);

#[derive(Clone, Copy, PartialEq, Eq, Structural, Debug)]
pub struct Velocity(pub Vec2);

#[derive(Clone, Copy, PartialEq, Eq, Structural, Debug)]
pub struct Position(pub Vec2);

/// One particle of the store.
#[derive(Clone, Copy, PartialEq, Eq, Structural, Debug)]
pub struct Particle {
    pub particle_marker: ParticleMarker,
    pub velocity: Velocity,
    pub position: Position,
    pub group_id: GroupId,
}

impl Particle {
    /// A particle at rest.
    pub fn new(position: Position, group_id: GroupId) -> (r: Particle)
        ensures
            r.position == position,
            r.group_id == group_id,
            r.velocity.0 == Vec2::zero_spec(),
    {
        Particle {
            particle_marker: ParticleMarker,
            velocity: Velocity(Vec2::zero()),
            position,
            group_id,
        }
    }
}

impl Vec2 {
    pub open spec fn zero_spec() -> Vec2 {
        Vec2 { x: 0, y: 0 }
    }
}

} // verus!
