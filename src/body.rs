use vstd::prelude::*;
use crate::geometry::{Vec3i, in_world, clamp_edge, step_coord, WORLD_EDGE};

verus! {

/// An axis-aligned box that moves with a fixed velocity.
#[derive(Clone, Copy, Debug, PartialEq, Eq, Structural)]
pub struct Body {
    pub position: Vec3i,
    pub half_extents: Vec3i,
    /// Micrometres per millisecond.
    pub velocity: Vec3i,
    /// Kinematic-moving when true; a static body keeps its position.
    pub moving: bool,
}

/// A hostile unit.
#[derive(Clone, Copy, Debug, PartialEq, Eq, Structural)]
pub struct Target {
    pub id: u64,
    pub speed: i64,
    pub health: i64,
    pub body: Body,
}

/// A projectile in flight.
#[derive(Clone, Copy, Debug, PartialEq, Eq, Structural)]
pub struct Bullet {
    pub id: u64,
    /// The offset from the muzzle to the target at firing time.
    pub direction: Vec3i,
    pub speed: i64,
    /// Milliseconds left before the bullet is cleaned up.
    pub lifetime: u64,
    pub body: Body,
}

/// The physical make-up shared by every moving entity: a box, a velocity that starts
/// at zero, and kinematic motion.
#[derive(Clone, Copy, Debug, PartialEq, Eq, Structural)]
pub struct PhysicsBundle {
    pub half_extents: Vec3i,
    pub velocity: Vec3i,
    pub moving: bool,
}

/// The physics part of the simulation, as a unit that a host registers.
#[derive(Clone, Copy, Debug, Default)]
pub struct PhysicsPlugin;

impl PhysicsBundle {
    /// A kinematic body template whose box has the given full size.
    pub fn moving_entity(size: Vec3i) -> (r: PhysicsBundle)
        requires
            size.x >= 0,
            size.y >= 0,
            size.z >= 0,
        ensures
            r.half_extents.x == size.x / 2,
            r.half_extents.y == size.y / 2,
            r.half_extents.z == size.z / 2,
            r.velocity == (Vec3i { x: 0, y: 0, z: 0 }),
            r.moving,
    {
        PhysicsBundle {
            half_extents: Vec3i { x: size.x / 2, y: size.y / 2, z: size.z / 2 },
            velocity: Vec3i { x: 0, y: 0, z: 0 },
            moving: true,
        }
    }
}

impl Body {
    pub open spec fn wf(self) -> bool {
        &&& in_world(self.position)
        &&& in_world(self.velocity)
        &&& 0 <= self.half_extents.x <= WORLD_EDGE
        &&& 0 <= self.half_extents.y <= WORLD_EDGE
        &&& 0 <= self.half_extents.z <= WORLD_EDGE
    }

    /// The body after `dt` milliseconds: a moving body goes by `velocity * dt`, held to
    /// the world cube; a static one stays.
    pub open spec fn advanced(self, dt: u64) -> Body {
        if self.moving {
            Body {
                position: Vec3i {
                    x: clamp_edge(self.position.x + self.velocity.x * dt) as i64,
                    y: clamp_edge(self.position.y + self.velocity.y * dt) as i64,
                    z: clamp_edge(self.position.z + self.velocity.z * dt) as i64,
                },
                ..self
            }
        } else {
            self
        }
    }

    pub fn advance(&mut self, dt: u64)
        requires
            old(self).wf(),
        ensures
            *final(self) == old(self).advanced(dt),
            final(self).wf(),
    {
        if self.moving {
            let x = step_coord(self.position.x, self.velocity.x, dt);
            let y = step_coord(self.position.y, self.velocity.y, dt);
            let z = step_coord(self.position.z, self.velocity.z, dt);
            self.position = Vec3i { x, y, z };
        }
    }
}

impl Target {
    pub open spec fn wf(self) -> bool {
        self.body.wf()
    }

    pub open spec fn advanced(self, dt: u64) -> Target {
        Target { body: self.body.advanced(dt), ..self }
    }

    /// The target after `hits` hits of one point each, saturating at the least `i64`.
    pub open spec fn damaged(self, hits: int) -> Target {
        Target {
            health: if self.health - hits < i64::MIN {
                i64::MIN
            } else {
                (self.health - hits) as i64
            },
            ..self
        }
    }
}

impl Bullet {
    pub open spec fn wf(self) -> bool {
        self.body.wf()
    }

    pub open spec fn advanced(self, dt: u64) -> Bullet {
        Bullet { body: self.body.advanced(dt), ..self }
    }

    /// The bullet with `dt` milliseconds taken off its lifetime.
    pub open spec fn aged(self, dt: u64) -> Bullet {
        Bullet { lifetime: (self.lifetime - dt) as u64, ..self }
    }

    /// Whether this bullet's box meets the target's box.
    pub open spec fn hits(self, t: Target) -> bool {
        crate::geometry::boxes_overlap(
            self.body.position,
            self.body.half_extents,
            t.body.position,
            t.body.half_extents,
        )
    }

    pub fn hits_target(&self, t: &Target) -> (r: bool)
        requires
            self.wf(),
            t.wf(),
        ensures
            r == self.hits(*t),
    {
        crate::geometry::overlaps(
            self.body.position,
            self.body.half_extents,
            t.body.position,
            t.body.half_extents,
        )
    }
}

} // verus!
