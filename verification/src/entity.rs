//! Entities: what moves in a world besides its players.

use vstd::prelude::*;
use crate::math::FPos;

verus! {

/// A velocity, in fixed-point units per tick.
#[derive(Clone, Copy, Debug, PartialEq, Eq, Structural)]
pub struct Vec3 {
    pub x: i64,
    pub y: i64,
    pub z: i64,
}

/// What kind of entity it is, by how it behaves.
#[derive(Clone, Copy, Debug, PartialEq, Eq, Structural)]
pub enum Behavior {
    /// Takes damage, and is gone when its health is used up.
    Living { max_health: i64 },
    /// An orb of experience: it holds `count` points and is never gone by
    /// damage.
    ExpOrb { count: i32 },
    /// A block that falls: it is gone once it has landed.
    FallingBlock { landed: bool },
}

/// Where an entity is and how it moves.
#[derive(Clone, Copy, Debug, PartialEq, Eq, Structural)]
pub struct EntityPos {
    pub pos: FPos,
    pub vel: Vec3,
    pub yaw: i64,
    pub pitch: i64,
}

/// An entity.
#[derive(Clone, Copy, Debug, PartialEq, Eq, Structural)]
pub struct Entity {
    /// The id of the entity, which no other entity of its world has.
    pub eid: i32,
    pub pos: EntityPos,
    /// The type of the entity, as the newest version numbers it.
    pub ty: u32,
    /// The health, in fixed point.
    pub health: i64,
    pub behavior: Behavior,
}

impl Behavior {
    /// The health that an entity of this kind starts with.
    pub open spec fn spec_max_health(self) -> i64 {
        match self {
            Behavior::Living { max_health } => max_health,
            _ => 0,
        }
    }

    /// Whether an entity of this kind with this health is gone.
    pub open spec fn spec_should_despawn(self, health: i64) -> bool {
        match self {
            Behavior::Living { .. } => health <= 0,
            Behavior::ExpOrb { .. } => false,
            Behavior::FallingBlock { landed } => landed,
        }
    }

    /// The experience that an entity of this kind holds.
    pub open spec fn spec_exp_count(self) -> i32 {
        match self {
            Behavior::ExpOrb { count } => count,
            _ => 0,
        }
    }

    pub fn max_health(self) -> (h: i64)
        ensures
            h == self.spec_max_health(),
    {
        match self {
            Behavior::Living { max_health } => max_health,
            _ => 0,
        }
    }
}

impl EntityPos {
    /// At `pos`, at rest, looking along yaw 0.
    pub fn new(pos: FPos) -> (p: EntityPos)
        ensures
            p == (EntityPos { pos, vel: Vec3 { x: 0, y: 0, z: 0 }, yaw: 0, pitch: 0 }),
    {
        EntityPos { pos, vel: Vec3 { x: 0, y: 0, z: 0 }, yaw: 0, pitch: 0 }
    }
}

impl Entity {
    /// An entity of type `ty` that lives: it starts with 20 health.
    pub fn new(eid: i32, ty: u32, pos: FPos) -> (e: Entity)
        ensures
            e == (Entity {
                eid,
                pos: EntityPos { pos, vel: Vec3 { x: 0, y: 0, z: 0 }, yaw: 0, pitch: 0 },
                ty,
                health: 81920,
                behavior: Behavior::Living { max_health: 81920 },
            }),
    {
        Entity::new_custom(eid, ty, pos, Behavior::Living { max_health: 81920 })
    }

    /// An entity that behaves as `behavior` says; it starts with the health
    /// of that behaviour.
    pub fn new_custom(eid: i32, ty: u32, pos: FPos, behavior: Behavior) -> (e: Entity)
        ensures
            e == (Entity {
                eid,
                pos: EntityPos { pos, vel: Vec3 { x: 0, y: 0, z: 0 }, yaw: 0, pitch: 0 },
                ty,
                health: behavior.spec_max_health(),
                behavior,
            }),
    {
        Entity { eid, pos: EntityPos::new(pos), ty, health: behavior.max_health(), behavior }
    }

    pub fn pos(&self) -> (p: FPos)
        ensures
            p == self.pos.pos,
    {
        self.pos.pos
    }

    pub fn eid(&self) -> (e: i32)
        ensures
            e == self.eid,
    {
        self.eid
    }

    pub fn ty(&self) -> (t: u32)
        ensures
            t == self.ty,
    {
        self.ty
    }

    pub fn health(&self) -> (h: i64)
        ensures
            h == self.health,
    {
        self.health
    }

    /// Whether the entity is gone: a living one when its health is used up,
    /// a falling block when it has landed, an orb never.
    pub fn should_despawn(&self) -> (r: bool)
        ensures
            r == self.behavior.spec_should_despawn(self.health),
    {
        match self.behavior {
            Behavior::Living { .. } => self.health <= 0,
            Behavior::ExpOrb { .. } => false,
            Behavior::FallingBlock { landed } => landed,
        }
    }

    /// The experience that the entity holds.
    pub fn exp_count(&self) -> (n: i32)
        ensures
            n == self.behavior.spec_exp_count(),
    {
        match self.behavior {
            Behavior::ExpOrb { count } => count,
            _ => 0,
        }
    }

    /// Sets the velocity of the entity.
    pub fn set_vel(&mut self, vel: Vec3)
        ensures
            *final(self) == (Entity { pos: EntityPos { vel, ..old(self).pos }, ..*old(self) }),
    {
        self.pos.vel = vel;
    }
}

} // verus!
