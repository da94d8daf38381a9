//! Player-fired projectiles: they keep the heading they were fired with and
//! speed up by a constant factor every tick.
use vstd::prelude::*;
use crate::collision::Actor;
use crate::geometry::{
    Point, Direction, in_arena, bounded_direction, moved, move_point, ARENA_WIDTH, ARENA_HEIGHT,
};
use crate::ship::ShipActor;

verus! {

/// A projectile.
#[derive(Clone, Copy, Debug, PartialEq, Eq, Structural)]
pub struct ProjectileActor {
    pub pos: Point,
    pub heading: Direction,
    pub deltav: i64,
}

/// Drawn length of a projectile, in sub-units.
pub const PROJECTILE_LENGTH: i64 = 30_000;

/// Speed of a projectile when fired, in sub-units per tick.
pub const VELOCITY: i64 = 1_000;

/// Per-tick speed factor, as a fraction.
pub const ACCELERATION_NUM: i64 = 6;

pub const ACCELERATION_DEN: i64 = 5;

/// Speed at which acceleration stops. A projectile this fast crosses the
/// whole arena (diagonal 1000 units) in one tick, so the cap is never seen
/// on screen.
pub const MAX_SPEED: i64 = 2_000_000;

/// Speed after one tick of acceleration.
pub open spec fn accelerated(v: int) -> int {
    if v * (ACCELERATION_NUM as int) / (ACCELERATION_DEN as int) > MAX_SPEED {
        MAX_SPEED as int
    } else {
        v * (ACCELERATION_NUM as int) / (ACCELERATION_DEN as int)
    }
}

impl ProjectileActor {
    /// Well-formed: a bounded heading and a speed between launch speed and cap.
    pub open spec fn wf(self) -> bool {
        bounded_direction(self.heading) && VELOCITY <= self.deltav <= MAX_SPEED
    }

    /// The projectile after one tick of flight.
    pub open spec fn advanced(self) -> ProjectileActor {
        ProjectileActor {
            pos: moved(self.pos, self.heading, self.deltav as int),
            heading: self.heading,
            deltav: accelerated(self.deltav as int) as i64,
        }
    }

    /// A projectile fired by `ship`: at the ship's position, with its heading.
    pub open spec fn fired_by(ship: ShipActor) -> ProjectileActor {
        ProjectileActor { pos: ship.pos, heading: ship.heading, deltav: VELOCITY }
    }

    /// A projectile leaving `ship` at launch speed.
    pub fn new(ship: &ShipActor) -> (r: ProjectileActor)
        ensures
            r == ProjectileActor::fired_by(*ship),
    {
        ProjectileActor { pos: ship.pos, heading: ship.heading, deltav: VELOCITY }
    }

    /// Whether the projectile is still inside the arena.
    pub fn in_bounds(&self) -> (r: bool)
        ensures
            r == in_arena(self.pos),
    {
        self.pos.x <= ARENA_WIDTH && self.pos.x >= 0 && self.pos.y <= ARENA_HEIGHT && self.pos.y >= 0
    }

    /// One tick of flight: move along the heading at the current speed, then
    /// speed up.
    pub fn advance(&mut self)
        requires
            old(self).wf(),
            in_arena(old(self).pos),
        ensures
            *final(self) == old(self).advanced(),
            final(self).wf(),
            old(self).pos.x - MAX_SPEED <= final(self).pos.x <= old(self).pos.x + MAX_SPEED,
            old(self).pos.y - MAX_SPEED <= final(self).pos.y <= old(self).pos.y + MAX_SPEED,
    {
        self.pos = move_point(self.pos, self.heading, self.deltav);
        let v = self.deltav * ACCELERATION_NUM / ACCELERATION_DEN;
        self.deltav = if v > MAX_SPEED { MAX_SPEED } else { v };
    }
}

impl Actor for ProjectileActor {
    open spec fn position(&self) -> Point {
        self.pos
    }

    /// The projectile's position.
    fn get_position(&self) -> (r: Point) {
        self.pos
    }
}

} // verus!
