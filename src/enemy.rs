//! Enemies: they pursue the ship, take hits, and are eliminated when their
//! hit points run out.
use vstd::prelude::*;
use crate::collision::Actor;
use rand::Rng;
use crate::geometry::{
    Point, Direction, in_arena, root, scale, between, isqrt, scale_i64, lemma_scale_bound,
    lemma_scale_shrinks, ARENA_WIDTH, ARENA_HEIGHT,
};
use crate::ship::ShipActor;

verus! {

/// Speed of an enemy, in sub-units per tick.
pub const VELOCITY: i64 = 200;

/// Hit points of a fresh enemy.
pub const HITPOINTS: i64 = 5;

/// Relies on rand's `thread_rng()` and `Rng::gen_range`: a value in
/// `[low, high)`; `gen_range` panics when `low >= high`.
#[verifier::external_body]
fn random_in(low: i64, high: i64) -> (r: i64)
    requires
        low < high,
    ensures
        low <= r < high,
{
    rand::thread_rng().gen_range(low, high)
}

/// An enemy. Its heading is the offset from its position to the point it
/// pursues; the offset `(0, 0)` means it is not pursuing anything yet.
#[derive(Clone, Copy, Debug, PartialEq, Eq, Structural)]
pub struct EnemyActor {
    pub pos: Point,
    pub heading: Direction,
    pub deltav: i64,
    /// Signed, so that several hits in one tick may take it below zero.
    pub hitpoints: i64,
}

/// `p` moved toward `p + h` by `v`, stopping at `p + h` when that is no
/// farther than `v`; components are rounded toward zero.
pub open spec fn stepped(p: Point, h: Direction, v: int) -> Point {
    let len = root(h.x * h.x + h.y * h.y);
    if len <= v {
        Point { x: (p.x + h.x) as i64, y: (p.y + h.y) as i64 }
    } else {
        Point { x: (p.x + scale(h.x as int, v, len)) as i64, y: (p.y + scale(h.y as int, v, len)) as i64 }
    }
}

impl EnemyActor {
    /// Well-formed: inside the arena, pursuing a point at most an arena
    /// away, at a speed no more than an arena width per tick.
    pub open spec fn wf(self) -> bool {
        &&& in_arena(self.pos)
        &&& -ARENA_WIDTH <= self.heading.x <= ARENA_WIDTH
        &&& -ARENA_HEIGHT <= self.heading.y <= ARENA_HEIGHT
        &&& 0 <= self.deltav <= ARENA_WIDTH
    }

    /// The enemy turned to pursue `target`.
    pub open spec fn faced(self, target: Point) -> EnemyActor {
        EnemyActor { heading: Direction { x: (target.x - self.pos.x) as i64, y: (target.y - self.pos.y) as i64 }, ..self }
    }

    /// The enemy after one tick of pursuit along its heading.
    pub open spec fn advanced(self) -> EnemyActor {
        EnemyActor { pos: stepped(self.pos, self.heading, self.deltav as int), ..self }
    }

    /// The enemy after one hit.
    pub open spec fn struck(self) -> EnemyActor {
        EnemyActor { hitpoints: (self.hitpoints - 1) as i64, ..self }
    }

    /// A fresh enemy at `(pos_x, pos_y)` with the given heading.
    pub fn new(pos_x: i64, pos_y: i64, heading: Direction) -> (r: EnemyActor)
        ensures
            r.pos == (Point { x: pos_x, y: pos_y }),
            r.heading == heading,
            r.deltav == VELOCITY,
            r.hitpoints == HITPOINTS,
    {
        EnemyActor { pos: Point { x: pos_x, y: pos_y }, heading: heading, deltav: VELOCITY, hitpoints: HITPOINTS }
    }

    /// A fresh enemy at a random place in the arena, not yet pursuing.
    pub fn spawn() -> (r: EnemyActor)
        ensures
            0 <= r.pos.x < ARENA_WIDTH,
            0 <= r.pos.y < ARENA_HEIGHT,
            r.heading == (Direction { x: 0, y: 0 }),
            r.deltav == VELOCITY,
            r.hitpoints == HITPOINTS,
            r.wf(),
    {
        let x = random_in(0, ARENA_WIDTH);
        let y = random_in(0, ARENA_HEIGHT);
        EnemyActor::new(x, y, Direction { x: 0, y: 0 })
    }

    /// Turns the enemy to pursue the ship.
    pub fn face_player(&mut self, ship: &ShipActor)
        requires
            i64::MIN <= ship.pos.x - old(self).pos.x <= i64::MAX,
            i64::MIN <= ship.pos.y - old(self).pos.y <= i64::MAX,
        ensures
            *final(self) == old(self).faced(ship.pos),
    {
        self.heading = Direction { x: ship.pos.x - self.pos.x, y: ship.pos.y - self.pos.y };
    }

    /// Takes one hit.
    pub fn hit(&mut self)
        requires
            old(self).hitpoints > i64::MIN,
        ensures
            *final(self) == old(self).struck(),
    {
        self.hitpoints -= 1;
    }

    /// Whether the enemy's hit points have run out.
    pub fn is_eliminated(&self) -> (r: bool)
        ensures
            r == (self.hitpoints <= 0),
    {
        self.hitpoints <= 0
    }

    /// One tick of pursuit: move along the heading by the enemy's speed,
    /// stopping at the pursued point. The new position lies between the
    /// old one and the pursued point on each axis.
    pub fn advance(&mut self)
        requires
            old(self).wf(),
        ensures
            *final(self) == old(self).advanced(),
            between(old(self).pos.x as int, final(self).pos.x as int, old(self).pos.x + old(self).heading.x),
            between(old(self).pos.y as int, final(self).pos.y as int, old(self).pos.y + old(self).heading.y),
    {
        let hx = self.heading.x;
        let hy = self.heading.y;
        assert(0 <= hx * hx <= 640_000_000_000) by (nonlinear_arith)
            requires
                -800_000 <= hx <= 800_000,
        ;
        assert(0 <= hy * hy <= 360_000_000_000) by (nonlinear_arith)
            requires
                -600_000 <= hy <= 600_000,
        ;
        let n: u64 = (hx * hx + hy * hy) as u64;
        let len = isqrt(n);
        assert(len <= 1_000_000) by (nonlinear_arith)
            requires
                len * len <= n,
                n <= 1_000_000_000_000,
                len >= 0,
        ;
        if len <= self.deltav as u64 {
            self.pos = Point { x: self.pos.x + hx, y: self.pos.y + hy };
        } else {
            assert(-(len as int) <= hx <= len && -(len as int) <= hy <= len) by (nonlinear_arith)
                requires
                    hx * hx + hy * hy < (len + 1) * (len + 1),
                    len >= 0,
            ;
            proof {
                lemma_scale_bound(hx as int, self.deltav as int, len as int);
                lemma_scale_bound(hy as int, self.deltav as int, len as int);
                lemma_scale_shrinks(hx as int, self.deltav as int, len as int);
                lemma_scale_shrinks(hy as int, self.deltav as int, len as int);
            }
            let dx = scale_i64(hx, self.deltav, len as i64);
            let dy = scale_i64(hy, self.deltav, len as i64);
            self.pos = Point { x: self.pos.x + dx, y: self.pos.y + dy };
        }
    }
}

impl Actor for EnemyActor {
    open spec fn position(&self) -> Point {
        self.pos
    }

    /// The enemy's position.
    fn get_position(&self) -> (r: Point) {
        self.pos
    }
}

} // verus!
