//! The simulation step: one tick moves the ship, the projectiles and the
//! enemies, detects hits, deals damage, and removes what left the arena or
//! was eliminated.
use vstd::prelude::*;
use crate::geometry::{in_arena, between, Point, Direction, ARENA_WIDTH, ARENA_HEIGHT};
use crate::ship::{ShipActor, InputIntent, DEFAULT_POS_X, DEFAULT_POS_Y};
use crate::projectile::ProjectileActor;
use crate::enemy::{EnemyActor, VELOCITY as ENEMY_VELOCITY, HITPOINTS};
use crate::collision::{is_hit, reports_hits, strikes, detect_hits_indexed, apply_damage};

verus! {

/// Number of distinct projectiles among `0..n` that hit enemy `j`.
pub open spec fn hit_count(ps: Seq<ProjectileActor>, es: Seq<EnemyActor>, j: int, n: int) -> int
    decreases n,
{
    if n <= 0 {
        0
    } else {
        hit_count(ps, es, j, n - 1) + (if is_hit(ps, es, ((n - 1) as usize, j as usize)) { 1int } else { 0int })
    }
}

/// The ship after its part of a tick, before firing.
pub open spec fn ship_moved(ship: ShipActor, intent: InputIntent, now: u64) -> ShipActor {
    let s0 = if intent.burst_release { ship.burst_ended(now).deaccelerated(now) } else { ship };
    s0.advanced(intent, now)
}

/// Whether the moved ship fires this tick.
pub open spec fn fires(ship: ShipActor, intent: InputIntent, now: u64) -> bool {
    intent.fire && ship_moved(ship, intent, now).can_fire(now)
}

/// The ship at the end of a tick.
pub open spec fn ship_after(ship: ShipActor, intent: InputIntent, now: u64) -> ShipActor {
    if fires(ship, intent, now) {
        ship_moved(ship, intent, now).shot_at(now)
    } else {
        ship_moved(ship, intent, now)
    }
}

/// The projectiles after firing and one tick of flight, before culling.
pub open spec fn flown(ps: Seq<ProjectileActor>, ship: ShipActor, intent: InputIntent, now: u64) -> Seq<ProjectileActor> {
    let launched = if fires(ship, intent, now) {
        ps.push(ProjectileActor::fired_by(ship_moved(ship, intent, now)))
    } else {
        ps
    };
    launched.map_values(|p: ProjectileActor| p.advanced())
}

/// The enemies after one tick of pursuit of `target`; eliminated ones stay put.
pub open spec fn chased(es: Seq<EnemyActor>, target: crate::geometry::Point) -> Seq<EnemyActor> {
    es.map_values(|e: EnemyActor| if e.hitpoints <= 0 { e } else { e.faced(target).advanced() })
}

/// The enemies after the damage of the hits by `ps`.
pub open spec fn struck(ps: Seq<ProjectileActor>, es: Seq<EnemyActor>) -> Seq<EnemyActor> {
    es.map(|j: int, e: EnemyActor| e.damaged(hit_count(ps, es, j, ps.len() as int)))
}

/// The enemies of a tick after movement and damage, before removal.
pub open spec fn fought(sim: Simulation, intent: InputIntent, now: u64) -> Seq<EnemyActor> {
    let ps = flown(sim.projectiles@, sim.ship, intent, now);
    struck(ps, chased(sim.enemies@, ship_after(sim.ship, intent, now).pos))
}

/// The enemies of `s` that are still live.
pub open spec fn survivors(s: Seq<EnemyActor>) -> Seq<EnemyActor> {
    s.filter(|e: EnemyActor| e.hitpoints > 0)
}

/// The enemies of `s` that are eliminated.
pub open spec fn casualties(s: Seq<EnemyActor>) -> Seq<EnemyActor> {
    s.filter(|e: EnemyActor| e.hitpoints <= 0)
}

/// The projectiles of `s` still inside the arena.
pub open spec fn inside(s: Seq<ProjectileActor>) -> Seq<ProjectileActor> {
    s.filter(|p: ProjectileActor| in_arena(p.pos))
}

/// Any exact report of the hits deals the damage that `hit_count` gives.
pub proof fn lemma_strikes_count_hits(r: Seq<(usize, usize)>, ps: Seq<ProjectileActor>, es: Seq<EnemyActor>, j: int, n: int)
    requires
        reports_hits(r, ps, es),
    ensures
        strikes(r, j, n) == hit_count(ps, es, j, n),
    decreases n,
{
    if n > 0 {
        lemma_strikes_count_hits(r, ps, es, j, n - 1);
        assert(r.contains(((n - 1) as usize, j as usize)) == is_hit(ps, es, ((n - 1) as usize, j as usize)));
    }
}

/// The whole simulation state.
pub struct Simulation {
    pub ship: ShipActor,
    pub projectiles: Vec<ProjectileActor>,
    pub enemies: Vec<EnemyActor>,
}

impl Simulation {
    /// Well-formed at a tick boundary: a well-formed ship, projectiles
    /// inside the arena, and only live enemies.
    pub open spec fn wf(self) -> bool {
        &&& self.ship.wf()
        &&& forall|i: int| 0 <= i < self.projectiles@.len() ==> (#[trigger] self.projectiles@[i]).wf() && in_arena(
            self.projectiles@[i].pos,
        )
        &&& forall|j: int| 0 <= j < self.enemies@.len() ==> (#[trigger] self.enemies@[j]).wf()
            && self.enemies@[j].hitpoints > 0
    }

    /// Moves and fires the ship.
    fn update_ship(&mut self, intent: &InputIntent, now: u64)
        requires
            old(self).ship.wf(),
        ensures
            final(self).ship == ship_after(old(self).ship, *intent, now),
            final(self).ship.wf(),
            final(self).projectiles@ == (if fires(old(self).ship, *intent, now) {
                old(self).projectiles@.push(ProjectileActor::fired_by(ship_moved(old(self).ship, *intent, now)))
            } else {
                old(self).projectiles@
            }),
            final(self).enemies@ == old(self).enemies@,
    {
        if intent.burst_release {
            self.ship.speedburst_keyup(now);
        }
        self.ship.advance(intent, now);
        self.ship.shoot(&mut self.projectiles, intent.fire, now);
    }

    /// Advances every projectile by one tick of flight.
    fn update_projectiles(&mut self)
        requires
            forall|i: int| 0 <= i < old(self).projectiles@.len() ==> (#[trigger] old(self).projectiles@[i]).wf()
                && in_arena(old(self).projectiles@[i].pos),
        ensures
            final(self).projectiles@ == old(self).projectiles@.map_values(|p: ProjectileActor| p.advanced()),
            forall|i: int| 0 <= i < final(self).projectiles@.len() ==> (#[trigger] final(self).projectiles@[i]).wf(),
            final(self).ship == old(self).ship,
            final(self).enemies@ == old(self).enemies@,
    {
        let ghost ps = self.projectiles@;
        let ghost ship = self.ship;
        let ghost es = self.enemies@;
        let mut i: usize = 0;
        while i < self.projectiles.len()
            invariant
                i <= self.projectiles@.len(),
                self.ship == ship,
                self.enemies@ == es,
                self.projectiles@.len() == ps.len(),
                forall|k: int| 0 <= k < ps.len() ==> (#[trigger] ps[k]).wf() && in_arena(ps[k].pos),
                forall|k: int| 0 <= k < i ==> #[trigger] self.projectiles@[k] == ps[k].advanced() && ps[k].advanced().wf(),
                forall|k: int| i <= k < ps.len() ==> #[trigger] self.projectiles@[k] == ps[k],
            decreases ps.len() - i,
        {
            let mut p = self.projectiles[i];
            p.advance();
            self.projectiles.set(i, p);
            i += 1;
        }
        assert(self.projectiles@ =~= ps.map_values(|p: ProjectileActor| p.advanced()));
    }

    /// Turns every live enemy toward the ship and moves it one tick.
    fn update_enemies(&mut self)
        requires
            old(self).ship.wf(),
            forall|j: int| 0 <= j < old(self).enemies@.len() ==> (#[trigger] old(self).enemies@[j]).wf(),
        ensures
            final(self).enemies@ == chased(old(self).enemies@, old(self).ship.pos),
            forall|j: int| 0 <= j < final(self).enemies@.len() ==> (#[trigger] final(self).enemies@[j]).wf(),
            final(self).ship == old(self).ship,
            final(self).projectiles@ == old(self).projectiles@,
    {
        let ghost es = self.enemies@;
        let ghost ship = self.ship;
        let ghost ps = self.projectiles@;
        let target = self.ship.pos;
        let mut j: usize = 0;
        while j < self.enemies.len()
            invariant
                j <= self.enemies@.len(),
                self.ship == ship,
                self.projectiles@ == ps,
                self.enemies@.len() == es.len(),
                self.ship.wf(),
                target == self.ship.pos,
                forall|k: int| 0 <= k < es.len() ==> (#[trigger] es[k]).wf(),
                forall|k: int| 0 <= k < j ==> #[trigger] self.enemies@[k] == (if es[k].hitpoints <= 0 {
                    es[k]
                } else {
                    es[k].faced(target).advanced()
                }) && self.enemies@[k].wf(),
                forall|k: int| j <= k < es.len() ==> #[trigger] self.enemies@[k] == es[k],
            decreases es.len() - j,
        {
            let mut e = self.enemies[j];
            if !e.is_eliminated() {
                e.face_player(&self.ship);
                let ghost faced = e;
                e.advance();
                assert(between(faced.pos.x as int, e.pos.x as int, target.x as int));
                assert(between(faced.pos.y as int, e.pos.y as int, target.y as int));
            }
            self.enemies.set(j, e);
            j += 1;
        }
        assert(self.enemies@ =~= chased(es, target));
    }

    /// Detects the hits of this tick and deals their damage.
    fn update_collisions(&mut self)
        requires
            forall|j: int| 0 <= j < old(self).enemies@.len() ==> #[trigger] old(self).enemies@[j].hitpoints
                - old(self).projectiles@.len() >= i64::MIN,
        ensures
            final(self).enemies@ == struck(old(self).projectiles@, old(self).enemies@),
            final(self).ship == old(self).ship,
            final(self).projectiles@ == old(self).projectiles@,
    {
        let hits = detect_hits_indexed(&self.projectiles, &self.enemies);
        let ghost es = self.enemies@;
        let n = self.projectiles.len();
        apply_damage(&mut self.enemies, n, &hits);
        proof {
            assert forall|j: int| 0 <= j < es.len() implies strikes(hits@, j, n as int) == hit_count(
                self.projectiles@,
                es,
                j,
                n as int,
            ) by {
                lemma_strikes_count_hits(hits@, self.projectiles@, es, j, n as int);
            }
        }
        assert(self.enemies@ =~= struck(self.projectiles@, es));
    }

    /// Removes the projectiles that left the arena and the enemies that
    /// were eliminated; returns the eliminated enemies.
    fn cull(&mut self) -> (eliminated: Vec<EnemyActor>)
        ensures
            final(self).projectiles@ == inside(old(self).projectiles@),
            final(self).enemies@ == survivors(old(self).enemies@),
            eliminated@ == casualties(old(self).enemies@),
            final(self).ship == old(self).ship,
    {
        let ghost ps = self.projectiles@;
        let ghost es = self.enemies@;
        let mut kept: Vec<ProjectileActor> = Vec::new();
        let mut i: usize = 0;
        while i < self.projectiles.len()
            invariant
                i <= ps.len(),
                self.projectiles@ == ps,
                kept@ == inside(ps.subrange(0, i as int)),
            decreases ps.len() - i,
        {
            let p = self.projectiles[i];
            proof {
                assert(ps.subrange(0, i + 1) =~= ps.subrange(0, i as int).push(p));
                ps.subrange(0, i as int).lemma_filter_push(p, |p: ProjectileActor| in_arena(p.pos));
            }
            if p.in_bounds() {
                kept.push(p);
            }
            i += 1;
        }
        assert(ps.subrange(0, ps.len() as int) =~= ps);
        let mut alive: Vec<EnemyActor> = Vec::new();
        let mut eliminated: Vec<EnemyActor> = Vec::new();
        let mut j: usize = 0;
        while j < self.enemies.len()
            invariant
                j <= es.len(),
                self.enemies@ == es,
                alive@ == survivors(es.subrange(0, j as int)),
                eliminated@ == casualties(es.subrange(0, j as int)),
            decreases es.len() - j,
        {
            let e = self.enemies[j];
            proof {
                assert(es.subrange(0, j + 1) =~= es.subrange(0, j as int).push(e));
                es.subrange(0, j as int).lemma_filter_push(e, |e: EnemyActor| e.hitpoints > 0);
                es.subrange(0, j as int).lemma_filter_push(e, |e: EnemyActor| e.hitpoints <= 0);
            }
            if e.is_eliminated() {
                eliminated.push(e);
            } else {
                alive.push(e);
            }
            j += 1;
        }
        assert(es.subrange(0, es.len() as int) =~= es);
        self.projectiles = kept;
        self.enemies = alive;
        eliminated
    }
}

impl Simulation {
    /// One tick, in this order: the ship moves and may fire; every
    /// projectile flies; every live enemy turns toward the ship and moves;
    /// hits are detected and their damage dealt; then projectiles outside
    /// the arena and eliminated enemies are removed. The eliminated enemies
    /// of this tick are returned.
    pub fn update(&mut self, intent: &InputIntent, now: u64) -> (eliminated: Vec<EnemyActor>)
        requires
            old(self).wf(),
            old(self).projectiles@.len() < i64::MAX,
        ensures
            final(self).wf(),
            final(self).ship == ship_after(old(self).ship, *intent, now),
            final(self).projectiles@ == inside(flown(old(self).projectiles@, old(self).ship, *intent, now)),
            final(self).enemies@ == survivors(fought(*old(self), *intent, now)),
            eliminated@ == casualties(fought(*old(self), *intent, now)),
    {
        let ghost old_self = *self;
        self.update_ship(intent, now);
        self.update_projectiles();
        assert(self.projectiles@ == flown(old_self.projectiles@, old_self.ship, *intent, now));
        self.update_enemies();
        let ghost chased_es = self.enemies@;
        let ghost flown_ps = self.projectiles@;
        assert forall|j: int| 0 <= j < self.enemies@.len() implies #[trigger] self.enemies@[j].hitpoints
            - self.projectiles@.len() >= i64::MIN by {
            assert(old_self.enemies@[j].hitpoints > 0);
        }
        self.update_collisions();
        let ghost fought_es = self.enemies@;
        assert(fought_es == fought(old_self, *intent, now));
        assert forall|j: int| 0 <= j < fought_es.len() implies (#[trigger] fought_es[j]).wf() by {
            assert(chased_es[j].wf());
        }
        let eliminated = self.cull();
        proof {
            lemma_survivors_wf(fought_es);
            lemma_inside_wf(flown_ps);
        }
        eliminated
    }

    /// Adds an enemy at a random place in the arena.
    pub fn spawn_enemy(&mut self)
        requires
            old(self).wf(),
        ensures
            final(self).wf(),
            final(self).ship == old(self).ship,
            final(self).projectiles@ == old(self).projectiles@,
            final(self).enemies@.len() == old(self).enemies@.len() + 1,
            final(self).enemies@.drop_last() == old(self).enemies@,
            0 <= final(self).enemies@.last().pos.x < ARENA_WIDTH,
            0 <= final(self).enemies@.last().pos.y < ARENA_HEIGHT,
            final(self).enemies@.last().heading == (Direction { x: 0, y: 0 }),
            final(self).enemies@.last().deltav == ENEMY_VELOCITY,
            final(self).enemies@.last().hitpoints == HITPOINTS,
    {
        let e = EnemyActor::spawn();
        self.enemies.push(e);
        assert(self.enemies@.drop_last() =~= old(self).enemies@);
    }
}

impl Default for Simulation {
    /// The ship at its starting place at time zero; no projectiles or enemies.
    fn default() -> (r: Simulation)
        ensures
            r.wf(),
            r.ship == ShipActor::placed(Point { x: DEFAULT_POS_X, y: DEFAULT_POS_Y }, 0),
            r.projectiles@.len() == 0,
            r.enemies@.len() == 0,
    {
        Simulation { ship: ShipActor::default(), projectiles: Vec::new(), enemies: Vec::new() }
    }
}

/// Survivors of well-formed enemies are well-formed and live.
proof fn lemma_survivors_wf(f: Seq<EnemyActor>)
    requires
        forall|j: int| 0 <= j < f.len() ==> (#[trigger] f[j]).wf(),
    ensures
        forall|j: int| 0 <= j < survivors(f).len() ==> (#[trigger] survivors(f)[j]).wf() && survivors(f)[j].hitpoints > 0,
{
    let live = |e: EnemyActor| e.hitpoints > 0;
    assert forall|j: int| 0 <= j < survivors(f).len() implies (#[trigger] survivors(f)[j]).wf()
        && survivors(f)[j].hitpoints > 0 by {
        f.lemma_filter_pred(live, j);
        f.lemma_filter_contains_rev(live, f.filter(live)[j]);
        assert(f.filter(live).contains(f.filter(live)[j]));
        let k = choose|k: int| 0 <= k < f.len() && f[k] == f.filter(live)[j];
    }
}

/// Projectiles kept inside the arena stay well-formed.
proof fn lemma_inside_wf(f: Seq<ProjectileActor>)
    requires
        forall|j: int| 0 <= j < f.len() ==> (#[trigger] f[j]).wf(),
    ensures
        forall|j: int| 0 <= j < inside(f).len() ==> (#[trigger] inside(f)[j]).wf() && in_arena(inside(f)[j].pos),
{
    let keep = |p: ProjectileActor| in_arena(p.pos);
    assert forall|j: int| 0 <= j < inside(f).len() implies (#[trigger] inside(f)[j]).wf() && in_arena(
        inside(f)[j].pos,
    ) by {
        f.lemma_filter_pred(keep, j);
        f.lemma_filter_contains_rev(keep, f.filter(keep)[j]);
        assert(f.filter(keep).contains(f.filter(keep)[j]));
        let k = choose|k: int| 0 <= k < f.len() && f[k] == f.filter(keep)[j];
    }
}

/// Hit counts lie between none and every projectile.
pub proof fn lemma_hit_count_bounded(ps: Seq<ProjectileActor>, es: Seq<EnemyActor>, j: int, n: int)
    ensures
        0 <= hit_count(ps, es, j, n),
        n >= 0 ==> hit_count(ps, es, j, n) <= n,
    decreases n,
{
    if n > 0 {
        lemma_hit_count_bounded(ps, es, j, n - 1);
    }
}

/// Damage monotonicity: over a tick, each enemy loses exactly one hit point
/// per distinct projectile that hits it, so its hit points never grow.
pub proof fn lemma_damage_monotone(sim: Simulation, intent: InputIntent, now: u64)
    requires
        sim.wf(),
        sim.projectiles@.len() < i64::MAX,
    ensures
        fought(sim, intent, now).len() == sim.enemies@.len(),
        forall|j: int| 0 <= j < sim.enemies@.len() ==> {
            let ps = flown(sim.projectiles@, sim.ship, intent, now);
            let es = chased(sim.enemies@, ship_after(sim.ship, intent, now).pos);
            &&& #[trigger] fought(sim, intent, now)[j].hitpoints == sim.enemies@[j].hitpoints - hit_count(
                ps,
                es,
                j,
                ps.len() as int,
            )
            &&& fought(sim, intent, now)[j].hitpoints <= sim.enemies@[j].hitpoints
        },
{
    let ps = flown(sim.projectiles@, sim.ship, intent, now);
    let es = chased(sim.enemies@, ship_after(sim.ship, intent, now).pos);
    assert forall|j: int| 0 <= j < sim.enemies@.len() implies {
        &&& #[trigger] fought(sim, intent, now)[j].hitpoints == sim.enemies@[j].hitpoints - hit_count(
            ps,
            es,
            j,
            ps.len() as int,
        )
        &&& fought(sim, intent, now)[j].hitpoints <= sim.enemies@[j].hitpoints
    } by {
        lemma_hit_count_bounded(ps, es, j, ps.len() as int);
        assert(es[j].hitpoints == sim.enemies@[j].hitpoints);
        assert(sim.enemies@[j].hitpoints > 0);
    }
}

/// Elimination is final: after a tick every enemy left is live, and no
/// enemy eliminated in that tick is among them.
pub proof fn lemma_elimination_final(sim: Simulation, intent: InputIntent, now: u64)
    ensures
        forall|e: EnemyActor| #[trigger] survivors(fought(sim, intent, now)).contains(e) ==> e.hitpoints > 0,
        forall|e: EnemyActor| #[trigger] casualties(fought(sim, intent, now)).contains(e) ==> !survivors(
            fought(sim, intent, now),
        ).contains(e),
{
    let f = fought(sim, intent, now);
    let live = |e: EnemyActor| e.hitpoints > 0;
    let dead = |e: EnemyActor| e.hitpoints <= 0;
    assert forall|e: EnemyActor| #[trigger] survivors(f).contains(e) implies e.hitpoints > 0 by {
        let k = choose|k: int| 0 <= k < f.filter(live).len() && f.filter(live)[k] == e;
        f.lemma_filter_pred(live, k);
    }
    assert forall|e: EnemyActor| #[trigger] casualties(f).contains(e) implies !survivors(f).contains(e) by {
        let k = choose|k: int| 0 <= k < f.filter(dead).len() && f.filter(dead)[k] == e;
        f.lemma_filter_pred(dead, k);
        if survivors(f).contains(e) {
            let m = choose|m: int| 0 <= m < f.filter(live).len() && f.filter(live)[m] == e;
            f.lemma_filter_pred(live, m);
        }
    }
}

} // verus!
