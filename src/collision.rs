//! Collision detection between projectiles and enemies, and the damage it
//! deals.
//!
//! A hit is a (projectile index, enemy index) pair whose positions are
//! strictly closer than `COLLISION_RADIUS`. Two detectors report hits: a
//! direct pairwise test and one that narrows the candidates with a quadtree;
//! they report the same set. Damage counts each projectile at most once per
//! enemy, however often the pair is reported.
use vstd::prelude::*;
use crate::geometry::{Point, within_radius, points_within_radius, dist2, COLLISION_RADIUS, ARENA_WIDTH, ARENA_HEIGHT};
use crate::quadtree::{QuadNode, Entry, in_box};
use crate::projectile::ProjectileActor;
use crate::enemy::EnemyActor;

verus! {

/// Anything with a position in the arena.
pub trait Actor {
    spec fn position(&self) -> Point;

    fn get_position(&self) -> (r: Point)
        ensures
            r == self.position(),
    ;
}

/// Whether two actors are close enough to collide.
pub fn is_collision<T: Actor, U: Actor>(first_actor: &T, second_actor: &U) -> (r: bool)
    ensures
        r == within_radius(first_actor.position(), second_actor.position()),
{
    let p = first_actor.get_position();
    let q = second_actor.get_position();
    points_within_radius(p, q)
}

/// `h` is a hit: both indices are valid and the two actors are within the
/// collision radius.
pub open spec fn is_hit(ps: Seq<ProjectileActor>, es: Seq<EnemyActor>, h: (usize, usize)) -> bool {
    &&& h.0 < ps.len()
    &&& h.1 < es.len()
    &&& within_radius(ps[h.0 as int].pos, es[h.1 as int].pos)
}

/// `r` reports exactly the hits between `ps` and `es`.
pub open spec fn reports_hits(r: Seq<(usize, usize)>, ps: Seq<ProjectileActor>, es: Seq<EnemyActor>) -> bool {
    forall|h: (usize, usize)| #[trigger] r.contains(h) <==> is_hit(ps, es, h)
}

/// Number of distinct projectiles among `0..n` that `hits` pairs with enemy `j`.
pub open spec fn strikes(hits: Seq<(usize, usize)>, j: int, n: int) -> int
    decreases n,
{
    if n <= 0 {
        0
    } else {
        strikes(hits, j, n - 1) + (if hits.contains(((n - 1) as usize, j as usize)) { 1int } else { 0int })
    }
}

/// Pushing `x` adds exactly `x` to what a sequence contains.
proof fn lemma_push_contains<T>(s: Seq<T>, x: T)
    ensures
        forall|y: T| #[trigger] s.push(x).contains(y) <==> (s.contains(y) || y == x),
{
    assert forall|y: T| #[trigger] s.push(x).contains(y) <==> (s.contains(y) || y == x) by {
        if s.contains(y) {
            let k = choose|k: int| 0 <= k < s.len() && s[k] == y;
            assert(s.push(x)[k] == y);
        }
        if y == x {
            assert(s.push(x)[s.len() as int] == y);
        }
        if s.push(x).contains(y) && y != x {
            let k = choose|k: int| 0 <= k < s.push(x).len() && s.push(x)[k] == y;
            assert(s[k] == y);
        }
    }
}

/// Every hit, by testing each projectile against each enemy.
pub fn detect_hits(projectiles: &Vec<ProjectileActor>, enemies: &Vec<EnemyActor>) -> (r: Vec<(usize, usize)>)
    ensures
        reports_hits(r@, projectiles@, enemies@),
{
    let mut r: Vec<(usize, usize)> = Vec::new();
    let mut i: usize = 0;
    while i < projectiles.len()
        invariant
            i <= projectiles.len(),
            forall|h: (usize, usize)| #[trigger] r@.contains(h) <==> (is_hit(projectiles@, enemies@, h) && h.0 < i),
        decreases projectiles.len() - i,
    {
        let mut j: usize = 0;
        while j < enemies.len()
            invariant
                i < projectiles.len(),
                j <= enemies.len(),
                forall|h: (usize, usize)| #[trigger] r@.contains(h) <==> (is_hit(projectiles@, enemies@, h) && (h.0 < i
                    || (h.0 == i && h.1 < j))),
            decreases enemies.len() - j,
        {
            if is_collision(&projectiles[i], &enemies[j]) {
                let ghost before = r@;
                r.push((i, j));
                proof {
                    lemma_push_contains(before, (i, j));
                }
            }
            j += 1;
        }
        i += 1;
    }
    r
}

/// A point `d` sub-units before `v`, stopping at the smallest `i64`.
fn below(v: i64, d: i64) -> (r: i64)
    requires
        d >= 0,
    ensures
        r <= v,
        v - d < i64::MIN ==> r == i64::MIN,
        v - d >= i64::MIN ==> r == v - d,
{
    if v >= i64::MIN + d {
        v - d
    } else {
        i64::MIN
    }
}

/// A point `d` sub-units after `v`, stopping at the largest `i64`.
fn above(v: i64, d: i64) -> (r: i64)
    requires
        d >= 0,
    ensures
        r >= v,
        v + d > i64::MAX ==> r == i64::MAX,
        v + d <= i64::MAX ==> r == v + d,
{
    if v <= i64::MAX - d {
        v + d
    } else {
        i64::MAX
    }
}

/// Every hit, testing each projectile only against the enemies that a
/// quadtree over the arena finds near it, and against those that the tree
/// refused (outside the arena, or sharing a leaf cell with another enemy).
pub fn detect_hits_indexed(projectiles: &Vec<ProjectileActor>, enemies: &Vec<EnemyActor>) -> (r: Vec<(usize, usize)>)
    ensures
        reports_hits(r@, projectiles@, enemies@),
{
    let ghost ps = projectiles@;
    let ghost es = enemies@;
    let mut tree = QuadNode::new((0, ARENA_WIDTH), (0, ARENA_HEIGHT));
    let mut overflow: Vec<usize> = Vec::new();
    let mut j: usize = 0;
    while j < enemies.len()
        invariant
            j <= enemies.len(),
            es == enemies@,
            tree.wf(),
            forall|e: Entry| #[trigger] tree.items().contains(e) ==> e.0 < j && e.1 == es[e.0 as int].pos,
            forall|k: int| 0 <= k < overflow@.len() ==> #[trigger] overflow@[k] < j,
            forall|k: usize| k < j ==> tree.items().contains((k, #[trigger] es[k as int].pos)) || overflow@.contains(k),
        decreases enemies.len() - j,
    {
        let pos = enemies[j].pos;
        let ghost before = overflow@;
        if !(&mut *tree).insert(j, pos) {
            overflow.push(j);
            proof {
                lemma_push_contains(before, j);
            }
        }
        j += 1;
    }
    let mut r: Vec<(usize, usize)> = Vec::new();
    let mut i: usize = 0;
    while i < projectiles.len()
        invariant
            i <= projectiles.len(),
            ps == projectiles@,
            es == enemies@,
            j == enemies.len(),
            tree.wf(),
            forall|e: Entry| #[trigger] tree.items().contains(e) ==> e.0 < j && e.1 == es[e.0 as int].pos,
            forall|k: int| 0 <= k < overflow@.len() ==> #[trigger] overflow@[k] < j,
            forall|k: usize| k < j ==> tree.items().contains((k, #[trigger] es[k as int].pos)) || overflow@.contains(k),
            forall|h: (usize, usize)| #[trigger] r@.contains(h) <==> (is_hit(ps, es, h) && h.0 < i),
        decreases projectiles.len() - i,
    {
        let p = projectiles[i].pos;
        let lo = Point { x: below(p.x, COLLISION_RADIUS), y: below(p.y, COLLISION_RADIUS) };
        let hi = Point { x: above(p.x, COLLISION_RADIUS), y: above(p.y, COLLISION_RADIUS) };
        let cands = tree.query(lo, hi);
        let ghost r_start = r@;
        let mut m: usize = 0;
        while m < cands.len()
            invariant
                i < projectiles.len(),
                ps == projectiles@,
                es == enemies@,
                p == ps[i as int].pos,
                m <= cands.len(),
                forall|k: int| 0 <= k < cands@.len() ==> tree.items().contains(#[trigger] cands@[k]),
                forall|e: Entry| #[trigger] tree.items().contains(e) ==> e.0 < j && e.1 == es[e.0 as int].pos,
                j == enemies.len(),
                forall|h: (usize, usize)| #[trigger] r@.contains(h) <==> (r_start.contains(h) || (h.0 == i && is_hit(ps, es, h)
                    && exists|k: int| 0 <= k < m && (#[trigger] cands@[k]).0 == h.1)),
            decreases cands.len() - m,
        {
            let c = cands[m];
            assert(tree.items().contains(cands@[m as int]));
            if points_within_radius(p, enemies[c.0].pos) {
                let ghost before = r@;
                r.push((i, c.0));
                proof {
                    lemma_push_contains(before, (i, c.0));
                    assert(cands@[m as int].0 == c.0);
                    assert forall|h: (usize, usize)| #[trigger] r@.contains(h) <==> (r_start.contains(h) || (h.0 == i
                        && is_hit(ps, es, h) && exists|k: int| 0 <= k < m + 1 && (#[trigger] cands@[k]).0 == h.1)) by {
                        if h.0 == i && is_hit(ps, es, h) && exists|k: int| 0 <= k < m + 1 && (#[trigger] cands@[k]).0 == h.1 {
                            let k = choose|k: int| 0 <= k < m + 1 && (#[trigger] cands@[k]).0 == h.1;
                            if k < m {
                                assert(before.contains(h));
                            }
                        }
                    }
                }
            } else {
                proof {
                    assert forall|h: (usize, usize)| #[trigger] r@.contains(h) <==> (r_start.contains(h) || (h.0 == i
                        && is_hit(ps, es, h) && exists|k: int| 0 <= k < m + 1 && (#[trigger] cands@[k]).0 == h.1)) by {
                        if h.0 == i && is_hit(ps, es, h) && exists|k: int| 0 <= k < m + 1 && (#[trigger] cands@[k]).0 == h.1 {
                            let k = choose|k: int| 0 <= k < m + 1 && (#[trigger] cands@[k]).0 == h.1;
                            if k == m {
                                assert(false);
                            }
                        }
                    }
                }
            }
            m += 1;
        }
        let ghost r_mid = r@;
        let mut m: usize = 0;
        while m < overflow.len()
            invariant
                i < projectiles.len(),
                ps == projectiles@,
                es == enemies@,
                p == ps[i as int].pos,
                m <= overflow.len(),
                j == enemies.len(),
                forall|k: int| 0 <= k < overflow@.len() ==> #[trigger] overflow@[k] < j,
                forall|h: (usize, usize)| #[trigger] r@.contains(h) <==> (r_mid.contains(h) || (h.0 == i && is_hit(ps, es, h)
                    && exists|k: int| 0 <= k < m && #[trigger] overflow@[k] == h.1)),
            decreases overflow.len() - m,
        {
            let k0 = overflow[m];
            if points_within_radius(p, enemies[k0].pos) {
                let ghost before = r@;
                r.push((i, k0));
                proof {
                    lemma_push_contains(before, (i, k0));
                    assert forall|h: (usize, usize)| #[trigger] r@.contains(h) <==> (r_mid.contains(h) || (h.0 == i
                        && is_hit(ps, es, h) && exists|k: int| 0 <= k < m + 1 && #[trigger] overflow@[k] == h.1)) by {
                        if h.0 == i && is_hit(ps, es, h) && exists|k: int| 0 <= k < m + 1 && #[trigger] overflow@[k] == h.1 {
                            let k = choose|k: int| 0 <= k < m + 1 && #[trigger] overflow@[k] == h.1;
                            if k < m {
                                assert(before.contains(h));
                            }
                        }
                        if h == (i, k0) {
                            assert(overflow@[m as int] == h.1);
                        }
                    }
                }
            } else {
                proof {
                    assert forall|h: (usize, usize)| #[trigger] r@.contains(h) <==> (r_mid.contains(h) || (h.0 == i
                        && is_hit(ps, es, h) && exists|k: int| 0 <= k < m + 1 && #[trigger] overflow@[k] == h.1)) by {
                        if h.0 == i && is_hit(ps, es, h) && exists|k: int| 0 <= k < m + 1 && #[trigger] overflow@[k] == h.1 {
                            let k = choose|k: int| 0 <= k < m + 1 && #[trigger] overflow@[k] == h.1;
                            if k == m {
                                assert(false);
                            }
                        }
                    }
                }
            }
            m += 1;
        }
        proof {
            assert forall|h: (usize, usize)| #[trigger] r@.contains(h) <==> (is_hit(ps, es, h) && h.0 < i + 1) by {
                if h.0 == i && is_hit(ps, es, h) {
                    let q = es[h.1 as int].pos;
                    assert(in_box(lo, hi, q)) by {
                        assert(dist2(p, q) < COLLISION_RADIUS * COLLISION_RADIUS);
                        assert(-30_000 < p.x - q.x < 30_000 && -30_000 < p.y - q.y < 30_000) by (nonlinear_arith)
                            requires
                                (p.x - q.x) * (p.x - q.x) + (p.y - q.y) * (p.y - q.y) < 900_000_000,
                        ;
                    }
                    if tree.items().contains((h.1, q)) {
                        assert(cands@.contains((h.1, q)));
                        let k = choose|k: int| 0 <= k < cands@.len() && cands@[k] == (h.1, q);
                        assert(cands@[k].0 == h.1);
                    } else {
                        assert(overflow@.contains(h.1));
                        let k = choose|k: int| 0 <= k < overflow@.len() && overflow@[k] == h.1;
                        assert(overflow@[k] == h.1);
                    }
                }
            }
        }
        i += 1;
    }
    r
}

impl EnemyActor {
    /// The enemy after losing `k` hit points.
    pub open spec fn damaged(self, k: int) -> EnemyActor {
        EnemyActor { hitpoints: (self.hitpoints - k) as i64, ..self }
    }
}

/// Deals the damage of one tick: each enemy loses one hit point for each
/// distinct projectile among `0..n_projectiles` that `hits` pairs it with.
pub fn apply_damage(enemies: &mut Vec<EnemyActor>, n_projectiles: usize, hits: &Vec<(usize, usize)>)
    requires
        forall|j: int| 0 <= j < old(enemies)@.len() ==> #[trigger] old(enemies)@[j].hitpoints - n_projectiles >= i64::MIN,
    ensures
        final(enemies)@.len() == old(enemies)@.len(),
        forall|j: int| 0 <= j < final(enemies)@.len() ==> #[trigger] final(enemies)@[j] == old(enemies)@[j].damaged(
            strikes(hits@, j, n_projectiles as int),
        ),
{
    let ghost es = enemies@;
    let mut j: usize = 0;
    while j < enemies.len()
        invariant
            j <= enemies.len(),
            enemies@.len() == es.len(),
            forall|k: int| 0 <= k < j ==> #[trigger] enemies@[k] == es[k].damaged(strikes(hits@, k, n_projectiles as int)),
            forall|k: int| j <= k < es.len() ==> #[trigger] enemies@[k] == es[k],
            forall|k: int| 0 <= k < es.len() ==> #[trigger] es[k].hitpoints - n_projectiles >= i64::MIN,
        decreases enemies.len() - j,
    {
        let mut marks: Vec<bool> = vec![false; n_projectiles];
        let mut k: usize = 0;
        while k < hits.len()
            invariant
                k <= hits.len(),
                marks@.len() == n_projectiles,
                forall|i: int| 0 <= i < n_projectiles ==> (#[trigger] marks@[i] <==> exists|m: int|
                    0 <= m < k && hits@[m] == (i as usize, j)),
            decreases hits.len() - k,
        {
            let h = hits[k];
            if h.1 == j && h.0 < n_projectiles {
                marks.set(h.0, true);
            }
            proof {
                assert forall|i: int| 0 <= i < n_projectiles implies (#[trigger] marks@[i] <==> exists|m: int|
                    0 <= m < k + 1 && hits@[m] == (i as usize, j)) by {
                    if marks@[i] && !(exists|m: int| 0 <= m < k && hits@[m] == (i as usize, j)) {
                        assert(hits@[k as int] == (i as usize, j));
                    }
                }
            }
            k += 1;
        }
        let mut e = enemies[j];
        let mut i: usize = 0;
        while i < n_projectiles
            invariant
                i <= n_projectiles,
                j < es.len(),
                marks@.len() == n_projectiles,
                forall|i: int| 0 <= i < n_projectiles ==> (#[trigger] marks@[i] <==> exists|m: int|
                    0 <= m < hits@.len() && hits@[m] == (i as usize, j)),
                0 <= strikes(hits@, j as int, i as int) <= i,
                e == es[j as int].damaged(strikes(hits@, j as int, i as int)),
                es[j as int].hitpoints - n_projectiles >= i64::MIN,
            decreases n_projectiles - i,
        {
            proof {
                assert(marks@[i as int] <==> hits@.contains((i, j)));
            }
            if marks[i] {
                e.hit();
            }
            i += 1;
        }
        enemies.set(j, e);
        j += 1;
    }
}

/// The two detectors agree: any two reports of the hits between the same
/// projectiles and enemies hold the same set of pairs.
pub proof fn lemma_detectors_agree(
    ps: Seq<ProjectileActor>,
    es: Seq<EnemyActor>,
    direct: Seq<(usize, usize)>,
    indexed: Seq<(usize, usize)>,
)
    requires
        reports_hits(direct, ps, es),
        reports_hits(indexed, ps, es),
    ensures
        direct.to_set() == indexed.to_set(),
{
    assert(direct.to_set() =~= indexed.to_set());
}

/// Damage is bounded and never negative: an enemy loses between none and
/// one hit point per projectile in a tick.
pub proof fn lemma_strikes_bounded(hits: Seq<(usize, usize)>, j: int, n: int)
    ensures
        0 <= strikes(hits, j, n),
        n >= 0 ==> strikes(hits, j, n) <= n,
    decreases n,
{
    if n > 0 {
        lemma_strikes_bounded(hits, j, n - 1);
    }
}

/// Damage counts projectiles, not reports: two reports that hold the same
/// pairs, however often each is repeated, deal the same damage.
pub proof fn lemma_strikes_distinct(h1: Seq<(usize, usize)>, h2: Seq<(usize, usize)>, j: int, n: int)
    requires
        h1.to_set() == h2.to_set(),
    ensures
        strikes(h1, j, n) == strikes(h2, j, n),
    decreases n,
{
    if n > 0 {
        lemma_strikes_distinct(h1, h2, j, n - 1);
        let h = ((n - 1) as usize, j as usize);
        assert(h1.contains(h) == h1.to_set().contains(h));
        assert(h2.contains(h) == h2.to_set().contains(h));
    }
}

} // verus!
