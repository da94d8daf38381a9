use std::collections::BTreeSet;

use space_rust::collision::{apply_damage, detect_hits, detect_hits_indexed, is_collision};
use space_rust::enemy::EnemyActor;
use space_rust::geometry::{Direction, Point};
use space_rust::projectile::ProjectileActor;

fn projectile(x: i64, y: i64) -> ProjectileActor {
    ProjectileActor { pos: Point { x, y }, heading: Direction { x: 0, y: -1_000_000 }, deltav: 1_000 }
}

fn enemy(x: i64, y: i64) -> EnemyActor {
    EnemyActor::new(x, y, Direction { x: 0, y: 0 })
}

fn as_set(v: &[(usize, usize)]) -> BTreeSet<(usize, usize)> {
    v.iter().cloned().collect()
}

/// A small deterministic generator for test configurations.
struct Lcg(u64);

impl Lcg {
    fn next(&mut self, bound: i64) -> i64 {
        self.0 = self.0.wrapping_mul(6364136223846793005).wrapping_add(1442695040888963407);
        ((self.0 >> 33) % (bound as u64)) as i64
    }
}

#[test]
fn collision_radius_is_strict() {
    let p = projectile(100_000, 100_000);
    assert!(is_collision(&p, &enemy(129_999, 100_000)));
    assert!(!is_collision(&p, &enemy(130_000, 100_000)));
    // 18 000^2 + 24 000^2 = 30 000^2: exactly on the radius is no hit.
    assert!(!is_collision(&p, &enemy(118_000, 124_000)));
    assert!(is_collision(&p, &enemy(117_999, 124_000)));
}

#[test]
fn collision_far_apart_coordinates() {
    let p = projectile(i64::MIN, i64::MAX);
    assert!(!is_collision(&p, &enemy(i64::MAX, i64::MIN)));
    assert!(is_collision(&p, &enemy(i64::MIN, i64::MAX)));
}

#[test]
fn direct_detector_reports_each_close_pair() {
    let ps = vec![projectile(100_000, 100_000), projectile(500_000, 300_000)];
    let es = vec![enemy(110_000, 100_000), enemy(500_000, 320_000), enemy(700_000, 50_000)];
    let hits = detect_hits(&ps, &es);
    assert_eq!(as_set(&hits), [(0, 0), (1, 1)].iter().cloned().collect());
}

#[test]
fn no_projectiles_or_enemies_no_hits() {
    assert!(detect_hits(&vec![], &vec![enemy(1, 1)]).is_empty());
    assert!(detect_hits_indexed(&vec![projectile(1, 1)], &vec![]).is_empty());
}

#[test]
fn indexed_detector_matches_direct_on_random_configurations() {
    let mut g = Lcg(42);
    for round in 0..40 {
        let np = 1 + g.next(25) as usize;
        let ne = 1 + g.next(40) as usize;
        // Crowd some rounds into a small corner so enemies share leaf cells.
        let span_x = if round % 3 == 0 { 60_000 } else { 800_000 };
        let span_y = if round % 3 == 0 { 45_000 } else { 600_000 };
        let ps: Vec<ProjectileActor> = (0..np).map(|_| projectile(g.next(span_x + 1), g.next(span_y + 1))).collect();
        let es: Vec<EnemyActor> = (0..ne).map(|_| enemy(g.next(span_x + 1), g.next(span_y + 1))).collect();
        let direct = detect_hits(&ps, &es);
        let indexed = detect_hits_indexed(&ps, &es);
        assert_eq!(as_set(&direct), as_set(&indexed), "round {}", round);
    }
}

#[test]
fn indexed_detector_handles_enemies_outside_the_arena() {
    let ps = vec![projectile(-10_000, -10_000), projectile(805_000, 300_000)];
    let es = vec![enemy(-20_000, -5_000), enemy(810_000, 300_000), enemy(400_000, 300_000)];
    let direct = detect_hits(&ps, &es);
    let indexed = detect_hits_indexed(&ps, &es);
    assert_eq!(as_set(&direct), [(0, 0), (1, 1)].iter().cloned().collect());
    assert_eq!(as_set(&direct), as_set(&indexed));
}

#[test]
fn indexed_detector_handles_stacked_enemies() {
    let ps = vec![projectile(300_000, 300_000)];
    let es = vec![enemy(300_000, 300_000), enemy(300_000, 300_000), enemy(300_001, 300_000)];
    let indexed = detect_hits_indexed(&ps, &es);
    assert_eq!(as_set(&indexed), [(0, 0), (0, 1), (0, 2)].iter().cloned().collect());
}

#[test]
fn damage_counts_distinct_projectiles() {
    let mut es = vec![enemy(0, 0), enemy(0, 0), enemy(0, 0)];
    // Projectile 1 is reported three times against enemy 0; projectile 0 once.
    let hits = vec![(1, 0), (0, 0), (1, 0), (1, 0), (2, 2)];
    apply_damage(&mut es, 3, &hits);
    assert_eq!(es[0].hitpoints, 3);
    assert_eq!(es[1].hitpoints, 5);
    assert_eq!(es[2].hitpoints, 4);
}

#[test]
fn damage_ignores_projectiles_beyond_count() {
    let mut es = vec![enemy(0, 0)];
    apply_damage(&mut es, 2, &vec![(5, 0), (1, 0), (0, 3)]);
    assert_eq!(es[0].hitpoints, 4);
}

#[test]
fn damage_may_go_below_zero() {
    let mut es = vec![enemy(0, 0)];
    let hits: Vec<(usize, usize)> = (0..8).map(|i| (i, 0)).collect();
    apply_damage(&mut es, 8, &hits);
    assert_eq!(es[0].hitpoints, -3);
    assert!(es[0].is_eliminated());
}

#[test]
fn damage_never_increases_hitpoints() {
    let mut g = Lcg(7);
    let mut es: Vec<EnemyActor> = (0..10).map(|_| enemy(0, 0)).collect();
    let before: Vec<i64> = es.iter().map(|e| e.hitpoints).collect();
    let hits: Vec<(usize, usize)> = (0..30).map(|_| (g.next(6) as usize, g.next(10) as usize)).collect();
    apply_damage(&mut es, 6, &hits);
    for j in 0..10 {
        let distinct: BTreeSet<usize> = hits.iter().filter(|h| h.1 == j).map(|h| h.0).collect();
        assert!(es[j].hitpoints <= before[j]);
        assert_eq!(es[j].hitpoints, before[j] - distinct.len() as i64);
    }
}
