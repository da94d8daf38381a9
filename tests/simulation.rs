use space_rust::enemy::{EnemyActor, HITPOINTS};
use space_rust::geometry::{Direction, Point, ARENA_HEIGHT, ARENA_WIDTH};
use space_rust::projectile::ProjectileActor;
use space_rust::ship::{InputIntent, ShipActor, SHOT_DELAY};
use space_rust::simulation::Simulation;

fn idle() -> InputIntent {
    InputIntent::default()
}

fn up_projectile(x: i64, y: i64) -> ProjectileActor {
    ProjectileActor { pos: Point { x, y }, heading: Direction { x: 0, y: -1_000_000 }, deltav: 1_000 }
}

#[test]
fn default_simulation_is_empty() {
    let sim = Simulation::default();
    assert_eq!(sim.ship.pos, ShipActor::default().pos);
    assert!(sim.projectiles.is_empty());
    assert!(sim.enemies.is_empty());
}

#[test]
fn holding_fire_spawns_projectiles_at_the_ship() {
    let mut sim = Simulation::default();
    let fire = InputIntent { fire: true, ..InputIntent::default() };
    assert!(sim.update(&fire, SHOT_DELAY).is_empty());
    assert!(sim.projectiles.is_empty());
    sim.update(&fire, SHOT_DELAY + 1);
    assert_eq!(sim.projectiles.len(), 1);
    // Fired from the ship, then one tick of flight straight up.
    assert_eq!(sim.projectiles[0].pos, Point { x: 400_000, y: 299_000 });
    assert_eq!(sim.projectiles[0].deltav, 1_200);
    sim.update(&fire, SHOT_DELAY + 17);
    assert_eq!(sim.projectiles.len(), 1);
}

#[test]
fn projectiles_leaving_the_arena_are_removed() {
    let mut sim = Simulation::default();
    sim.projectiles.push(up_projectile(100_000, 500));
    sim.projectiles.push(up_projectile(100_000, 5_000));
    sim.update(&idle(), 0);
    assert_eq!(sim.projectiles.len(), 1);
    assert_eq!(sim.projectiles[0].pos, Point { x: 100_000, y: 4_000 });
}

#[test]
fn enemies_pursue_the_ship_each_tick() {
    let mut sim = Simulation::default();
    sim.enemies.push(EnemyActor::new(400_000, 100_000, Direction { x: 0, y: 0 }));
    sim.update(&idle(), 0);
    assert_eq!(sim.enemies[0].pos, Point { x: 400_000, y: 100_200 });
    assert_eq!(sim.enemies[0].heading, Direction { x: 0, y: 200_000 });
}

#[test]
fn hit_enemy_loses_one_point_per_projectile() {
    let mut sim = Simulation::default();
    sim.enemies.push(EnemyActor::new(400_000, 100_000, Direction { x: 0, y: 0 }));
    sim.projectiles.push(up_projectile(400_000, 101_000));
    sim.projectiles.push(up_projectile(400_500, 101_000));
    let gone = sim.update(&idle(), 0);
    assert!(gone.is_empty());
    assert_eq!(sim.enemies[0].hitpoints, HITPOINTS - 2);
    // Projectiles pass through.
    assert_eq!(sim.projectiles.len(), 2);
}

#[test]
fn eliminated_enemy_is_reported_once_then_gone() {
    let mut sim = Simulation::default();
    sim.enemies.push(EnemyActor::new(400_000, 100_000, Direction { x: 0, y: 0 }));
    sim.enemies.push(EnemyActor::new(700_000, 500_000, Direction { x: 0, y: 0 }));
    for k in 0..5 {
        sim.projectiles.push(up_projectile(400_000 + k * 100, 101_000));
    }
    let gone = sim.update(&idle(), 0);
    assert_eq!(gone.len(), 1);
    assert_eq!(gone[0].hitpoints, 0);
    // Its position is the one it reached this tick.
    assert_eq!(gone[0].pos, Point { x: 400_000, y: 100_200 });
    assert_eq!(sim.enemies.len(), 1);
    assert_eq!(sim.enemies[0].hitpoints, HITPOINTS);
    let again = sim.update(&idle(), 16);
    assert!(again.is_empty());
    assert!(sim.enemies.iter().all(|e| e.hitpoints > 0));
}

#[test]
fn burst_release_ends_the_burst() {
    let mut sim = Simulation::default();
    sim.update(&idle(), 2_000);
    assert!(sim.ship.speedburst.1);
    let release = InputIntent { burst_release: true, ..InputIntent::default() };
    sim.update(&release, 2_100);
    assert_eq!(sim.ship.speedburst, (2_100, false));
}

#[test]
fn spawned_enemy_joins_the_live_set() {
    let mut sim = Simulation::default();
    sim.spawn_enemy();
    sim.spawn_enemy();
    assert_eq!(sim.enemies.len(), 2);
    for e in sim.enemies.iter() {
        assert!(e.pos.x >= 0 && e.pos.x < ARENA_WIDTH && e.pos.y >= 0 && e.pos.y < ARENA_HEIGHT);
        assert_eq!(e.hitpoints, HITPOINTS);
    }
}

#[test]
fn long_run_keeps_everything_in_the_arena() {
    let mut sim = Simulation::default();
    for _ in 0..10 {
        sim.spawn_enemy();
    }
    let intent = InputIntent { forward: true, turn_left: true, fire: true, ..InputIntent::default() };
    let mut eliminated = 0;
    for t in 0..600u64 {
        eliminated += sim.update(&intent, t * 16).len();
        let s = sim.ship.pos;
        assert!(s.x >= 0 && s.x <= ARENA_WIDTH && s.y >= 0 && s.y <= ARENA_HEIGHT);
        for e in sim.enemies.iter() {
            assert!(e.hitpoints > 0);
            assert!(e.pos.x >= 0 && e.pos.x <= ARENA_WIDTH && e.pos.y >= 0 && e.pos.y <= ARENA_HEIGHT);
        }
        for p in sim.projectiles.iter() {
            assert!(p.in_bounds());
        }
    }
    assert!(eliminated + sim.enemies.len() == 10);
}
