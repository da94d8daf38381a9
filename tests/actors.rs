use space_rust::enemy::{EnemyActor, HITPOINTS, VELOCITY as ENEMY_VELOCITY};
use space_rust::geometry::{isqrt, Direction, Point, ARENA_HEIGHT, ARENA_WIDTH, COLLISION_RADIUS, DIRECTION_SCALE};
use space_rust::projectile::{ProjectileActor, MAX_SPEED, VELOCITY as PROJECTILE_VELOCITY};
use space_rust::ship::{InputIntent, ShipActor, BURST_DELAY, SHOT_DELAY, VELOCITY, VELOCITY_LIMIT};

fn held(forward: bool) -> InputIntent {
    InputIntent { forward, ..InputIntent::default() }
}

fn dist2(a: Point, b: Point) -> i64 {
    (a.x - b.x) * (a.x - b.x) + (a.y - b.y) * (a.y - b.y)
}

#[test]
fn isqrt_brackets_its_argument() {
    for n in [0u64, 1, 2, 3, 4, 15, 16, 17, 999_999, 1_000_000, u64::MAX].iter() {
        let r = isqrt(*n) as u128;
        assert!(r * r <= *n as u128 && (*n as u128) < (r + 1) * (r + 1), "{}", n);
    }
    assert_eq!(isqrt(1_000_000_000_000), 1_000_000);
}

#[test]
fn default_ship_starts_centred_heading_up() {
    let s = ShipActor::default();
    assert_eq!(s.pos, Point { x: 400_000, y: 300_000 });
    assert_eq!(s.get_direction_vector(), Direction { x: 0, y: -DIRECTION_SCALE });
    assert_eq!(s.deltav, VELOCITY);
    assert_eq!(s.speedburst, (0, false));
}

#[test]
fn new_ship_is_clamped_into_arena() {
    let s = ShipActor::new(-5, ARENA_HEIGHT + 10, 77);
    assert_eq!(s.pos, Point { x: 0, y: ARENA_HEIGHT });
    assert_eq!(s.lastshot, 77);
}

#[test]
fn thrust_moves_up_and_speeds_up() {
    let mut s = ShipActor::default();
    s.advance(&held(true), 10);
    // 2000 * 11 / 10 = 2200 sub-units, straight up.
    assert_eq!(s.deltav, 2_200);
    assert_eq!(s.pos, Point { x: 400_000, y: 300_000 - 2_200 });
}

#[test]
fn thrust_is_capped_at_limit() {
    let mut s = ShipActor::default();
    for t in 0..100 {
        s.advance(&held(true), t);
        assert!(s.deltav >= VELOCITY && s.deltav <= VELOCITY_LIMIT);
    }
    assert_eq!(s.deltav, VELOCITY_LIMIT);
    assert_eq!(s.pos.y, 0);
}

#[test]
fn releasing_forward_resets_speed() {
    let mut s = ShipActor::default();
    for t in 0..5 {
        s.advance(&held(true), t);
    }
    assert!(s.deltav > VELOCITY);
    s.advance(&held(false), 5);
    assert_eq!(s.deltav, VELOCITY);
}

#[test]
fn brake_backs_up_one_unit() {
    let mut s = ShipActor::default();
    s.advance(&InputIntent { brake: true, ..InputIntent::default() }, 0);
    assert_eq!(s.pos, Point { x: 400_000, y: 301_000 });
}

#[test]
fn turning_keeps_direction_length() {
    let mut s = ShipActor::default();
    let left = InputIntent { turn_left: true, ..InputIntent::default() };
    s.advance(&left, 0);
    // sin(0.05) and -cos(0.05), scaled.
    assert!((s.heading.x - 49_979).abs() <= 2, "{:?}", s.heading);
    assert!((s.heading.y + 998_750).abs() <= 2, "{:?}", s.heading);
    for t in 0..1000 {
        s.advance(&left, t);
        let len2 = (s.heading.x as i128).pow(2) + (s.heading.y as i128).pow(2);
        assert!((len2 - 1_000_000_000_000).abs() < 10_000_000, "{:?}", s.heading);
    }
    let right = InputIntent { turn_right: true, ..InputIntent::default() };
    let before = s.heading;
    s.advance(&right, 0);
    s.advance(&left, 0);
    assert!((s.heading.x - before.x).abs() <= 3 && (s.heading.y - before.y).abs() <= 3);
}

#[test]
fn shots_are_debounced() {
    let mut s = ShipActor::new(400_000, 300_000, 0);
    let mut ps = Vec::new();
    s.shoot(&mut ps, true, SHOT_DELAY);
    assert!(ps.is_empty());
    s.shoot(&mut ps, false, 500);
    assert!(ps.is_empty());
    s.shoot(&mut ps, true, SHOT_DELAY + 1);
    assert_eq!(ps.len(), 1);
    assert_eq!(s.lastshot, SHOT_DELAY + 1);
    assert_eq!(ps[0], ProjectileActor::new(&s));
    s.shoot(&mut ps, true, 2 * SHOT_DELAY + 1);
    assert_eq!(ps.len(), 1);
    s.shoot(&mut ps, true, 2 * SHOT_DELAY + 2);
    assert_eq!(ps.len(), 2);
}

#[test]
fn clock_going_back_never_fires() {
    let mut s = ShipActor::new(400_000, 300_000, 10_000);
    let mut ps = Vec::new();
    s.shoot(&mut ps, true, 0);
    assert!(ps.is_empty());
}

#[test]
fn fire_held_for_a_second_gives_at_most_five_shots() {
    for phase in 0..16u64 {
        let mut s = ShipActor::new(400_000, 300_000, 0);
        let mut ps = Vec::new();
        let mut times = Vec::new();
        let mut t = phase;
        while t < 5_000 {
            let before = ps.len();
            s.shoot(&mut ps, true, t);
            if ps.len() > before {
                times.push(t);
            }
            t += 16;
        }
        for start in 0..4_000u64 {
            let n = times.iter().filter(|&&x| x >= start && x <= start + 1_000).count();
            assert!(n <= 5, "phase {} start {}: {}", phase, start, n);
        }
        let n = times.iter().filter(|&&x| x >= 1_000 && x < 2_000).count();
        assert!(n >= 4 && n <= 5);
    }
}

#[test]
fn burst_eligibility_waits_for_burst_delay() {
    let mut s = ShipActor::default();
    s.speedburst_keyup(5_000);
    assert_eq!(s.speedburst, (5_000, false));
    assert_eq!(s.deltav, VELOCITY);
    // Held for less than BURST_DELAY: still not eligible.
    s.advance(&held(false), 5_000 + BURST_DELAY - 1);
    assert!(!s.speedburst.1);
    // Past BURST_DELAY: the next deceleration re-arms it.
    s.advance(&held(false), 5_000 + BURST_DELAY + 1);
    assert!(s.speedburst.1);
}

#[test]
fn burst_accelerates_faster_and_ends_at_limit() {
    let mut s = ShipActor::default();
    s.advance(&held(false), BURST_DELAY);
    assert!(s.speedburst.1);
    let burst = InputIntent { forward: true, burst: true, ..InputIntent::default() };
    s.advance(&burst, BURST_DELAY + 1);
    // 2000 * 121 / 100.
    assert_eq!(s.deltav, 2_420);
    let mut t = BURST_DELAY + 2;
    while s.speedburst.1 {
        s.advance(&burst, t);
        t += 1;
    }
    assert_eq!(s.deltav, VELOCITY_LIMIT);
    assert_eq!(s.speedburst, (t - 1, false));
    // Without eligibility, burst intent falls back to plain thrust.
    let v = s.deltav;
    s.advance(&burst, t);
    assert_eq!(s.deltav, v);
}

#[test]
fn projectile_leaves_ship_with_its_heading() {
    let s = ShipActor::default();
    let p = ProjectileActor::new(&s);
    assert_eq!(p.pos, s.pos);
    assert_eq!(p.heading, s.heading);
    assert_eq!(p.deltav, PROJECTILE_VELOCITY);
    assert!(p.in_bounds());
}

#[test]
fn projectile_displacement_follows_geometric_series() {
    let s = ShipActor::default();
    let mut p = ProjectileActor::new(&s);
    let start = p.pos;
    for n in 1..=20 {
        p.advance();
        let closed = PROJECTILE_VELOCITY as f64 * (1.2f64.powi(n) - 1.0) / 0.2;
        let travelled = (start.y - p.pos.y) as f64;
        assert_eq!(p.pos.x, start.x);
        assert!((travelled - closed).abs() <= closed * 0.005 + 1.0, "tick {}: {} vs {}", n, travelled, closed);
    }
}

#[test]
fn projectile_speed_stops_at_cap() {
    let mut p = ProjectileActor { pos: Point { x: 0, y: 0 }, heading: Direction { x: 0, y: 0 }, deltav: MAX_SPEED - 1 };
    p.advance();
    assert_eq!(p.deltav, MAX_SPEED);
    assert_eq!(p.pos, Point { x: 0, y: 0 });
}

#[test]
fn projectile_out_of_bounds() {
    let p = ProjectileActor { pos: Point { x: 10, y: -1 }, heading: Direction { x: 0, y: 0 }, deltav: 1_000 };
    assert!(!p.in_bounds());
}

#[test]
fn enemy_hits_and_elimination() {
    let mut e = EnemyActor::new(1, 2, Direction { x: 0, y: 0 });
    assert_eq!(e.hitpoints, HITPOINTS);
    for _ in 0..4 {
        e.hit();
        assert!(!e.is_eliminated());
    }
    e.hit();
    assert_eq!(e.hitpoints, 0);
    assert!(e.is_eliminated());
}

#[test]
fn spawned_enemies_are_in_arena_and_spread() {
    let mut xs = Vec::new();
    for _ in 0..30 {
        let e = EnemyActor::spawn();
        assert!(e.pos.x >= 0 && e.pos.x < ARENA_WIDTH);
        assert!(e.pos.y >= 0 && e.pos.y < ARENA_HEIGHT);
        assert_eq!(e.hitpoints, HITPOINTS);
        assert_eq!(e.deltav, ENEMY_VELOCITY);
        xs.push(e.pos.x);
    }
    assert!(xs.iter().any(|&x| x != xs[0]));
    assert!(xs.iter().any(|&x| x != 0));
}

#[test]
fn enemy_pursues_ship_straight_down() {
    let ship = ShipActor::new(400_000, 300_000, 0);
    let mut e = EnemyActor::new(400_000, 100_000, Direction { x: 0, y: 0 });
    let mut last = dist2(e.pos, ship.pos);
    let mut ticks = 0;
    while dist2(e.pos, ship.pos) >= COLLISION_RADIUS * COLLISION_RADIUS {
        e.face_player(&ship);
        // Pointing toward increasing y, with no sideways part.
        assert_eq!(e.heading.x, 0);
        assert!(e.heading.y > 0);
        e.advance();
        let d = dist2(e.pos, ship.pos);
        assert!(d < last);
        last = d;
        ticks += 1;
        assert!(ticks < 10_000);
    }
    assert_eq!(ticks, (200_000 - 30_000) / ENEMY_VELOCITY + 1);
}

#[test]
fn enemy_pursuit_on_a_diagonal() {
    let ship = ShipActor::new(400_000, 300_000, 0);
    let mut e = EnemyActor::new(100_000, 550_000, Direction { x: 0, y: 0 });
    let mut last = dist2(e.pos, ship.pos);
    for _ in 0..100 {
        e.face_player(&ship);
        e.advance();
        let d = dist2(e.pos, ship.pos);
        assert!(d < last);
        last = d;
    }
}

#[test]
fn enemy_stops_on_the_ship() {
    let ship = ShipActor::new(400_000, 300_000, 0);
    let mut e = EnemyActor::new(400_100, 300_050, Direction { x: 0, y: 0 });
    e.face_player(&ship);
    e.advance();
    assert_eq!(e.pos, ship.pos);
}
