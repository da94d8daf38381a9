//! The player ship: movement, turning, speed bursts and fire control.
//!
//! Time is a monotonic millisecond count supplied by the host each tick;
//! elapsed time saturates at zero, so a clock read earlier than a stored
//! timestamp never yields a negative cooldown.
use vstd::prelude::*;
use crate::collision::Actor;
use crate::geometry::{
    Point, Direction, in_arena, bounded_direction, moved, clamped, scale, root, is_root, move_point,
    clamp_point, isqrt, scale_i64, div_toward_zero, lemma_scale_bound, DIRECTION_SCALE,
};
use crate::projectile::ProjectileActor;

verus! {

/// Cruising speed, in sub-units per tick.
pub const VELOCITY: i64 = 2_000;

/// Highest speed.
pub const VELOCITY_LIMIT: i64 = 20_000;

/// Per-tick speed factor while thrusting, as a fraction.
pub const ACCELERATION_NUM: i64 = 11;

pub const ACCELERATION_DEN: i64 = 10;

/// Per-tick speed factor while bursting (the thrust factor applied twice).
pub const BURST_ACCELERATION_NUM: i64 = 121;

pub const BURST_ACCELERATION_DEN: i64 = 100;

/// Speed when backing up.
pub const BACKPEDAL: i64 = 1_000;

/// Minimum time between two shots, in milliseconds.
pub const SHOT_DELAY: u64 = 200;

/// Minimum time from the end of a burst until the next may start, in milliseconds.
pub const BURST_DELAY: u64 = 1000;

/// Cosine of the turn per tick (0.05 rad), scaled by `DIRECTION_SCALE`.
pub const TURN_COS: i64 = 998_750;

/// Sine of the turn per tick (0.05 rad), scaled by `DIRECTION_SCALE`.
pub const TURN_SIN: i64 = 49_979;

/// Where the ship starts.
pub const DEFAULT_POS_X: i64 = 400_000;

pub const DEFAULT_POS_Y: i64 = 300_000;

/// What the player asks for during one tick.
#[derive(Clone, Copy, Debug, Default, PartialEq, Eq, Structural)]
pub struct InputIntent {
    pub forward: bool,
    pub brake: bool,
    pub turn_left: bool,
    pub turn_right: bool,
    pub fire: bool,
    pub burst: bool,
    pub burst_release: bool,
}

/// The player ship.
#[derive(Clone, Copy, Debug)]
pub struct ShipActor {
    pub pos: Point,
    pub heading: Direction,
    /// Current speed.
    pub deltav: i64,
    /// When the last shot was fired.
    pub lastshot: u64,
    /// When the last burst ended, and whether a burst may start.
    pub speedburst: (u64, bool),
}

/// Milliseconds from `then` to `now`, zero when `now` is earlier.
pub open spec fn elapsed(now: u64, then: u64) -> int {
    if now >= then {
        now - then
    } else {
        0
    }
}

/// Milliseconds from `then` to `now`, zero when `now` is earlier.
pub fn elapsed_ms(now: u64, then: u64) -> (r: u64)
    ensures
        r == elapsed(now, then),
{
    if now >= then {
        now - then
    } else {
        0
    }
}

/// Speed after one tick of thrust.
pub open spec fn thrust_speed(v: int) -> int {
    if v * (ACCELERATION_NUM as int) / (ACCELERATION_DEN as int) > VELOCITY_LIMIT {
        VELOCITY_LIMIT as int
    } else {
        v * (ACCELERATION_NUM as int) / (ACCELERATION_DEN as int)
    }
}

/// Speed after one tick of burst.
pub open spec fn burst_speed(v: int) -> int {
    if v * (BURST_ACCELERATION_NUM as int) / (BURST_ACCELERATION_DEN as int) > VELOCITY_LIMIT {
        VELOCITY_LIMIT as int
    } else {
        v * (BURST_ACCELERATION_NUM as int) / (BURST_ACCELERATION_DEN as int)
    }
}

/// `d` rotated by the turn angle with sine `s`, before renormalising.
pub open spec fn rotated(d: Direction, s: int) -> (int, int) {
    (
        scale(d.x * TURN_COS - d.y * s, 1, DIRECTION_SCALE as int),
        scale(d.y * TURN_COS + d.x * s, 1, DIRECTION_SCALE as int),
    )
}

/// `d` turned by the turn angle with sine `s` and brought back to full length.
pub open spec fn turned(d: Direction, s: int) -> Direction {
    let (x, y) = rotated(d, s);
    let len = root(x * x + y * y);
    if len == 0 {
        d
    } else {
        Direction {
            x: scale(x, DIRECTION_SCALE as int, len) as i64,
            y: scale(y, DIRECTION_SCALE as int, len) as i64,
        }
    }
}

/// Turns a bounded direction; `s` is `TURN_SIN` for a left turn and
/// `-TURN_SIN` for a right one.
fn turn(d: Direction, s: i64) -> (r: Direction)
    requires
        bounded_direction(d),
        -TURN_SIN <= s <= TURN_SIN,
    ensures
        r == turned(d, s as int),
        bounded_direction(r),
{
    assert(-1_100_000_000_000 <= d.x * TURN_COS - d.y * s <= 1_100_000_000_000) by (nonlinear_arith)
        requires
            -1_000_000 <= d.x <= 1_000_000,
            -1_000_000 <= d.y <= 1_000_000,
            -49_979 <= s <= 49_979,
            TURN_COS == 998_750,
    ;
    assert(-1_100_000_000_000 <= d.y * TURN_COS + d.x * s <= 1_100_000_000_000) by (nonlinear_arith)
        requires
            -1_000_000 <= d.x <= 1_000_000,
            -1_000_000 <= d.y <= 1_000_000,
            -49_979 <= s <= 49_979,
            TURN_COS == 998_750,
    ;
    let x = div_toward_zero(d.x * TURN_COS - d.y * s, DIRECTION_SCALE);
    let y = div_toward_zero(d.y * TURN_COS + d.x * s, DIRECTION_SCALE);
    assert(-1_100_000 <= x <= 1_100_000);
    assert(-1_100_000 <= y <= 1_100_000);
    assert(0 <= x * x <= 1_210_000_000_000) by (nonlinear_arith)
        requires
            -1_100_000 <= x <= 1_100_000,
    ;
    assert(0 <= y * y <= 1_210_000_000_000) by (nonlinear_arith)
        requires
            -1_100_000 <= y <= 1_100_000,
    ;
    let n: u64 = (x * x + y * y) as u64;
    let len = isqrt(n);
    assert(len <= 2_000_000) by (nonlinear_arith)
        requires
            len * len <= n,
            n <= 2_420_000_000_000,
            len >= 0,
    ;
    if len == 0 {
        return d;
    }
    assert(-(len as int) <= x <= len && -(len as int) <= y <= len) by (nonlinear_arith)
        requires
            x * x + y * y < (len + 1) * (len + 1),
            len >= 0,
    ;
    proof {
        lemma_scale_bound(x as int, DIRECTION_SCALE as int, len as int);
        lemma_scale_bound(y as int, DIRECTION_SCALE as int, len as int);
    }
    Direction { x: scale_i64(x, DIRECTION_SCALE, len as i64), y: scale_i64(y, DIRECTION_SCALE, len as i64) }
}

impl ShipActor {
    /// Well-formed: inside the arena, a bounded heading, and a speed between
    /// cruising speed and the limit.
    pub open spec fn wf(self) -> bool {
        &&& in_arena(self.pos)
        &&& bounded_direction(self.heading)
        &&& VELOCITY <= self.deltav <= VELOCITY_LIMIT
    }

    /// A ship placed at `pos` (clamped into the arena) at time `now`,
    /// heading up at cruising speed, with no burst available yet.
    pub open spec fn placed(pos: Point, now: u64) -> ShipActor {
        ShipActor {
            pos: clamped(pos),
            heading: Direction { x: 0, y: (-DIRECTION_SCALE) as i64 },
            deltav: VELOCITY,
            lastshot: now,
            speedburst: (now, false),
        }
    }

    /// The ship with its burst ended at `now`.
    pub open spec fn burst_ended(self, now: u64) -> ShipActor {
        ShipActor { speedburst: (now, false), ..self }
    }

    /// The ship with speed `v`.
    pub open spec fn with_speed(self, v: int) -> ShipActor {
        ShipActor { deltav: v as i64, ..self }
    }

    /// The ship after a shot at `now`.
    pub open spec fn shot_at(self, now: u64) -> ShipActor {
        ShipActor { lastshot: now, ..self }
    }

    /// A shot is accepted at `now`.
    pub open spec fn can_fire(self, now: u64) -> bool {
        elapsed(now, self.lastshot) > SHOT_DELAY
    }

    /// After a deceleration: back to cruising speed, and a burst becomes
    /// available once `BURST_DELAY` has passed since the last one ended.
    pub open spec fn deaccelerated(self, now: u64) -> ShipActor {
        ShipActor {
            deltav: VELOCITY,
            speedburst: (self.speedburst.0, self.speedburst.1 || elapsed(now, self.speedburst.0) >= BURST_DELAY),
            ..self
        }
    }

    /// Speed change while thrusting: a burst when one is asked for and
    /// available (reaching the limit ends it), plain thrust otherwise.
    pub open spec fn thrusted(self, burst: bool, now: u64) -> ShipActor {
        if burst && self.speedburst.1 {
            let v = burst_speed(self.deltav as int);
            if v >= VELOCITY_LIMIT {
                ShipActor { deltav: v as i64, speedburst: (now, false), ..self }
            } else {
                ShipActor { deltav: v as i64, ..self }
            }
        } else {
            ShipActor { deltav: thrust_speed(self.deltav as int) as i64, ..self }
        }
    }

    /// After forward motion at the current speed.
    pub open spec fn forward_moved(self) -> ShipActor {
        ShipActor { pos: clamped(moved(self.pos, self.heading, self.deltav as int)), ..self }
    }

    /// After backing up at `BACKPEDAL`.
    pub open spec fn backed(self) -> ShipActor {
        ShipActor {
            pos: clamped(moved(self.pos, Direction { x: (-self.heading.x) as i64, y: (-self.heading.y) as i64 }, BACKPEDAL as int)),
            ..self
        }
    }

    /// The ship after one tick of movement under `intent` at `now`.
    pub open spec fn advanced(self, intent: InputIntent, now: u64) -> ShipActor {
        let s1 = if intent.forward {
            self.thrusted(intent.burst, now).forward_moved()
        } else {
            self.deaccelerated(now)
        };
        let s2 = if intent.brake { s1.backed() } else { s1 };
        let s3 = if intent.turn_left {
            ShipActor { heading: turned(s2.heading, TURN_SIN as int), ..s2 }
        } else {
            s2
        };
        if intent.turn_right {
            ShipActor { heading: turned(s3.heading, -TURN_SIN as int), ..s3 }
        } else {
            s3
        }
    }

    /// A ship at `(pos_x, pos_y)`, clamped into the arena, at time `now`.
    pub fn new(pos_x: i64, pos_y: i64, now: u64) -> (r: ShipActor)
        ensures
            r == ShipActor::placed(Point { x: pos_x, y: pos_y }, now),
            r.wf(),
    {
        ShipActor {
            pos: clamp_point(Point { x: pos_x, y: pos_y }),
            heading: Direction { x: 0, y: -DIRECTION_SCALE },
            deltav: VELOCITY,
            lastshot: now,
            speedburst: (now, false),
        }
    }

    /// One tick of movement: thrust (or deceleration when not thrusting),
    /// backing up, and turning, as `intent` asks.
    pub fn advance(&mut self, intent: &InputIntent, now: u64)
        requires
            old(self).wf(),
        ensures
            *final(self) == old(self).advanced(*intent, now),
            final(self).wf(),
    {
        if intent.forward {
            self.speedburst_keydown(intent.burst, now);
            self.pos = clamp_point(move_point(self.pos, self.heading, self.deltav));
        } else {
            self.deaccelerate(now);
        }
        if intent.brake {
            let back = Direction { x: -self.heading.x, y: -self.heading.y };
            self.pos = clamp_point(move_point(self.pos, back, BACKPEDAL));
        }
        if intent.turn_left {
            self.heading = turn(self.heading, TURN_SIN);
        }
        if intent.turn_right {
            self.heading = turn(self.heading, -TURN_SIN);
        }
    }

    /// Fires when asked and when more than `SHOT_DELAY` has passed since
    /// the last shot: a projectile joins `projectiles` and the shot time is
    /// reset. Requests that come sooner are dropped.
    pub fn shoot(&mut self, projectiles: &mut Vec<ProjectileActor>, fire: bool, now: u64)
        ensures
            final(projectiles)@ == (if fire && old(self).can_fire(now) {
                old(projectiles)@.push(ProjectileActor::fired_by(*old(self)))
            } else {
                old(projectiles)@
            }),
            *final(self) == (if fire && old(self).can_fire(now) {
                old(self).shot_at(now)
            } else {
                *old(self)
            }),
    {
        if fire && elapsed_ms(now, self.lastshot) > SHOT_DELAY {
            projectiles.push(ProjectileActor::new(self));
            self.lastshot = now;
        }
    }

    /// The direction the ship faces.
    pub fn get_direction_vector(&self) -> (r: Direction)
        ensures
            r == self.heading,
    {
        self.heading
    }

    /// Burst released: the burst ends now and the ship decelerates.
    pub fn speedburst_keyup(&mut self, now: u64)
        ensures
            *final(self) == old(self).burst_ended(now).deaccelerated(now),
    {
        self.reset_speedburst_timer(now);
        self.deaccelerate(now);
    }

    /// Speed change while thrusting.
    fn speedburst_keydown(&mut self, burst: bool, now: u64)
        requires
            old(self).wf(),
        ensures
            *final(self) == old(self).thrusted(burst, now),
            final(self).wf(),
    {
        let (_, can_burst) = self.speedburst;
        if burst && can_burst {
            self.burst_accelerate(now);
        } else {
            self.accelerate();
        }
    }

    /// The current burst is over at `now`.
    fn reset_speedburst_timer(&mut self, now: u64)
        ensures
            *final(self) == old(self).burst_ended(now),
    {
        self.speedburst = (now, false);
    }

    /// One tick of thrust.
    fn accelerate(&mut self)
        requires
            old(self).wf(),
        ensures
            *final(self) == old(self).with_speed(thrust_speed(old(self).deltav as int)),
            final(self).wf(),
    {
        let v = self.deltav * ACCELERATION_NUM / ACCELERATION_DEN;
        self.deltav = if v > VELOCITY_LIMIT { VELOCITY_LIMIT } else { v };
    }

    /// One tick of burst; reaching the limit ends the burst.
    fn burst_accelerate(&mut self, now: u64)
        requires
            old(self).wf(),
            old(self).speedburst.1,
        ensures
            *final(self) == old(self).thrusted(true, now),
            final(self).wf(),
    {
        let v = self.deltav * BURST_ACCELERATION_NUM / BURST_ACCELERATION_DEN;
        self.deltav = if v > VELOCITY_LIMIT { VELOCITY_LIMIT } else { v };
        if self.deltav >= VELOCITY_LIMIT {
            self.reset_speedburst_timer(now);
        }
    }

    /// Back to cruising speed; re-arms the burst once `BURST_DELAY` has
    /// passed since the last one ended.
    fn deaccelerate(&mut self, now: u64)
        ensures
            *final(self) == old(self).deaccelerated(now),
    {
        self.deltav = VELOCITY;
        if elapsed_ms(now, self.speedburst.0) >= BURST_DELAY {
            self.speedburst.1 = true;
        }
    }
}

impl Default for ShipActor {
    /// The ship at its starting place at time zero.
    fn default() -> (r: ShipActor)
        ensures
            r == ShipActor::placed(Point { x: DEFAULT_POS_X, y: DEFAULT_POS_Y }, 0),
            r.wf(),
    {
        ShipActor::new(DEFAULT_POS_X, DEFAULT_POS_Y, 0)
    }
}

impl Actor for ShipActor {
    open spec fn position(&self) -> Point {
        self.pos
    }

    /// The ship's position.
    fn get_position(&self) -> (r: Point) {
        self.pos
    }
}

/// The times at which a ship with fire held shoots, when asked at each of
/// `times` in turn.
pub open spec fn shot_times(ship: ShipActor, times: Seq<u64>) -> Seq<u64>
    decreases times.len(),
{
    if times.len() == 0 {
        Seq::empty()
    } else if ship.can_fire(times[0]) {
        seq![times[0]] + shot_times(ship.shot_at(times[0]), times.drop_first())
    } else {
        shot_times(ship, times.drop_first())
    }
}

/// Every shot comes more than `SHOT_DELAY` after the ship's last shot, and
/// each shot more than `SHOT_DELAY` after the one before.
proof fn lemma_shots_spaced(ship: ShipActor, times: Seq<u64>)
    ensures
        forall|k: int| 0 <= k < shot_times(ship, times).len() ==> #[trigger] shot_times(ship, times)[k]
            > ship.lastshot + SHOT_DELAY,
        forall|k: int| 0 <= k < shot_times(ship, times).len() - 1 ==> #[trigger] shot_times(ship, times)[k + 1]
            > shot_times(ship, times)[k] + SHOT_DELAY,
    decreases times.len(),
{
    if times.len() > 0 {
        let t = times[0];
        if ship.can_fire(t) {
            lemma_shots_spaced(ship.shot_at(t), times.drop_first());
            let rest = shot_times(ship.shot_at(t), times.drop_first());
            assert(shot_times(ship, times) == seq![t] + rest);
            assert forall|k: int| 0 <= k < shot_times(ship, times).len() - 1 implies #[trigger] shot_times(ship, times)[k
                + 1] > shot_times(ship, times)[k] + SHOT_DELAY by {
                if k > 0 {
                    assert(shot_times(ship, times)[k + 1] == rest[k]);
                    assert(shot_times(ship, times)[k] == rest[k - 1]);
                    assert(rest[(k - 1) + 1] > rest[k - 1] + SHOT_DELAY);
                } else {
                    assert(shot_times(ship, times)[1] == rest[0]);
                    assert(rest[0] > ship.shot_at(t).lastshot + SHOT_DELAY);
                }
            }
            assert forall|k: int| 0 <= k < shot_times(ship, times).len() implies #[trigger] shot_times(ship, times)[k]
                > ship.lastshot + SHOT_DELAY by {
                if k > 0 {
                    assert(shot_times(ship, times)[k] == rest[k - 1]);
                    assert(rest[k - 1] > ship.shot_at(t).lastshot + SHOT_DELAY);
                }
            }
        } else {
            lemma_shots_spaced(ship, times.drop_first());
            assert(shot_times(ship, times) == shot_times(ship, times.drop_first()));
        }
    }
}

/// Shots `a` and `b` of a run are more than `SHOT_DELAY` apart per step.
proof fn lemma_shots_gap(s: Seq<u64>, a: int, b: int)
    requires
        0 <= a <= b < s.len(),
        forall|k: int| 0 <= k < s.len() - 1 ==> #[trigger] s[k + 1] > s[k] + SHOT_DELAY,
    ensures
        s[b] - s[a] >= (SHOT_DELAY + 1) * (b - a),
    decreases b - a,
{
    if a < b {
        lemma_shots_gap(s, a, b - 1);
        assert(s[(b - 1) + 1] > s[b - 1] + SHOT_DELAY);
    }
}

/// Fire-rate debounce: with fire held, any window of 1000 ms holds at most
/// five shots (`1000 / SHOT_DELAY`): shots `a` through `b` that all fall in
/// `[w, w + 1000]` number at most five.
pub proof fn lemma_fire_rate(ship: ShipActor, times: Seq<u64>, w: int, a: int, b: int)
    requires
        0 <= a <= b < shot_times(ship, times).len(),
        w <= shot_times(ship, times)[a],
        shot_times(ship, times)[b] <= w + 1000,
    ensures
        b - a + 1 <= 5,
{
    lemma_shots_spaced(ship, times);
    lemma_shots_gap(shot_times(ship, times), a, b);
}

} // verus!
