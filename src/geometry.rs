//! Fixed-point geometry shared by every actor.
//!
//! Coordinates are integers in thousandths of an arena unit; the origin is the
//! top-left corner of the arena and `y` grows downward. Directions are
//! integer vectors whose length is at most `DIRECTION_SCALE`.
use vstd::prelude::*;

verus! {

/// Sub-units per arena unit.
pub const UNIT: i64 = 1000;

/// Width of the arena, in sub-units.
pub const ARENA_WIDTH: i64 = 800_000;

/// Height of the arena, in sub-units.
pub const ARENA_HEIGHT: i64 = 600_000;

/// Length of a full-length direction vector.
pub const DIRECTION_SCALE: i64 = 1_000_000;

/// Distance under which a projectile hits an enemy, in sub-units.
pub const COLLISION_RADIUS: i64 = 30_000;

/// A position in the arena, in sub-units.
#[derive(Clone, Copy, Debug, PartialEq, Eq, Structural)]
pub struct Point {
    pub x: i64,
    pub y: i64,
}

/// A direction (or an offset) in the arena plane.
#[derive(Clone, Copy, Debug, PartialEq, Eq, Structural)]
pub struct Direction {
    pub x: i64,
    pub y: i64,
}

/// `p` lies in the closed arena rectangle.
pub open spec fn in_arena(p: Point) -> bool {
    0 <= p.x <= ARENA_WIDTH && 0 <= p.y <= ARENA_HEIGHT
}

/// Both components of `d` are at most `DIRECTION_SCALE` in magnitude.
pub open spec fn bounded_direction(d: Direction) -> bool {
    -DIRECTION_SCALE <= d.x <= DIRECTION_SCALE && -DIRECTION_SCALE <= d.y <= DIRECTION_SCALE
}

/// Squared Euclidean distance between two points.
pub open spec fn dist2(a: Point, b: Point) -> int {
    (a.x - b.x) * (a.x - b.x) + (a.y - b.y) * (a.y - b.y)
}

/// `a` and `b` are strictly closer than `COLLISION_RADIUS`.
pub open spec fn within_radius(a: Point, b: Point) -> bool {
    dist2(a, b) < COLLISION_RADIUS * COLLISION_RADIUS
}

/// `r` is the integer square root of `n`.
pub open spec fn is_root(n: int, r: int) -> bool {
    0 <= r && r * r <= n && n < (r + 1) * (r + 1)
}

/// The integer square root of a non-negative `n`.
pub open spec fn root(n: int) -> int {
    choose|r: int| is_root(n, r)
}

/// `a * num / den`, rounded toward zero.
pub open spec fn scale(a: int, num: int, den: int) -> int {
    if a >= 0 {
        (a * num) / den
    } else {
        -((-a * num) / den)
    }
}

/// `v` clamped to `[lo, hi]`.
pub open spec fn clamp(v: int, lo: int, hi: int) -> int {
    if v < lo {
        lo
    } else if v > hi {
        hi
    } else {
        v
    }
}

proof fn lemma_root_unique(n: int, r1: int, r2: int)
    requires
        is_root(n, r1),
        is_root(n, r2),
    ensures
        r1 == r2,
{
    if r1 < r2 {
        assert((r1 + 1) * (r1 + 1) <= r2 * r2) by (nonlinear_arith)
            requires
                0 <= r1,
                r1 + 1 <= r2,
        ;
    } else if r2 < r1 {
        assert((r2 + 1) * (r2 + 1) <= r1 * r1) by (nonlinear_arith)
            requires
                0 <= r2,
                r2 + 1 <= r1,
        ;
    }
}

/// Any `r` that brackets `n` is `root(n)`.
pub proof fn lemma_root_is(n: int, r: int)
    requires
        is_root(n, r),
    ensures
        root(n) == r,
{
    lemma_root_unique(n, r, root(n));
}

/// Integer square root, by bisection.
pub fn isqrt(n: u64) -> (r: u64)
    ensures
        is_root(n as int, r as int),
        r == root(n as int),
{
    let mut lo: u64 = 0;
    let mut hi: u64 = 4294967296;
    assert(n < hi * hi) by (nonlinear_arith)
        requires
            hi == 4294967296,
            n <= u64::MAX,
    ;
    while hi - lo > 1
        invariant
            lo < hi <= 4294967296,
            lo * lo <= n,
            n < hi * hi,
        decreases hi - lo,
    {
        let mid: u64 = lo + (hi - lo) / 2;
        assert(mid * mid <= u64::MAX) by (nonlinear_arith)
            requires
                mid < 4294967296,
        ;
        if mid * mid <= n {
            lo = mid;
        } else {
            hi = mid;
        }
    }
    assert(hi == lo + 1);
    proof {
        lemma_root_is(n as int, lo as int);
    }
    lo
}

/// `a * num / den` rounded toward zero, for bounded operands.
pub fn scale_i64(a: i64, num: i64, den: i64) -> (r: i64)
    requires
        den > 0,
        0 <= num <= 1_000_000_000,
        -1_000_000_000 <= a <= 1_000_000_000,
    ensures
        r == scale(a as int, num as int, den as int),
        -1_000_000_000_000_000_000 <= r <= 1_000_000_000_000_000_000,
{
    if a >= 0 {
        assert(0 <= a * num <= 1_000_000_000_000_000_000) by (nonlinear_arith)
            requires
                0 <= a <= 1_000_000_000,
                0 <= num <= 1_000_000_000,
        ;
        let r = a * num / den;
        assert(r <= a * num) by (nonlinear_arith)
            requires
                r == (a * num) / (den as int),
                den > 0,
                a * num >= 0,
        ;
        r
    } else {
        let m: i64 = -a;
        assert(0 <= m * num <= 1_000_000_000_000_000_000) by (nonlinear_arith)
            requires
                0 <= m <= 1_000_000_000,
                0 <= num <= 1_000_000_000,
        ;
        let q = m * num / den;
        assert(q <= m * num) by (nonlinear_arith)
            requires
                q == (m * num) / (den as int),
                den > 0,
                m * num >= 0,
        ;
        -q
    }
}

/// `v` clamped to `[lo, hi]`.
pub fn clamp_i64(v: i64, lo: i64, hi: i64) -> (r: i64)
    requires
        lo <= hi,
    ensures
        r == clamp(v as int, lo as int, hi as int),
{
    if v < lo {
        lo
    } else if v > hi {
        hi
    } else {
        v
    }
}

/// Whether two points are strictly closer than `COLLISION_RADIUS`: a box
/// test first, then the exact squared distance.
pub fn points_within_radius(a: Point, b: Point) -> (r: bool)
    ensures
        r == within_radius(a, b),
{
    let dx: i128 = a.x as i128 - b.x as i128;
    let dy: i128 = a.y as i128 - b.y as i128;
    let rad: i128 = COLLISION_RADIUS as i128;
    if dx >= rad || dx <= -rad || dy >= rad || dy <= -rad {
        assert(dist2(a, b) >= COLLISION_RADIUS * COLLISION_RADIUS) by (nonlinear_arith)
            requires
                dx == a.x - b.x,
                dy == a.y - b.y,
                dx >= 30_000 || dx <= -30_000 || dy >= 30_000 || dy <= -30_000,
                COLLISION_RADIUS == 30_000,
        ;
        return false;
    }
    assert(0 <= dx * dx <= 900_000_000 && 0 <= dy * dy <= 900_000_000) by (nonlinear_arith)
        requires
            -30_000 < dx < 30_000,
            -30_000 < dy < 30_000,
    ;
    dx * dx + dy * dy < rad * rad
}

/// A scaled component is no larger than the scale factor when the component
/// is no larger than the divisor.
pub proof fn lemma_scale_bound(a: int, num: int, den: int)
    requires
        den > 0,
        num >= 0,
        -den <= a <= den,
    ensures
        -num <= scale(a, num, den) <= num,
        a >= 0 ==> scale(a, num, den) >= 0,
        a <= 0 ==> scale(a, num, den) <= 0,
{
    if a >= 0 {
        assert(a * num <= den * num) by (nonlinear_arith)
            requires
                0 <= a <= den,
                num >= 0,
        ;
        assert((a * num) / den <= num) by (nonlinear_arith)
            requires
                a * num <= den * num,
                den > 0,
        ;
        assert((a * num) / den >= 0) by (nonlinear_arith)
            requires
                a >= 0,
                num >= 0,
                den > 0,
        ;
    } else {
        assert(-a * num <= den * num) by (nonlinear_arith)
            requires
                0 <= -a <= den,
                num >= 0,
        ;
        assert((-a * num) / den <= num) by (nonlinear_arith)
            requires
                -a * num <= den * num,
                den > 0,
        ;
        assert((-a * num) / den >= 0) by (nonlinear_arith)
            requires
                -a >= 0,
                num >= 0,
                den > 0,
        ;
    }
}

/// Scaling by a factor of at most one keeps the sign and does not grow the
/// magnitude.
pub proof fn lemma_scale_shrinks(a: int, num: int, den: int)
    requires
        den > 0,
        0 <= num <= den,
    ensures
        a >= 0 ==> 0 <= scale(a, num, den) <= a,
        a <= 0 ==> a <= scale(a, num, den) <= 0,
{
    if a >= 0 {
        assert(0 <= (a * num) / den <= a) by (nonlinear_arith)
            requires
                a >= 0,
                0 <= num <= den,
                den > 0,
        ;
    } else {
        assert(0 <= (-a * num) / den <= -a) by (nonlinear_arith)
            requires
                a < 0,
                0 <= num <= den,
                den > 0,
        ;
    }
}

/// `b` lies between `a` and `c`, either way round.
pub open spec fn between(a: int, b: int, c: int) -> bool {
    (a <= b <= c) || (c <= b <= a)
}

/// `p` moved by `v` along `d`, each component rounded toward zero.
pub open spec fn moved(p: Point, d: Direction, v: int) -> Point {
    Point {
        x: (p.x + scale(d.x as int, v, DIRECTION_SCALE as int)) as i64,
        y: (p.y + scale(d.y as int, v, DIRECTION_SCALE as int)) as i64,
    }
}

/// `p` clamped into the arena.
pub open spec fn clamped(p: Point) -> Point {
    Point { x: clamp(p.x as int, 0, ARENA_WIDTH as int) as i64, y: clamp(p.y as int, 0, ARENA_HEIGHT as int) as i64 }
}

/// `a / den`, rounded toward zero.
pub fn div_toward_zero(a: i64, den: i64) -> (r: i64)
    requires
        den > 0,
        a > i64::MIN,
    ensures
        r == scale(a as int, 1, den as int),
{
    if a >= 0 {
        a / den
    } else {
        let m: i64 = -a;
        -(m / den)
    }
}

/// Moves `p` by `v` along a bounded direction.
pub fn move_point(p: Point, d: Direction, v: i64) -> (r: Point)
    requires
        bounded_direction(d),
        0 <= v <= 1_000_000_000,
        -4_000_000_000_000 <= p.x <= 4_000_000_000_000,
        -4_000_000_000_000 <= p.y <= 4_000_000_000_000,
    ensures
        r == moved(p, d, v as int),
        p.x - v <= r.x <= p.x + v,
        p.y - v <= r.y <= p.y + v,
{
    proof {
        lemma_scale_bound(d.x as int, v as int, DIRECTION_SCALE as int);
        lemma_scale_bound(d.y as int, v as int, DIRECTION_SCALE as int);
    }
    let dx = scale_i64(d.x, v, DIRECTION_SCALE);
    let dy = scale_i64(d.y, v, DIRECTION_SCALE);
    Point { x: p.x + dx, y: p.y + dy }
}

/// Clamps `p` into the arena.
pub fn clamp_point(p: Point) -> (r: Point)
    ensures
        r == clamped(p),
        in_arena(r),
{
    Point { x: clamp_i64(p.x, 0, ARENA_WIDTH), y: clamp_i64(p.y, 0, ARENA_HEIGHT) }
}

} // verus!
