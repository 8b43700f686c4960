//! Fixed-point geometry. Every length, coordinate and factor is a whole
//! number of thousandths: `UNIT` stands for one.

use vstd::prelude::*;

verus! {

/// One, in thousandths.
pub const UNIT: i64 = 1000;

/// The size of an icon where no configuration says otherwise.
pub const ICON_SIZE: i64 = 56000;

/// The factor by which a hit region is larger than the icon it belongs to.
pub const HIT_TOLERANCE: i64 = 1100;

/// The largest coordinate that the layout takes.
pub const MAX_COORD: i64 = 1_000_000_000_000;

/// The largest coordinate of a point from which, or to which, a direction is
/// taken.
pub const MAX_REACH: i64 = 100_000_000_000_000_000;

/// A point or a direction in the plane.
#[derive(Clone, Copy, Debug, PartialEq, Eq, Structural)]
pub struct Vec2 {
    pub x: i64,
    pub y: i64,
}

/// A point in space; `z` is the depth, larger in front.
#[derive(Clone, Copy, Debug, PartialEq, Eq, Structural)]
pub struct Vec3 {
    pub x: i64,
    pub y: i64,
    pub z: i64,
}

/// The distance of `a` from `b` on one axis.
pub open spec fn gap(a: i64, b: i64) -> int {
    if a >= b {
        a - b
    } else {
        b - a
    }
}

/// The distance of `a` from `b` on one axis.
pub fn axis_gap(a: i64, b: i64) -> (d: u64)
    ensures
        d == gap(a, b),
{
    if a >= b {
        (a as i128 - b as i128) as u64
    } else {
        (b as i128 - a as i128) as u64
    }
}

impl Vec2 {
    /// The origin.
    pub fn zero() -> (r: Vec2)
        ensures
            r == (Vec2 { x: 0, y: 0 }),
    {
        Vec2 { x: 0, y: 0 }
    }

    /// Whether both coordinates are within `MAX_COORD` of zero.
    pub open spec fn in_range(self) -> bool {
        -MAX_COORD <= self.x <= MAX_COORD && -MAX_COORD <= self.y <= MAX_COORD
    }

    /// Whether both coordinates are within `MAX_COORD` of zero.
    pub fn is_in_range(&self) -> (r: bool)
        ensures
            r == self.in_range(),
    {
        -MAX_COORD <= self.x && self.x <= MAX_COORD && -MAX_COORD <= self.y && self.y <= MAX_COORD
    }

    /// Whether both coordinates are within `MAX_REACH` of zero.
    pub open spec fn in_reach(self) -> bool {
        -MAX_REACH <= self.x <= MAX_REACH && -MAX_REACH <= self.y <= MAX_REACH
    }

    /// Whether both coordinates are within `MAX_REACH` of zero.
    pub fn is_in_reach(&self) -> (r: bool)
        ensures
            r == self.in_reach(),
    {
        -MAX_REACH <= self.x && self.x <= MAX_REACH && -MAX_REACH <= self.y && self.y <= MAX_REACH
    }

    /// The square of the distance between two points, in units of a
    /// millionth.
    pub open spec fn distance_squared(self, other: Vec2) -> int {
        gap(self.x, other.x) * gap(self.x, other.x) + gap(self.y, other.y) * gap(self.y, other.y)
    }

    /// Whether `other` is farther from this point than `limit`. A negative
    /// limit is exceeded by every point.
    pub open spec fn farther_than(self, other: Vec2, limit: i64) -> bool {
        limit < 0 || self.distance_squared(other) > limit * limit
    }

    /// Whether `other` is farther from this point than `limit`.
    pub fn is_farther_than(&self, other: Vec2, limit: i64) -> (r: bool)
        ensures
            r == self.farther_than(other, limit),
    {
        if limit < 0 {
            return true;
        }
        let dx: u64 = axis_gap(self.x, other.x);
        let dy: u64 = axis_gap(self.y, other.y);
        let dx2: u128 = square(dx);
        let dy2: u128 = square(dy);
        let lim2: u128 = square(limit as u64);
        // Each square is below 2^128; their sum is taken in two steps.
        if dx2 > lim2 {
            return true;
        }
        dy2 > lim2 - dx2
    }
}

/// The square of a number.
fn square(a: u64) -> (r: u128)
    ensures
        r == a * a,
{
    assert(a * a <= u64::MAX * u64::MAX) by (nonlinear_arith)
        requires
            0 <= a <= u64::MAX,
    ;
    (a as u128) * (a as u128)
}

/// Whether `r` is the square root of `n`, rounded down.
pub open spec fn is_floor_sqrt(n: int, r: int) -> bool {
    0 <= r && r * r <= n < (r + 1) * (r + 1)
}

/// A number has one square root rounded down, and no other.
pub proof fn lemma_floor_sqrt_unique(n: int, r: int, s: int)
    requires
        is_floor_sqrt(n, r),
        is_floor_sqrt(n, s),
    ensures
        r == s,
{
    if r < s {
        assert((r + 1) * (r + 1) <= s * s) by (nonlinear_arith)
            requires
                0 <= r,
                r + 1 <= s,
        ;
    } else if s < r {
        assert((s + 1) * (s + 1) <= r * r) by (nonlinear_arith)
            requires
                0 <= s,
                s + 1 <= r,
        ;
    }
}

/// The square root of `n`, rounded down.
pub fn isqrt(n: u128) -> (r: u64)
    ensures
        is_floor_sqrt(n as int, r as int),
{
    let mut low: u128 = 0;
    let mut high: u128 = 0x1_0000_0000_0000_0000;
    assert(n < high * high) by (nonlinear_arith)
        requires
            high == 0x1_0000_0000_0000_0000,
            n <= 0xffff_ffff_ffff_ffff_ffff_ffff_ffff_ffff,
    ;
    while high - low > 1
        invariant
            low < high <= 0x1_0000_0000_0000_0000,
            low * low <= n < high * high,
        decreases high - low,
    {
        let mid: u128 = low + (high - low) / 2;
        assert(mid * mid <= 0xffff_ffff_ffff_ffff * 0xffff_ffff_ffff_ffff) by (nonlinear_arith)
            requires
                0 <= mid <= 0xffff_ffff_ffff_ffff,
        ;
        if mid * mid <= n {
            low = mid;
        } else {
            high = mid;
        }
    }
    low as u64
}

/// The square root of `n`, rounded down.
pub open spec fn floor_sqrt(n: int) -> int {
    choose|r: int| is_floor_sqrt(n, r)
}

/// The square root of `n`, rounded up.
pub open spec fn ceil_sqrt(n: int) -> int {
    let r = floor_sqrt(n);
    if r * r == n {
        r
    } else {
        r + 1
    }
}

/// One part of a vector of the length `len`, as a part of a vector of the
/// length one: `part * UNIT / len`, rounded towards zero.
pub open spec fn unit_part(part: int, len: int) -> int {
    if part >= 0 {
        part * UNIT / len
    } else {
        -((-part) * UNIT / len)
    }
}

/// Two parts of a vector, each divided by a length that is no shorter than
/// the vector, make a vector no longer than one.
pub proof fn lemma_unit_parts(ax: int, ay: int, len: int, px: int, py: int)
    requires
        0 <= ax,
        0 <= ay,
        0 < len,
        ax * ax + ay * ay <= len * len,
        px == ax * 1000 / len,
        py == ay * 1000 / len,
    ensures
        0 <= px <= 1000,
        0 <= py <= 1000,
        px * px + py * py <= 1000 * 1000,
{
    assert(ax <= len && ay <= len) by (nonlinear_arith)
        requires
            0 <= ax,
            0 <= ay,
            0 < len,
            ax * ax + ay * ay <= len * len,
    ;
    assert(0 <= px && px * len <= ax * 1000 && 0 <= py && py * len <= ay * 1000)
        by (nonlinear_arith)
        requires
            0 <= ax,
            0 <= ay,
            0 < len,
            px == ax * 1000 / len,
            py == ay * 1000 / len,
    ;
    assert((px * len) * (px * len) <= (ax * 1000) * (ax * 1000)) by (nonlinear_arith)
        requires
            0 <= px * len <= ax * 1000,
    ;
    assert((py * len) * (py * len) <= (ay * 1000) * (ay * 1000)) by (nonlinear_arith)
        requires
            0 <= py * len <= ay * 1000,
    ;
    assert((px * px + py * py) * (len * len) <= 1000 * 1000 * (len * len)) by (nonlinear_arith)
        requires
            (px * len) * (px * len) <= (ax * 1000) * (ax * 1000),
            (py * len) * (py * len) <= (ay * 1000) * (ay * 1000),
            ax * ax + ay * ay <= len * len,
    ;
    assert(px * px + py * py <= 1000 * 1000) by (nonlinear_arith)
        requires
            (px * px + py * py) * (len * len) <= 1000 * 1000 * (len * len),
            0 < len,
    ;
    assert(px <= 1000 && py <= 1000) by (nonlinear_arith)
        requires
            0 <= px,
            0 <= py,
            px * px + py * py <= 1000 * 1000,
    ;
}

impl Vec2 {
    /// The length of the vector from this point to `target`, rounded up to
    /// a whole number of thousandths.
    pub open spec fn distance_to(self, target: Vec2) -> int {
        ceil_sqrt(self.distance_squared(target))
    }

    /// The direction from this point to `target`: the vector between them,
    /// divided by its length; zero where the length is zero. The length is
    /// rounded up and each part towards zero, so that the direction is never
    /// longer than one.
    pub open spec fn direction_of(self, target: Vec2) -> Vec2 {
        let len = self.distance_to(target);
        if len == 0 {
            Vec2 { x: 0, y: 0 }
        } else {
            Vec2 {
                x: unit_part(target.x - self.x, len) as i64,
                y: unit_part(target.y - self.y, len) as i64,
            }
        }
    }

    /// The direction from this point to `target`.
    pub fn direction_to(&self, target: Vec2) -> (d: Vec2)
        requires
            self.in_reach(),
            target.in_reach(),
        ensures
            d == self.direction_of(target),
            d.x * d.x + d.y * d.y <= UNIT * UNIT,
    {
        let ax: u64 = axis_gap(self.x, target.x);
        let ay: u64 = axis_gap(self.y, target.y);
        assert(ax * ax <= 40_000_000_000_000_000_000_000_000_000_000_000) by (nonlinear_arith)
            requires
                0 <= ax <= 200_000_000_000_000_000,
        ;
        assert(ay * ay <= 40_000_000_000_000_000_000_000_000_000_000_000) by (nonlinear_arith)
            requires
                0 <= ay <= 200_000_000_000_000_000,
        ;
        let sx: u128 = square(ax);
        let sy: u128 = square(ay);
        let sum: u128 = sx + sy;
        let root: u64 = isqrt(sum);
        assert(root <= 300_000_000_000_000_000) by (nonlinear_arith)
            requires
                root * root <= sum,
                sum <= 80_000_000_000_000_000_000_000_000_000_000_000,
                0 <= root,
        ;
        proof {
            lemma_floor_sqrt_unique(
                self.distance_squared(target),
                root as int,
                floor_sqrt(self.distance_squared(target)),
            );
        }
        let exact = (root as u128) * (root as u128) == sum;
        let len: u64 = if exact {
            root
        } else {
            root + 1
        };
        assert(len == self.distance_to(target));
        if len == 0 {
            return Vec2 { x: 0, y: 0 };
        }
        assert(ax * ax + ay * ay <= len * len);
        assert(ax <= len && ay <= len) by (nonlinear_arith)
            requires
                0 <= ax,
                0 <= ay,
                0 < len,
                ax * ax + ay * ay <= len * len,
        ;
        assert(0 <= ax * 1000 / (len as int) <= 1000 && 0 <= ay * 1000 / (len as int) <= 1000)
            by (nonlinear_arith)
            requires
                0 <= ax <= len,
                0 <= ay <= len,
                len > 0,
        ;
        let px: i64 = ((ax as u128) * 1000 / (len as u128)) as i64;
        let py: i64 = ((ay as u128) * 1000 / (len as u128)) as i64;
        proof {
            lemma_unit_parts(ax as int, ay as int, len as int, px as int, py as int);
            if ax == 0 {
                assert(0int * 1000 / (len as int) == 0);
            }
            if ay == 0 {
                assert(0int * 1000 / (len as int) == 0);
            }
        }
        let d = Vec2 {
            x: if target.x >= self.x { px } else { -px },
            y: if target.y >= self.y { py } else { -py },
        };
        assert(d.x * d.x == px * px && d.y * d.y == py * py) by (nonlinear_arith)
            requires
                d.x == px || d.x == -px,
                d.y == py || d.y == -py,
        ;
        d
    }
}

/// Whether the point `p` lies in the hit region of an icon: the square
/// around `center` whose side is the icon's size, scaled by `scale`, and
/// made larger by `HIT_TOLERANCE`. The border belongs to the region.
pub open spec fn in_hit_region(center: Vec2, icon_size: i64, scale: i64, p: Vec2) -> bool {
    let side = icon_size * scale * HIT_TOLERANCE;
    &&& 2 * UNIT * UNIT * gap(p.x, center.x) <= side
    &&& 2 * UNIT * UNIT * gap(p.y, center.y) <= side
}

/// Whether `2 * UNIT * UNIT * d <= area * HIT_TOLERANCE`.
fn within_reach(d: u64, area: i128) -> (r: bool)
    ensures
        r == (2 * UNIT * UNIT * d <= area * HIT_TOLERANCE),
{
    if area < 0 {
        return false;
    }
    // 2 * 10^6 * d <= 1100 * area  <==>  ceil(20000 * d / 11) <= area
    let scaled: i128 = 20000 * (d as i128);
    let needed: i128 = (scaled + 10) / 11;
    assert(2 * UNIT * UNIT == 2_000_000);
    assert(2 * UNIT * UNIT * d == 100 * scaled);
    assert(area * HIT_TOLERANCE == 100 * (11 * area));
    assert(11 * needed <= scaled + 10 < 11 * needed + 11);
    needed <= area
}

/// Whether the point `p` lies in the hit region of an icon.
pub fn hit_region_contains(center: Vec2, icon_size: i64, scale: i64, p: Vec2) -> (r: bool)
    ensures
        r == in_hit_region(center, icon_size, scale, p),
{
    let dx: u64 = axis_gap(p.x, center.x);
    let dy: u64 = axis_gap(p.y, center.y);
    assert(-0x4000_0000_0000_0000_0000_0000_0000_0000 <= icon_size * scale
        <= 0x4000_0000_0000_0000_0000_0000_0000_0000) by (nonlinear_arith)
        requires
            -0x8000_0000_0000_0000 <= icon_size <= 0x7fff_ffff_ffff_ffff,
            -0x8000_0000_0000_0000 <= scale <= 0x7fff_ffff_ffff_ffff,
    ;
    let area: i128 = (icon_size as i128) * (scale as i128);
    assert(icon_size * scale * HIT_TOLERANCE == area * HIT_TOLERANCE);
    within_reach(dx, area) && within_reach(dy, area)
}

} // verus!
