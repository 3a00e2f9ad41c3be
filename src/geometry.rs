use vstd::prelude::*;

verus! {

/// Largest magnitude of a coordinate, a velocity component or an extent.
pub const COORD_LIMIT: i64 = 1_099_511_627_776;

/// A 2D point or vector in fixed-point units.
#[derive(Clone, Copy, Debug, PartialEq, Eq, Structural)]
pub struct Point {
    pub x: i64,
    pub y: i64,
}

/// Full width and height of an axis-aligned bounding box.
#[derive(Clone, Copy, Debug, PartialEq, Eq, Structural)]
pub struct Extent {
    pub w: i64,
    pub h: i64,
}

/// The side on which a left box touches a right box.
#[derive(Clone, Copy, Debug, PartialEq, Eq, Structural)]
pub enum Collision {
    Left,
    Right,
    Top,
    Bottom,
}

pub open spec fn in_limit(v: int) -> bool {
    -COORD_LIMIT <= v <= COORD_LIMIT
}

impl Point {
    pub open spec fn bounded(self) -> bool {
        in_limit(self.x as int) && in_limit(self.y as int)
    }
}

impl Extent {
    pub open spec fn bounded(self) -> bool {
        0 <= self.w <= COORD_LIMIT && 0 <= self.h <= COORD_LIMIT
    }
}

pub open spec fn clamp_spec(v: int) -> int {
    if v < -COORD_LIMIT {
        -COORD_LIMIT as int
    } else if v > COORD_LIMIT {
        COORD_LIMIT as int
    } else {
        v
    }
}

/// Brings a wide value back into the coordinate range.
pub fn clamp_coord(v: i128) -> (r: i64)
    ensures
        r == clamp_spec(v as int),
        in_limit(r as int),
{
    if v < -(COORD_LIMIT as i128) {
        -COORD_LIMIT
    } else if v > COORD_LIMIT as i128 {
        COORD_LIMIT
    } else {
        v as i64
    }
}

/// Toroidal wraparound of one coordinate into a window of the given extent,
/// centred on the origin.
pub open spec fn wrap_spec(t: int, extent: int) -> int {
    (t + extent / 2) % extent - extent / 2
}

/// The coordinate after moving for `dt` milliseconds at velocity `v`.
pub open spec fn displacement(v: int, dt: int) -> int {
    (v * dt) / 1000
}

pub open spec fn integrate_spec(t: int, v: int, dt: int, extent: int) -> int {
    wrap_spec(t + displacement(v, dt), extent)
}

fn wrap_wide(t: i128, extent: i64) -> (r: i64)
    requires
        extent > 0,
        -0x1_0000_0000_0000_0000_0000_0000 <= t <= 0x1_0000_0000_0000_0000_0000_0000,
    ensures
        r == wrap_spec(t as int, extent as int),
{
    let half: i128 = (extent / 2) as i128;
    let shifted: i128 = t + half;
    let m = shifted.checked_rem_euclid(extent as i128).unwrap();
    assert(0 <= m < extent) by {
        vstd::arithmetic::div_mod::lemma_mod_bound(shifted as int, extent as int);
    }
    (m - half) as i64
}

/// Wraps one translation component into the window `[-extent/2, extent/2)`.
pub fn wrap_coord(t: i64, extent: i64) -> (r: i64)
    requires
        extent > 0,
    ensures
        r == wrap_spec(t as int, extent as int),
        -extent <= 2 * r < extent,
{
    proof {
        lemma_wrap_range(t as int, extent as int);
    }
    wrap_wide(t as i128, extent)
}

/// Moves one coordinate by `v * dt / 1000` and wraps it into the window.
pub fn integrate_coord(t: i64, v: i64, dt: u32, extent: i64) -> (r: i64)
    requires
        extent > 0,
    ensures
        r == integrate_spec(t as int, v as int, dt as int, extent as int),
        -extent <= 2 * r < extent,
{
    let vw: i128 = v as i128;
    let dw: i128 = dt as i128;
    assert(-0x1_0000_0000_0000_0000_0000_0000 <= vw * dw <= 0x1_0000_0000_0000_0000_0000_0000)
        by (nonlinear_arith)
        requires
            i64::MIN <= vw <= i64::MAX,
            0 <= dw <= u32::MAX,
    ;
    let prod: i128 = vw * dw;
    let disp = prod.checked_div_euclid(1000).unwrap();
    proof {
        lemma_wrap_range(t + disp, extent as int);
    }
    wrap_wide(t as i128 + disp, extent)
}

pub proof fn lemma_wrap_range(t: int, extent: int)
    requires
        extent > 0,
    ensures
        -extent <= 2 * wrap_spec(t, extent) < extent,
{
    vstd::arithmetic::div_mod::lemma_mod_bound(t + extent / 2, extent);
}

/// Wrapping maps every coordinate into `[-w/2, w/2)`, and wrapping an already
/// wrapped coordinate, or integrating it with zero velocity, changes nothing.
pub proof fn law_wrap_idempotent(t: int, extent: int, dt: int)
    requires
        extent > 0,
    ensures
        -extent <= 2 * wrap_spec(t, extent) < extent,
        wrap_spec(wrap_spec(t, extent), extent) == wrap_spec(t, extent),
        integrate_spec(wrap_spec(t, extent), 0, dt, extent) == wrap_spec(t, extent),
{
    let h = extent / 2;
    let m = (t + h) % extent;
    lemma_wrap_range(t, extent);
    vstd::arithmetic::div_mod::lemma_mod_bound(t + h, extent);
    vstd::arithmetic::div_mod::lemma_small_mod(m as nat, extent as nat);
    assert(displacement(0, dt) == 0);
}

impl Collision {
    pub open spec fn mirror(self) -> Collision {
        match self {
            Collision::Left => Collision::Right,
            Collision::Right => Collision::Left,
            Collision::Top => Collision::Bottom,
            Collision::Bottom => Collision::Top,
        }
    }

    /// The same contact seen from the other box.
    pub fn mirrored(self) -> (r: Collision)
        ensures
            r == self.mirror(),
    {
        match self {
            Collision::Left => Collision::Right,
            Collision::Right => Collision::Left,
            Collision::Top => Collision::Bottom,
            Collision::Bottom => Collision::Top,
        }
    }
}

/// Side found on one axis, from the doubled box bounds (`2*centre -/+ size`),
/// with its penetration depth. `low` is the side where `a` lies below `b`.
pub open spec fn axis_side(a_min: int, a_max: int, b_min: int, b_max: int, low: Collision, high: Collision) -> (Option<Collision>, int) {
    if a_min < b_min && a_max > b_min && a_max < b_max {
        (Some(low), b_min - a_max)
    } else if a_min > b_min && a_min < b_max && a_max > b_max {
        (Some(high), a_min - b_max)
    } else {
        (None, 0)
    }
}

pub open spec fn abs_spec(v: int) -> int {
    if v < 0 { -v } else { v }
}

/// Axis-aligned overlap test with side detection between the box of size
/// `asz` centred at `a` and the box of size `bsz` centred at `b`: `None` when
/// the boxes do not overlap or no side can be told; else the side of `b` that
/// `a` hits. When both axes give a side, the vertical one wins only where its
/// penetration depth is strictly smaller.
pub open spec fn collide_spec(a: Point, asz: Extent, b: Point, bsz: Extent) -> Option<Collision> {
    let a_min_x = 2 * a.x - asz.w;
    let a_max_x = 2 * a.x + asz.w;
    let a_min_y = 2 * a.y - asz.h;
    let a_max_y = 2 * a.y + asz.h;
    let b_min_x = 2 * b.x - bsz.w;
    let b_max_x = 2 * b.x + bsz.w;
    let b_min_y = 2 * b.y - bsz.h;
    let b_max_y = 2 * b.y + bsz.h;
    if a_min_x < b_max_x && a_max_x > b_min_x && a_min_y < b_max_y && a_max_y > b_min_y {
        let (xs, xd) = axis_side(a_min_x, a_max_x, b_min_x, b_max_x, Collision::Left, Collision::Right);
        let (ys, yd) = axis_side(a_min_y, a_max_y, b_min_y, b_max_y, Collision::Bottom, Collision::Top);
        match (xs, ys) {
            (Some(x), Some(y)) => if abs_spec(yd) < abs_spec(xd) { Some(y) } else { Some(x) },
            (Some(x), None) => Some(x),
            (None, Some(y)) => Some(y),
            (None, None) => None,
        }
    } else {
        None
    }
}

fn axis_side_exec(a_min: i128, a_max: i128, b_min: i128, b_max: i128, low: Collision, high: Collision) -> (r: (Option<Collision>, i128))
    requires
        -0x1_0000_0000_0000_0000 <= a_min <= 0x1_0000_0000_0000_0000,
        -0x1_0000_0000_0000_0000 <= a_max <= 0x1_0000_0000_0000_0000,
        -0x1_0000_0000_0000_0000 <= b_min <= 0x1_0000_0000_0000_0000,
        -0x1_0000_0000_0000_0000 <= b_max <= 0x1_0000_0000_0000_0000,
    ensures
        r.0 == axis_side(a_min as int, a_max as int, b_min as int, b_max as int, low, high).0,
        r.1 == axis_side(a_min as int, a_max as int, b_min as int, b_max as int, low, high).1,
        -0x2_0000_0000_0000_0000 <= r.1 <= 0x2_0000_0000_0000_0000,
{
    if a_min < b_min && a_max > b_min && a_max < b_max {
        (Some(low), b_min - a_max)
    } else if a_min > b_min && a_min < b_max && a_max > b_max {
        (Some(high), a_min - b_max)
    } else {
        (None, 0)
    }
}

/// Axis-aligned bounding-box overlap with side detection.
pub fn collide(a: Point, asz: Extent, b: Point, bsz: Extent) -> (r: Option<Collision>)
    requires
        a.bounded(),
        b.bounded(),
        asz.bounded(),
        bsz.bounded(),
    ensures
        r == collide_spec(a, asz, b, bsz),
{
    let a_min_x: i128 = 2 * (a.x as i128) - asz.w as i128;
    let a_max_x: i128 = 2 * (a.x as i128) + asz.w as i128;
    let a_min_y: i128 = 2 * (a.y as i128) - asz.h as i128;
    let a_max_y: i128 = 2 * (a.y as i128) + asz.h as i128;
    let b_min_x: i128 = 2 * (b.x as i128) - bsz.w as i128;
    let b_max_x: i128 = 2 * (b.x as i128) + bsz.w as i128;
    let b_min_y: i128 = 2 * (b.y as i128) - bsz.h as i128;
    let b_max_y: i128 = 2 * (b.y as i128) + bsz.h as i128;
    if a_min_x < b_max_x && a_max_x > b_min_x && a_min_y < b_max_y && a_max_y > b_min_y {
        let (xs, xd) = axis_side_exec(a_min_x, a_max_x, b_min_x, b_max_x, Collision::Left, Collision::Right);
        let (ys, yd) = axis_side_exec(a_min_y, a_max_y, b_min_y, b_max_y, Collision::Bottom, Collision::Top);
        let xa: i128 = if xd < 0 { -xd } else { xd };
        let ya: i128 = if yd < 0 { -yd } else { yd };
        match (xs, ys) {
            (Some(x), Some(y)) => if ya < xa { Some(y) } else { Some(x) },
            (Some(x), None) => Some(x),
            (None, Some(y)) => Some(y),
            (None, None) => None,
        }
    } else {
        None
    }
}

/// Swapping the two boxes mirrors the side found, and nothing else.
pub proof fn lemma_collide_mirror(a: Point, asz: Extent, b: Point, bsz: Extent)
    ensures
        collide_spec(b, bsz, a, asz) == match collide_spec(a, asz, b, bsz) {
            Some(c) => Some(c.mirror()),
            None => None::<Collision>,
        },
{
}

/// Velocity of a body that touched another on side `side` (as the left
/// member of the pair), turned so that it moves away along that axis.
pub open spec fn away_spec(v: Point, side: Collision) -> Point {
    match side {
        Collision::Top => Point { x: v.x, y: abs_spec(v.y as int) as i64 },
        Collision::Bottom => Point { x: v.x, y: -abs_spec(v.y as int) as i64 },
        Collision::Left => Point { x: -abs_spec(v.x as int) as i64, y: v.y },
        Collision::Right => Point { x: abs_spec(v.x as int) as i64, y: v.y },
    }
}

/// Flips the sign of one velocity component so that the body moves away from
/// the side it touched.
pub fn away(v: Point, side: Collision) -> (r: Point)
    requires
        v.bounded(),
    ensures
        r == away_spec(v, side),
        r.bounded(),
{
    let ax: i64 = if v.x < 0 { -v.x } else { v.x };
    let ay: i64 = if v.y < 0 { -v.y } else { v.y };
    match side {
        Collision::Top => Point { x: v.x, y: ay },
        Collision::Bottom => Point { x: v.x, y: -ay },
        Collision::Left => Point { x: -ax, y: v.y },
        Collision::Right => Point { x: ax, y: v.y },
    }
}

/// The integer square root: the largest `r` with `r * r <= n`.
pub open spec fn is_sqrt_floor(n: int, r: int) -> bool {
    0 <= r && r * r <= n < (r + 1) * (r + 1)
}

pub open spec fn sqrt_floor(n: int) -> int {
    choose|r: int| is_sqrt_floor(n, r)
}

pub proof fn lemma_sqrt_floor_unique(n: int, r1: int, r2: int)
    requires
        is_sqrt_floor(n, r1),
        is_sqrt_floor(n, r2),
    ensures
        r1 == r2,
{
    if r1 < r2 {
        assert((r1 + 1) * (r1 + 1) <= r2 * r2) by (nonlinear_arith)
            requires
                0 <= r1 < r2,
        ;
    } else if r2 < r1 {
        assert((r2 + 1) * (r2 + 1) <= r1 * r1) by (nonlinear_arith)
            requires
                0 <= r2 < r1,
        ;
    }
}

/// The integer square root of `n`.
pub fn isqrt(n: u128) -> (r: u128)
    ensures
        r == sqrt_floor(n as int),
        is_sqrt_floor(n as int, r as int),
{
    // Binary search, keeping lo * lo <= n < hi * hi.
    let mut lo: u128 = 0;
    let mut hi: u128 = 0x1_0000_0000_0000_0000;
    assert(n < hi * hi) by (nonlinear_arith)
        requires
            n <= u128::MAX,
            hi == 0x1_0000_0000_0000_0000u128,
    ;
    while hi - lo > 1
        invariant
            lo < hi <= 0x1_0000_0000_0000_0000u128,
            lo * lo <= n,
            n < hi * hi,
        decreases hi - lo,
    {
        let mid: u128 = lo + (hi - lo) / 2;
        assert(mid * mid < 0x1_0000_0000_0000_0000_0000_0000_0000_0000) by (nonlinear_arith)
            requires
                mid < 0x1_0000_0000_0000_0000u128,
        ;
        if mid * mid <= n {
            lo = mid;
        } else {
            hi = mid;
        }
    }
    assert(is_sqrt_floor(n as int, lo as int));
    proof {
        lemma_sqrt_floor_unique(n as int, lo as int, sqrt_floor(n as int));
    }
    lo
}

} // verus!
