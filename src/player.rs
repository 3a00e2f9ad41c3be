use vstd::prelude::*;
use crate::geometry::{Point, Extent, COORD_LIMIT, clamp_spec, clamp_coord, sqrt_floor, isqrt};
use crate::world::{Physics, Transform, Bullet, AsteroidSpawner, EntityRecord, World, empty_record};

verus! {

/// Turning speed: 210 degrees per second, in thousandths of a degree per
/// millisecond.
pub const ROTATION_RATE: i64 = 210;

/// A whole turn in thousandths of a degree.
pub const FULL_TURN: i64 = 360_000;

/// Slowing of the ship, in pixels per second squared.
pub const DECELERATION: i64 = 96;

/// Thrust of the ship, in pixels per second squared.
pub const ACCELERATION: i64 = 256 + DECELERATION;

/// A heading is a unit vector scaled by this.
pub const HEADING_SCALE: i64 = 1000;

/// Distance in pixels ahead of the ship at which a bullet appears.
pub const MUZZLE_DISTANCE: i64 = 32;

/// Speed in pixels per second that a bullet has beyond the ship's.
pub const BULLET_SPEED: i64 = 512;

/// The keys held (and, for `fire`, just pressed) during a tick.
#[derive(Clone, Copy, Debug, PartialEq, Eq, Structural)]
pub struct ShipInput {
    pub left: bool,
    pub right: bool,
    pub forward: bool,
    pub back: bool,
    pub fire: bool,
}

pub open spec fn turn_dir(i: ShipInput) -> int {
    (if i.left { 1int } else { 0 }) - (if i.right { 1int } else { 0 })
}

pub open spec fn thrust_dir(i: ShipInput) -> int {
    (if i.forward { 1int } else { 0 }) - (if i.back { 1int } else { 0 })
}

/// A live entity steered by the player: physics, transform and ship.
pub open spec fn is_player(s: Seq<EntityRecord>, e: usize) -> bool {
    e < s.len() && s[e as int].alive && s[e as int].physics.is_some() && s[e as int].transform.is_some()
        && s[e as int].ship.is_some()
}

/// The player's entities among the first `n` records, in store order.
pub open spec fn players_among(s: Seq<EntityRecord>, n: int) -> Seq<usize>
    decreases n,
{
    if n <= 0 {
        Seq::empty()
    } else {
        let rest = players_among(s, n - 1);
        if is_player(s, (n - 1) as usize) { rest.push((n - 1) as usize) } else { rest }
    }
}

pub open spec fn heading_ok(h: Point) -> bool {
    -HEADING_SCALE <= h.x <= HEADING_SCALE && -HEADING_SCALE <= h.y <= HEADING_SCALE
}

/// The heading after `dt` milliseconds of turning, in `[0, FULL_TURN)`.
pub open spec fn turned(angle: i64, i: ShipInput, dt: u32) -> i64 {
    ((angle + turn_dir(i) * ROTATION_RATE * dt) % (FULL_TURN as int)) as i64
}

/// One axis of the velocity after thrust along the heading.
pub open spec fn thrusted(v: int, h: int, i: ShipInput, dt: u32) -> int {
    v + (h * thrust_dir(i) * ACCELERATION * dt) / (HEADING_SCALE as int)
}

/// The velocity after thrust, then slowed by `DECELERATION` (to a stop
/// when slower than that).
pub open spec fn steered_velocity(v: Point, h: Point, i: ShipInput, dt: u32) -> Point {
    let vx = thrusted(v.x as int, h.x as int, i, dt);
    let vy = thrusted(v.y as int, h.y as int, i, dt);
    let dspeed = DECELERATION * dt;
    let speed = sqrt_floor(vx * vx + vy * vy);
    if speed <= dspeed {
        Point { x: 0, y: 0 }
    } else {
        Point {
            x: clamp_spec(vx - (vx * dspeed) / (speed as int)) as i64,
            y: clamp_spec(vy - (vy * dspeed) / (speed as int)) as i64,
        }
    }
}

pub open spec fn bullet_record(pos: Point, vel: Point) -> EntityRecord {
    EntityRecord {
        physics: Some(Physics { velocity: vel, mass: 10 }),
        transform: Some(Transform { translation: pos, angle: 0 }),
        extent: Some(Extent { w: 8_000, h: 8_000 }),
        bullet: Some(Bullet { lifetime: 0 }),
        spawner: Some(AsteroidSpawner { one_time: false, amount: 3, timer: 0 }),
        ..empty_record()
    }
}

/// The bullet a ship at `pos` moving at `v` fires along heading `h`.
pub open spec fn fired(pos: Point, v: Point, h: Point) -> EntityRecord {
    bullet_record(
        Point { x: clamp_spec(pos.x + MUZZLE_DISTANCE * h.x) as i64, y: clamp_spec(pos.y + MUZZLE_DISTANCE * h.y) as i64 },
        Point { x: clamp_spec(v.x + BULLET_SPEED * h.x) as i64, y: clamp_spec(v.y + BULLET_SPEED * h.y) as i64 },
    )
}

/// A bullet at `pos` moving at `vel`. It carries a recurring spawner of
/// three asteroids, its timer at zero, so that its first burst comes one
/// spawn interval into the bullet's life.
pub fn make_bullet(pos: Point, vel: Point) -> (r: EntityRecord)
    ensures
        r == bullet_record(pos, vel),
        (pos.bounded() && vel.bounded()) ==> r.bounded(),
{
    let mut b = EntityRecord::empty();
    b.physics = Some(Physics { velocity: vel, mass: 10 });
    b.transform = Some(Transform { translation: pos, angle: 0 });
    b.extent = Some(Extent { w: 8_000, h: 8_000 });
    b.bullet = Some(Bullet { lifetime: 0 });
    b.spawner = Some(AsteroidSpawner { amount: 3, ..AsteroidSpawner::default() });
    b
}

fn thrust_axis(v: i64, h: i64, dir: i64, dt: u32) -> (r: i128)
    requires
        -COORD_LIMIT <= v <= COORD_LIMIT,
        -HEADING_SCALE <= h <= HEADING_SCALE,
        -1 <= dir <= 1,
    ensures
        r == v + (h * dir * ACCELERATION * dt) / (HEADING_SCALE as int),
        -3 * COORD_LIMIT <= r <= 3 * COORD_LIMIT,
{
    let hw: i128 = h as i128;
    let dw: i128 = dir as i128;
    let tw: i128 = dt as i128;
    assert(-HEADING_SCALE * ACCELERATION * u32::MAX <= hw * dw * ACCELERATION * tw <= HEADING_SCALE * ACCELERATION * u32::MAX)
        by (nonlinear_arith)
        requires
            -HEADING_SCALE <= hw <= HEADING_SCALE,
            -1 <= dw <= 1,
            0 <= tw <= u32::MAX,
    ;
    assert(-HEADING_SCALE <= hw * dw <= HEADING_SCALE) by (nonlinear_arith)
        requires
            -HEADING_SCALE <= hw <= HEADING_SCALE,
            -1 <= dw <= 1,
    ;
    let hd: i128 = hw * dw;
    let hda: i128 = hd * (ACCELERATION as i128);
    assert(-HEADING_SCALE * ACCELERATION * u32::MAX <= hda * tw <= HEADING_SCALE * ACCELERATION * u32::MAX)
        by (nonlinear_arith)
        requires
            -HEADING_SCALE * ACCELERATION <= hda <= HEADING_SCALE * ACCELERATION,
            0 <= tw <= u32::MAX,
    ;
    let p: i128 = hda * tw;
    assert(p == hw * dw * ACCELERATION * tw);
    let q = p.checked_div_euclid(HEADING_SCALE as i128).unwrap();
    proof {
        let n = p as int;
        let d = HEADING_SCALE as int;
        vstd::arithmetic::div_mod::lemma_fundamental_div_mod(n, d);
        vstd::arithmetic::div_mod::lemma_mod_bound(n, d);
        assert(-2 * COORD_LIMIT <= n / d <= 2 * COORD_LIMIT) by (nonlinear_arith)
            requires
                n == d * (n / d) + n % d,
                0 <= n % d < d,
                d == HEADING_SCALE,
                -HEADING_SCALE * ACCELERATION * u32::MAX <= n <= HEADING_SCALE * ACCELERATION * u32::MAX,
        ;
    }
    v as i128 + q
}

fn slow_axis(v: i128, dspeed: i128, speed: i128) -> (r: i64)
    requires
        -3 * COORD_LIMIT <= v <= 3 * COORD_LIMIT,
        0 <= dspeed <= DECELERATION * u32::MAX,
        speed > 0,
    ensures
        r == clamp_spec(v - (v * dspeed) / (speed as int)),
{
    assert(-3 * COORD_LIMIT * DECELERATION * u32::MAX <= v * dspeed <= 3 * COORD_LIMIT * DECELERATION * u32::MAX)
        by (nonlinear_arith)
        requires
            -3 * COORD_LIMIT <= v <= 3 * COORD_LIMIT,
            0 <= dspeed <= DECELERATION * u32::MAX,
    ;
    let p: i128 = v * dspeed;
    proof {
        let n = p as int;
        let d = speed as int;
        vstd::arithmetic::div_mod::lemma_fundamental_div_mod(n, d);
        vstd::arithmetic::div_mod::lemma_mod_bound(n, d);
        assert((n >= 0 ==> 0 <= n / d <= n) && (n < 0 ==> n <= n / d <= 0)) by (nonlinear_arith)
            requires
                n == d * (n / d) + n % d,
                0 <= n % d < d,
                d >= 1,
        ;
    }
    let q = p.checked_div_euclid(speed).unwrap();
    clamp_coord(v - q)
}

impl World {
    /// The entities steered by the player, in store order.
    pub fn players(&self) -> (r: Vec<usize>)
        ensures
            r@ == players_among(self.records@, self.records@.len() as int),
    {
        let mut r: Vec<usize> = Vec::new();
        let mut k: usize = 0;
        while k < self.records.len()
            invariant
                k <= self.records@.len(),
                r@ == players_among(self.records@, k as int),
            decreases self.records@.len() - k,
        {
            let x = self.records[k];
            if x.alive && x.physics.is_some() && x.transform.is_some() && x.ship.is_some() {
                r.push(k);
            }
            k = k + 1;
        }
        r
    }

    /// Turns the ship `e` for `dt` milliseconds: left turns anticlockwise,
    /// right clockwise, both cancel. Anything but a ship stays as it is.
    pub fn turn_ship(&mut self, e: usize, input: ShipInput, dt: u32)
        requires
            old(self).wf(),
        ensures
            final(self).records@ == if is_player(old(self).records@, e) {
                let r = old(self).records@[e as int];
                let t = r.transform.unwrap();
                old(self).records@.update(
                    e as int,
                    EntityRecord { transform: Some(Transform { angle: turned(t.angle, input, dt), ..t }), ..r },
                )
            } else {
                old(self).records@
            },
            final(self).wf(),
    {
        if e >= self.records.len() {
            return;
        }
        let r = self.records[e];
        if !(r.alive && r.physics.is_some() && r.ship.is_some()) {
            return;
        }
        let t = match r.transform {
            Some(t) => t,
            None => return,
        };
        let dir: i128 = (if input.left { 1i128 } else { 0 }) - (if input.right { 1i128 } else { 0 });
        assert(-ROTATION_RATE * u32::MAX <= dir * (ROTATION_RATE as i128) * (dt as i128) <= ROTATION_RATE * u32::MAX)
            by (nonlinear_arith)
            requires
                -1 <= dir <= 1,
                0 <= dt <= u32::MAX,
        ;
        let raw: i128 = t.angle as i128 + dir * (ROTATION_RATE as i128) * (dt as i128);
        let angle = raw.checked_rem_euclid(FULL_TURN as i128).unwrap();
        proof {
            vstd::arithmetic::div_mod::lemma_mod_bound(raw as int, FULL_TURN as int);
        }
        let ghost s0 = self.records@;
        self.records.set(e, EntityRecord { transform: Some(Transform { angle: angle as i64, ..t }), ..r });
        proof {
            assert forall|m: int| 0 <= m < self.records@.len() implies (#[trigger] self.records@[m]).bounded() by {
                assert(s0[m].bounded());
            }
        }
    }

    /// Thrust, slowing and firing of the ship `e` over `dt` milliseconds,
    /// with `heading` the unit vector of its orientation scaled by
    /// `HEADING_SCALE`. A ship with lives left fires a bullet ahead of it
    /// when `fire` is pressed. Anything but a ship stays as it is.
    pub fn player_movement_system(&mut self, e: usize, input: ShipInput, dt: u32, heading: Point)
        requires
            old(self).wf(),
            heading_ok(heading),
        ensures
            ({
                let s = old(self).records@;
                if is_player(s, e) {
                    let r = s[e as int];
                    let p = r.physics.unwrap();
                    let v = steered_velocity(p.velocity, heading, input, dt);
                    let s1 = s.update(e as int, EntityRecord { physics: Some(Physics { velocity: v, ..p }), ..r });
                    final(self).records@ == if r.ship.unwrap().lives > 0 && input.fire {
                        s1.push(fired(r.transform.unwrap().translation, v, heading))
                    } else {
                        s1
                    }
                } else {
                    final(self).records@ == s
                }
            }),
            final(self).wf(),
    {
        if e >= self.records.len() {
            return;
        }
        let r = self.records[e];
        if !r.alive {
            return;
        }
        let (p, t, ship) = match (r.physics, r.transform, r.ship) {
            (Some(p), Some(t), Some(sh)) => (p, t, sh),
            _ => return,
        };
        proof {
            assert(self.records@[e as int].bounded());
        }
        let dir: i64 = (if input.forward { 1i64 } else { 0 }) - (if input.back { 1i64 } else { 0 });
        let vx = thrust_axis(p.velocity.x, heading.x, dir, dt);
        let vy = thrust_axis(p.velocity.y, heading.y, dir, dt);
        let dspeed: i128 = (DECELERATION as i128) * (dt as i128);
        assert(0 <= vx * vx <= 9 * COORD_LIMIT * COORD_LIMIT) by (nonlinear_arith)
            requires
                -3 * COORD_LIMIT <= vx <= 3 * COORD_LIMIT,
        ;
        assert(0 <= vy * vy <= 9 * COORD_LIMIT * COORD_LIMIT) by (nonlinear_arith)
            requires
                -3 * COORD_LIMIT <= vy <= 3 * COORD_LIMIT,
        ;
        let speed = isqrt((vx * vx + vy * vy) as u128);
        assert(speed <= vx * vx + vy * vy + 1) by (nonlinear_arith)
            requires
                speed * speed <= vx * vx + vy * vy,
                speed >= 0,
        ;
        let v = if speed as i128 <= dspeed {
            Point { x: 0, y: 0 }
        } else {
            Point { x: slow_axis(vx, dspeed, speed as i128), y: slow_axis(vy, dspeed, speed as i128) }
        };
        let ghost s0 = self.records@;
        self.records.set(e, EntityRecord { physics: Some(Physics { velocity: v, ..p }), ..r });
        let ghost s1 = self.records@;
        proof {
            assert forall|m: int| 0 <= m < self.records@.len() implies (#[trigger] self.records@[m]).bounded() by {
                assert(s0[m].bounded());
            }
        }
        if ship.lives > 0 && input.fire {
            let pos = Point {
                x: clamp_coord(t.translation.x as i128 + (MUZZLE_DISTANCE as i128) * (heading.x as i128)),
                y: clamp_coord(t.translation.y as i128 + (MUZZLE_DISTANCE as i128) * (heading.y as i128)),
            };
            let vel = Point {
                x: clamp_coord(v.x as i128 + (BULLET_SPEED as i128) * (heading.x as i128)),
                y: clamp_coord(v.y as i128 + (BULLET_SPEED as i128) * (heading.y as i128)),
            };
            let b = make_bullet(pos, vel);
            self.records.push(b);
            proof {
                assert forall|m: int| 0 <= m < self.records@.len() implies (#[trigger] self.records@[m]).bounded() by {
                    if m < s1.len() {
                        assert(s1[m].bounded());
                    }
                }
            }
        }
    }
}

} // verus!
