use vstd::prelude::*;
use crate::geometry::{
    Point, Extent, Collision, COORD_LIMIT, clamp_spec, clamp_coord, collide, collide_spec, away,
    away_spec, sqrt_floor, isqrt,
};
use crate::world::{
    Physics, Transform, PlayerShip, Scoreboard, AsteroidSpawner, EntityRecord, World, all_bounded,
    dead,
};
use crate::query::{Kind, Param, Shape, matching};

verus! {

/// An asteroid heavier than this splits in two when shot.
pub const SPLIT_MASS: u64 = 32;

/// Speed, across the asteroid's heading, given to each fragment of a split.
pub const SPREAD: i64 = 50_000;

/// An asteroid of mass `m` is a square of side `12 * sqrt(m)` pixels; in
/// fixed point that is `sqrt(m * SIZE_SQUARED)`.
pub const SIZE_SQUARED: u64 = 144_000_000;

/// What an entity is in a collision, by its component set.
#[derive(Clone, Copy, Debug, PartialEq, Eq, Structural)]
pub enum Role {
    Ship,
    Bullet,
    Asteroid,
    Other,
}

/// How a colliding pair is resolved.
#[derive(Clone, Copy, Debug, PartialEq, Eq, Structural)]
pub enum Outcome {
    /// Both move apart along the contact axis.
    Bounce,
    /// The ship loses a life, and both move apart.
    Damage,
    /// Both are destroyed, the score rises, a heavy asteroid splits.
    Annihilate,
    /// Nothing changes.
    Ignore,
}

pub open spec fn role_spec(r: EntityRecord) -> Role {
    if r.ship.is_some() && r.bullet.is_none() && !r.asteroid {
        Role::Ship
    } else if r.ship.is_none() && r.bullet.is_some() && !r.asteroid {
        Role::Bullet
    } else if r.ship.is_none() && r.bullet.is_none() && r.asteroid {
        Role::Asteroid
    } else {
        Role::Other
    }
}

pub fn role(r: &EntityRecord) -> (x: Role)
    ensures
        x == role_spec(*r),
{
    if r.ship.is_some() && r.bullet.is_none() && !r.asteroid {
        Role::Ship
    } else if r.ship.is_none() && r.bullet.is_some() && !r.asteroid {
        Role::Bullet
    } else if r.ship.is_none() && r.bullet.is_none() && r.asteroid {
        Role::Asteroid
    } else {
        Role::Other
    }
}

pub open spec fn outcome_spec(a: Role, b: Role) -> Outcome {
    match (a, b) {
        (Role::Asteroid, Role::Asteroid) => Outcome::Bounce,
        (Role::Bullet, Role::Bullet) => Outcome::Bounce,
        (Role::Ship, Role::Asteroid) => Outcome::Damage,
        (Role::Asteroid, Role::Ship) => Outcome::Damage,
        (Role::Bullet, Role::Asteroid) => Outcome::Annihilate,
        (Role::Asteroid, Role::Bullet) => Outcome::Annihilate,
        _ => Outcome::Ignore,
    }
}

/// Classifies a colliding pair by the roles of its members.
pub fn classify(a: Role, b: Role) -> (o: Outcome)
    ensures
        o == outcome_spec(a, b),
{
    match (a, b) {
        (Role::Asteroid, Role::Asteroid) => Outcome::Bounce,
        (Role::Bullet, Role::Bullet) => Outcome::Bounce,
        (Role::Ship, Role::Asteroid) => Outcome::Damage,
        (Role::Asteroid, Role::Ship) => Outcome::Damage,
        (Role::Bullet, Role::Asteroid) => Outcome::Annihilate,
        (Role::Asteroid, Role::Bullet) => Outcome::Annihilate,
        _ => Outcome::Ignore,
    }
}

/// A pair gets the same outcome in either order, and its contact side is
/// mirrored when the two boxes are swapped.
pub proof fn law_pair_symmetry(a: Role, b: Role, pa: Point, ea: Extent, pb: Point, eb: Extent)
    ensures
        outcome_spec(a, b) == outcome_spec(b, a),
        collide_spec(pb, eb, pa, ea) == match collide_spec(pa, ea, pb, eb) {
            Some(c) => Some(c.mirror()),
            None => None::<Collision>,
        },
{
    crate::geometry::lemma_collide_mirror(pa, ea, pb, eb);
}

/// Resolving a pair gives the same store whichever member comes first:
/// each side's velocity is turned away from the other either way.
pub proof fn law_resolve_order_free(s: Seq<EntityRecord>, i: usize, j: usize)
    ensures
        resolve_spec(s, i, j) == resolve_spec(s, j, i),
{
    if i < s.len() && j < s.len() && i != j {
        let a = s[i as int];
        let b = s[j as int];
        if collidable(a) && collidable(b) {
            let pa = a.transform.unwrap().translation;
            let pb = b.transform.unwrap().translation;
            crate::geometry::lemma_collide_mirror(pa, a.extent.unwrap(), pb, b.extent.unwrap());
            match collide_spec(pa, a.extent.unwrap(), pb, b.extent.unwrap()) {
                Some(side) => {
                    assert(side.mirror().mirror() == side);
                    assert(s.update(i as int, bounce(a, side)).update(j as int, bounce(b, side.mirror()))
                        =~= s.update(j as int, bounce(b, side.mirror())).update(i as int, bounce(a, side)));
                    assert(s.update(i as int, bounce(damage(a), side)).update(j as int, bounce(damage(b), side.mirror()))
                        =~= s.update(j as int, bounce(damage(b), side.mirror())).update(i as int, bounce(damage(a), side)));
                    assert(s.update(i as int, dead(a)).update(j as int, dead(b))
                        =~= s.update(j as int, dead(b)).update(i as int, dead(a)));
                },
                None => {},
            }
        }
    }
}

/// Lives after one hit: one fewer, never below zero.
pub open spec fn lose_life(l: i8) -> i8 {
    if l > 0 { (l - 1) as i8 } else { 0 }
}

pub open spec fn damage(r: EntityRecord) -> EntityRecord {
    match r.ship {
        Some(s) => if role_spec(r) == Role::Ship {
            EntityRecord { ship: Some(PlayerShip { lives: lose_life(s.lives) }), ..r }
        } else {
            r
        },
        None => r,
    }
}

pub open spec fn bounce(r: EntityRecord, side: Collision) -> EntityRecord {
    match r.physics {
        Some(p) => EntityRecord {
            physics: Some(Physics { velocity: away_spec(p.velocity, side), ..p }),
            ..r
        },
        None => r,
    }
}

pub open spec fn sat_inc(s: u64) -> u64 {
    if s < u64::MAX { (s + 1) as u64 } else { s }
}

pub open spec fn bump(r: EntityRecord) -> EntityRecord {
    match r.scoreboard {
        Some(b) => if r.alive {
            EntityRecord { scoreboard: Some(Scoreboard { score: sat_inc(b.score) }), ..r }
        } else {
            r
        },
        None => r,
    }
}

/// Every live scoreboard gains one point.
pub open spec fn score_all(s: Seq<EntityRecord>) -> Seq<EntityRecord> {
    Seq::new(s.len(), |k: int| bump(s[k]))
}

pub open spec fn asteroid_size(mass: u64) -> int {
    sqrt_floor(mass * SIZE_SQUARED)
}

/// A fresh asteroid; a spawned one carries a one-time spawner of one more.
pub open spec fn asteroid_record(pos: Point, vel: Point, mass: u64, with_spawner: bool) -> EntityRecord {
    EntityRecord {
        alive: true,
        physics: Some(Physics { velocity: vel, mass }),
        transform: Some(Transform { translation: pos, angle: 0 }),
        extent: Some(Extent { w: asteroid_size(mass) as i64, h: asteroid_size(mass) as i64 }),
        ship: None,
        bullet: None,
        asteroid: true,
        spawner: if with_spawner {
            Some(AsteroidSpawner { one_time: true, amount: 1, timer: 0 })
        } else {
            None
        },
        scoreboard: None,
    }
}

/// Side length of an asteroid of the given mass.
pub fn asteroid_extent(mass: u64) -> (r: i64)
    requires
        mass <= COORD_LIMIT,
    ensures
        r == asteroid_size(mass),
        0 <= r <= COORD_LIMIT,
{
    assert(mass * SIZE_SQUARED <= COORD_LIMIT * SIZE_SQUARED) by (nonlinear_arith)
        requires
            mass <= COORD_LIMIT,
    ;
    let n: u128 = (mass as u128) * (SIZE_SQUARED as u128);
    let r = isqrt(n);
    proof {
        if r > COORD_LIMIT {
            assert(r * r > COORD_LIMIT * SIZE_SQUARED) by (nonlinear_arith)
                requires
                    r > COORD_LIMIT,
            ;
        }
    }
    r as i64
}

/// An asteroid at `pos` moving at `vel`, with or without a one-time spawner.
pub fn make_asteroid(pos: Point, vel: Point, mass: u64, with_spawner: bool) -> (r: EntityRecord)
    requires
        mass <= COORD_LIMIT,
    ensures
        r == asteroid_record(pos, vel, mass, with_spawner),
        (pos.bounded() && vel.bounded()) ==> r.bounded(),
{
    let size = asteroid_extent(mass);
    EntityRecord {
        alive: true,
        physics: Some(Physics { velocity: vel, mass }),
        transform: Some(Transform { translation: pos, angle: 0 }),
        extent: Some(Extent { w: size, h: size }),
        ship: None,
        bullet: None,
        asteroid: true,
        spawner: if with_spawner {
            Some(AsteroidSpawner { one_time: true, amount: 1, timer: 0 })
        } else {
            None
        },
        scoreboard: None,
    }
}

/// The fragments' sideways velocity: the heading turned a quarter turn
/// clockwise, scaled to `SPREAD`; zero for a body at rest.
pub open spec fn side_of(v: Point) -> (int, int) {
    let len = sqrt_floor(v.x * v.x + v.y * v.y);
    if len == 0 {
        (0, 0)
    } else {
        ((v.y * SPREAD) / len, (-v.x * SPREAD) / len)
    }
}

pub open spec fn fragment_velocity(v: Point, sign: int) -> Point {
    Point {
        x: clamp_spec(v.x + sign * side_of(v).0) as i64,
        y: clamp_spec(v.y + sign * side_of(v).1) as i64,
    }
}

fn fragment_velocities(v: Point) -> (r: (Point, Point))
    requires
        v.bounded(),
    ensures
        r.0 == fragment_velocity(v, 1),
        r.1 == fragment_velocity(v, -1),
        r.0.bounded(),
        r.1.bounded(),
{
    let vx: i128 = v.x as i128;
    let vy: i128 = v.y as i128;
    assert(0 <= vx * vx <= COORD_LIMIT * COORD_LIMIT) by (nonlinear_arith)
        requires
            -COORD_LIMIT <= vx <= COORD_LIMIT,
    ;
    assert(0 <= vy * vy <= COORD_LIMIT * COORD_LIMIT) by (nonlinear_arith)
        requires
            -COORD_LIMIT <= vy <= COORD_LIMIT,
    ;
    let sq: i128 = vx * vx + vy * vy;
    let len = isqrt(sq as u128);
    let (sx, sy): (i128, i128) = if len == 0 {
        (0, 0)
    } else {
        let l: i128 = len as i128;
        assert(len <= sq) by (nonlinear_arith)
            requires
                len * len <= sq,
                len >= 1,
        {
        }
        assert(-COORD_LIMIT * SPREAD <= vy * SPREAD <= COORD_LIMIT * SPREAD) by (nonlinear_arith)
            requires
                -COORD_LIMIT <= vy <= COORD_LIMIT,
        ;
        assert(-COORD_LIMIT * SPREAD <= -vx * SPREAD <= COORD_LIMIT * SPREAD) by (nonlinear_arith)
            requires
                -COORD_LIMIT <= vx <= COORD_LIMIT,
        ;
        proof {
            lemma_div_bounded(vy * SPREAD, l as int);
            lemma_div_bounded(-vx * SPREAD, l as int);
        }
        let a = (vy * (SPREAD as i128)).checked_div_euclid(l).unwrap();
        let b = ((-vx) * (SPREAD as i128)).checked_div_euclid(l).unwrap();
        (a, b)
    };
    (
        Point { x: clamp_coord(vx + sx), y: clamp_coord(vy + sy) },
        Point { x: clamp_coord(vx - sx), y: clamp_coord(vy - sy) },
    )
}

proof fn lemma_div_bounded(n: int, d: int)
    requires
        d >= 1,
        -COORD_LIMIT * SPREAD <= n <= COORD_LIMIT * SPREAD,
    ensures
        -COORD_LIMIT * SPREAD <= n / d <= COORD_LIMIT * SPREAD,
{
    let q = n / d;
    let r = n % d;
    vstd::arithmetic::div_mod::lemma_fundamental_div_mod(n, d);
    vstd::arithmetic::div_mod::lemma_mod_bound(n, d);
    assert((n >= 0 ==> 0 <= q <= n) && (n < 0 ==> n <= q <= 0)) by (nonlinear_arith)
        requires
            n == d * q + r,
            0 <= r < d,
            d >= 1,
    ;
}

/// The two pieces of a split asteroid: each takes half the mass (the second
/// the larger half when it is odd) and one of the sideways velocities.
pub open spec fn split_fragments(ast: EntityRecord) -> (EntityRecord, EntityRecord) {
    let p = ast.physics.unwrap();
    let pos = ast.transform.unwrap().translation;
    (
        asteroid_record(pos, fragment_velocity(p.velocity, 1), (p.mass / 2) as u64, false),
        asteroid_record(pos, fragment_velocity(p.velocity, -1), (p.mass - p.mass / 2) as u64, false),
    )
}

/// A member of the collision snapshot: a live entity with physics, a
/// transform and a bounding extent.
pub open spec fn collidable(r: EntityRecord) -> bool {
    r.alive && r.physics.is_some() && r.transform.is_some() && r.extent.is_some()
}

/// The result of one pair `(i, j)` of the pass, in the state `s` left by the
/// pairs before it. A pair with an already destroyed member is skipped.
pub open spec fn resolve_spec(s: Seq<EntityRecord>, i: usize, j: usize) -> Seq<EntityRecord> {
    if i >= s.len() || j >= s.len() || i == j {
        s
    } else {
        let a = s[i as int];
        let b = s[j as int];
        if !(collidable(a) && collidable(b)) {
            s
        } else {
            match collide_spec(
                a.transform.unwrap().translation,
                a.extent.unwrap(),
                b.transform.unwrap().translation,
                b.extent.unwrap(),
            ) {
                None => s,
                Some(side) => match outcome_spec(role_spec(a), role_spec(b)) {
                    Outcome::Ignore => s,
                    Outcome::Bounce => s.update(i as int, bounce(a, side)).update(
                        j as int,
                        bounce(b, side.mirror()),
                    ),
                    Outcome::Damage => s.update(i as int, bounce(damage(a), side)).update(
                        j as int,
                        bounce(damage(b), side.mirror()),
                    ),
                    Outcome::Annihilate => {
                        let ast = if role_spec(a) == Role::Asteroid { a } else { b };
                        let s2 = score_all(s.update(i as int, dead(a)).update(j as int, dead(b)));
                        if ast.physics.unwrap().mass > SPLIT_MASS {
                            s2.push(split_fragments(ast).0).push(split_fragments(ast).1)
                        } else {
                            s2
                        }
                    },
                },
            }
        }
    }
}

/// The pairs `(snap[a], snap[b])` for `b` from `b0` on, in order.
pub open spec fn scan_row(s: Seq<EntityRecord>, snap: Seq<usize>, a: int, b0: int) -> Seq<EntityRecord>
    decreases snap.len() - b0,
{
    if b0 < 0 || a < 0 || b0 >= snap.len() || a >= snap.len() {
        s
    } else {
        scan_row(resolve_spec(s, snap[a], snap[b0]), snap, a, b0 + 1)
    }
}

/// Every pair `(snap[a], snap[b])` with `a0 <= a < b`, in order.
pub open spec fn scan(s: Seq<EntityRecord>, snap: Seq<usize>, a0: int) -> Seq<EntityRecord>
    decreases snap.len() - a0,
{
    if a0 < 0 || a0 >= snap.len() {
        s
    } else {
        scan(scan_row(s, snap, a0, a0 + 1), snap, a0 + 1)
    }
}

/// The collision snapshot: the collidable entities among the first `n`.
pub open spec fn snapshot(s: Seq<EntityRecord>, n: int) -> Seq<usize>
    decreases n,
{
    if n <= 0 {
        Seq::empty()
    } else {
        let rest = snapshot(s, n - 1);
        if collidable(s[n - 1]) { rest.push((n - 1) as usize) } else { rest }
    }
}

/// One tick of collision handling over the store `s`.
pub open spec fn collision_pass(s: Seq<EntityRecord>) -> Seq<EntityRecord> {
    scan(s, snapshot(s, s.len() as int), 0)
}

proof fn lemma_snapshot_is_query(s: Seq<EntityRecord>, shape: Shape, n: int)
    requires
        forall|r: EntityRecord| shape.matches(r) == collidable(r),
    ensures
        matching(s, shape, n) == snapshot(s, n),
    decreases n,
{
    if n > 0 {
        lemma_snapshot_is_query(s, shape, n - 1);
    }
}

/// The shape of the collision snapshot.
pub fn collision_shape() -> (r: Shape)
    ensures
        forall|e: EntityRecord| r.matches(e) == collidable(e),
{
    let r = Shape {
        required: vec![
            Param { kind: Kind::Physics, mutable: true },
            Param { kind: Kind::Transform, mutable: false },
            Param { kind: Kind::Extent, mutable: false },
        ],
        optional: vec![
            Param { kind: Kind::PlayerShip, mutable: true },
            Param { kind: Kind::Bullet, mutable: false },
            Param { kind: Kind::Asteroid, mutable: false },
        ],
        filters: Vec::new(),
    };
    assert forall|e: EntityRecord| r.matches(e) == collidable(e) by {
        if collidable(e) {
            assert forall|i: int| 0 <= i < r.required@.len() implies crate::query::has_spec(
                e,
                #[trigger] r.required@[i].kind,
            ) by {
                assert(i == 0 || i == 1 || i == 2);
            }
        }
        if r.matches(e) {
            assert(crate::query::has_spec(e, r.required@[0].kind));
            assert(crate::query::has_spec(e, r.required@[1].kind));
            assert(crate::query::has_spec(e, r.required@[2].kind));
        }
    }
    r
}

fn damage_exec(r: EntityRecord) -> (o: EntityRecord)
    ensures
        o == damage(r),
{
    match r.ship {
        Some(s) => if r.bullet.is_none() && !r.asteroid {
            let lives: i8 = if s.lives > 0 { s.lives - 1 } else { 0 };
            EntityRecord { ship: Some(PlayerShip { lives }), ..r }
        } else {
            r
        },
        None => r,
    }
}

fn bounce_exec(r: EntityRecord, p: Physics, side: Collision) -> (o: EntityRecord)
    requires
        r.physics == Some(p),
        p.velocity.bounded(),
    ensures
        o == bounce(r, side),
        r.bounded() ==> o.bounded(),
{
    EntityRecord { physics: Some(Physics { velocity: away(p.velocity, side), ..p }), ..r }
}

proof fn lemma_update_bounded(s: Seq<EntityRecord>, k: int, r: EntityRecord)
    requires
        all_bounded(s),
        r.bounded(),
        0 <= k < s.len(),
    ensures
        all_bounded(s.update(k, r)),
{
    assert forall|m: int| 0 <= m < s.update(k, r).len() implies (#[trigger] s.update(k, r)[m]).bounded() by {
        if m != k {
            assert(s.update(k, r)[m] == s[m]);
        }
    }
}

proof fn lemma_push_bounded(s: Seq<EntityRecord>, r: EntityRecord)
    requires
        all_bounded(s),
        r.bounded(),
    ensures
        all_bounded(s.push(r)),
{
    assert forall|m: int| 0 <= m < s.push(r).len() implies (#[trigger] s.push(r)[m]).bounded() by {
        if m < s.len() {
            assert(s.push(r)[m] == s[m]);
        }
    }
}

impl World {
    /// Gives one point to every live scoreboard.
    fn score_point(&mut self)
        requires
            old(self).wf(),
        ensures
            final(self).records@ == score_all(old(self).records@),
            final(self).wf(),
    {
        let ghost s0 = self.records@;
        let mut k: usize = 0;
        while k < self.records.len()
            invariant
                k <= self.records@.len(),
                self.records@.len() == s0.len(),
                all_bounded(s0),
                forall|m: int| 0 <= m < k ==> self.records@[m] == bump(s0[m]),
                forall|m: int| k <= m < s0.len() ==> self.records@[m] == s0[m],
            decreases self.records@.len() - k,
        {
            let r = self.records[k];
            match r.scoreboard {
                Some(b) => if r.alive {
                    let score: u64 = if b.score < u64::MAX { b.score + 1 } else { b.score };
                    self.records.set(k, EntityRecord { scoreboard: Some(Scoreboard { score }), ..r });
                },
                None => {},
            }
            k = k + 1;
        }
        assert(self.records@ == score_all(s0));
        assert forall|m: int| 0 <= m < self.records@.len() implies (#[trigger] self.records@[m]).bounded() by {
            assert(s0[m].bounded());
        }
    }

    /// Resolves the pair `(i, j)` of the collision pass.
    fn resolve_pair(&mut self, i: usize, j: usize)
        requires
            old(self).wf(),
        ensures
            final(self).records@ == resolve_spec(old(self).records@, i, j),
            final(self).wf(),
    {
        if i >= self.records.len() || j >= self.records.len() || i == j {
            return;
        }
        let a = self.records[i];
        let b = self.records[j];
        proof {
            assert(self.records@[i as int].bounded());
            assert(self.records@[j as int].bounded());
        }
        if !(a.alive && b.alive) {
            return;
        }
        let (pa, ta, ea) = match (a.physics, a.transform, a.extent) {
            (Some(p), Some(t), Some(e)) => (p, t, e),
            _ => return,
        };
        let (pb, tb, eb) = match (b.physics, b.transform, b.extent) {
            (Some(p), Some(t), Some(e)) => (p, t, e),
            _ => return,
        };
        let side = match collide(ta.translation, ea, tb.translation, eb) {
            Some(c) => c,
            None => return,
        };
        let ghost s0 = self.records@;
        match classify(role(&a), role(&b)) {
            Outcome::Ignore => {},
            Outcome::Bounce => {
                let na = bounce_exec(a, pa, side);
                let nb = bounce_exec(b, pb, side.mirrored());
                self.records.set(i, na);
                proof { lemma_update_bounded(s0, i as int, na); }
                self.records.set(j, nb);
                proof { lemma_update_bounded(s0.update(i as int, na), j as int, nb); }
            },
            Outcome::Damage => {
                let na = bounce_exec(damage_exec(a), pa, side);
                let nb = bounce_exec(damage_exec(b), pb, side.mirrored());
                self.records.set(i, na);
                proof { lemma_update_bounded(s0, i as int, na); }
                self.records.set(j, nb);
                proof { lemma_update_bounded(s0.update(i as int, na), j as int, nb); }
            },
            Outcome::Annihilate => {
                let a_is_asteroid = a.asteroid;
                let (p, t) = if a_is_asteroid { (pa, ta) } else { (pb, tb) };
                let da = EntityRecord { alive: false, ..a };
                let db = EntityRecord { alive: false, ..b };
                self.records.set(i, da);
                proof { lemma_update_bounded(s0, i as int, da); }
                self.records.set(j, db);
                proof { lemma_update_bounded(s0.update(i as int, da), j as int, db); }
                self.score_point();
                if p.mass > SPLIT_MASS {
                    let (v1, v2) = fragment_velocities(p.velocity);
                    let half: u64 = p.mass / 2;
                    let f1 = make_asteroid(t.translation, v1, half, false);
                    let f2 = make_asteroid(t.translation, v2, p.mass - half, false);
                    let ghost s1 = self.records@;
                    self.records.push(f1);
                    proof { lemma_push_bounded(s1, f1); }
                    self.records.push(f2);
                    proof { lemma_push_bounded(s1.push(f1), f2); }
                }
            },
        }
    }

    /// One tick of collision handling: every unordered pair of the snapshot
    /// of collidable entities, in snapshot order, is tested and resolved.
    pub fn collision_system(&mut self)
        requires
            old(self).wf(),
        ensures
            final(self).records@ == collision_pass(old(self).records@),
            final(self).wf(),
    {
        let shape = collision_shape();
        let snap = self.query(&shape);
        let ghost s0 = self.records@;
        proof {
            lemma_snapshot_is_query(s0, shape, s0.len() as int);
        }
        let ghost target = collision_pass(s0);
        let mut a: usize = 0;
        while a < snap.len()
            invariant
                a <= snap@.len(),
                snap@ == snapshot(s0, s0.len() as int),
                scan(self.records@, snap@, a as int) == target,
                self.wf(),
            decreases snap@.len() - a,
        {
            let mut b: usize = a + 1;
            while b < snap.len()
                invariant
                    a < b <= snap@.len(),
                    snap@ == snapshot(s0, s0.len() as int),
                    scan(scan_row(self.records@, snap@, a as int, b as int), snap@, a + 1) == target,
                    self.wf(),
                decreases snap@.len() - b,
            {
                self.resolve_pair(snap[a], snap[b]);
                b = b + 1;
            }
            a = a + 1;
        }
    }
}

/// Whether the pair `(i, j)` of state `s` is a bullet and an asteroid that
/// touch, both still alive.
pub open spec fn annihilates(s: Seq<EntityRecord>, i: usize, j: usize) -> bool {
    &&& i < s.len() && j < s.len() && i != j
    &&& collidable(s[i as int]) && collidable(s[j as int])
    &&& collide_spec(
        s[i as int].transform.unwrap().translation,
        s[i as int].extent.unwrap(),
        s[j as int].transform.unwrap().translation,
        s[j as int].extent.unwrap(),
    ).is_some()
    &&& outcome_spec(role_spec(s[i as int]), role_spec(s[j as int])) == Outcome::Annihilate
}

pub open spec fn ship_ok(r: EntityRecord) -> bool {
    match r.ship {
        Some(p) => !r.alive || p.lives >= 0,
        None => true,
    }
}

/// No live ship has a negative number of lives.
pub open spec fn lives_ok(s: Seq<EntityRecord>) -> bool {
    forall|k: int| 0 <= k < s.len() ==> ship_ok(#[trigger] s[k])
}

pub open spec fn score_kept(r: EntityRecord, q: EntityRecord) -> bool {
    match r.scoreboard {
        Some(b) => match q.scoreboard {
            Some(c) => c.score >= b.score,
            None => false,
        },
        None => true,
    }
}

/// Every scoreboard of `s` is still there in `t`, with at least its score.
pub open spec fn scores_kept(s: Seq<EntityRecord>, t: Seq<EntityRecord>) -> bool {
    &&& s.len() <= t.len()
    &&& forall|k: int| 0 <= k < s.len() ==> score_kept(#[trigger] s[k], t[k])
}

proof fn lemma_resolve_lives(s: Seq<EntityRecord>, i: usize, j: usize)
    requires
        lives_ok(s),
    ensures
        lives_ok(resolve_spec(s, i, j)),
{
    let t = resolve_spec(s, i, j);
    assert forall|k: int| 0 <= k < t.len() implies ship_ok(#[trigger] t[k]) by {
        if k < s.len() {
            assert(ship_ok(s[k]));
        }
    }
}

proof fn lemma_resolve_scores(s: Seq<EntityRecord>, i: usize, j: usize)
    ensures
        scores_kept(s, resolve_spec(s, i, j)),
{
}

proof fn lemma_scores_kept_trans(s: Seq<EntityRecord>, t: Seq<EntityRecord>, u: Seq<EntityRecord>)
    requires
        scores_kept(s, t),
        scores_kept(t, u),
    ensures
        scores_kept(s, u),
{
    assert forall|k: int| 0 <= k < s.len() implies score_kept(#[trigger] s[k], u[k]) by {
        assert(score_kept(s[k], t[k]));
        assert(score_kept(t[k], u[k]));
    }
}

proof fn lemma_scan_row_invariants(s: Seq<EntityRecord>, snap: Seq<usize>, a: int, b: int)
    ensures
        lives_ok(s) ==> lives_ok(scan_row(s, snap, a, b)),
        scores_kept(s, scan_row(s, snap, a, b)),
    decreases snap.len() - b,
{
    if !(b < 0 || a < 0 || b >= snap.len() || a >= snap.len()) {
        let s1 = resolve_spec(s, snap[a], snap[b]);
        if lives_ok(s) {
            lemma_resolve_lives(s, snap[a], snap[b]);
        }
        lemma_resolve_scores(s, snap[a], snap[b]);
        lemma_scan_row_invariants(s1, snap, a, b + 1);
        lemma_scores_kept_trans(s, s1, scan_row(s1, snap, a, b + 1));
    }
}

proof fn lemma_scan_invariants(s: Seq<EntityRecord>, snap: Seq<usize>, a: int)
    ensures
        lives_ok(s) ==> lives_ok(scan(s, snap, a)),
        scores_kept(s, scan(s, snap, a)),
    decreases snap.len() - a,
{
    if !(a < 0 || a >= snap.len()) {
        let s1 = scan_row(s, snap, a, a + 1);
        lemma_scan_row_invariants(s, snap, a, a + 1);
        lemma_scan_invariants(s1, snap, a + 1);
        lemma_scores_kept_trans(s, s1, scan(s1, snap, a + 1));
    }
}

/// However many ship-asteroid contacts a tick holds, no ship's lives go
/// below zero.
pub proof fn law_lives_saturate(s: Seq<EntityRecord>)
    requires
        lives_ok(s),
    ensures
        lives_ok(collision_pass(s)),
{
    lemma_scan_invariants(s, snapshot(s, s.len() as int), 0);
}

/// A collision tick never lowers a score, nor removes a scoreboard.
pub proof fn law_scores_never_fall(s: Seq<EntityRecord>)
    ensures
        scores_kept(s, collision_pass(s)),
{
    lemma_scan_invariants(s, snapshot(s, s.len() as int), 0);
}

/// A bullet-asteroid annihilation adds exactly one point to every other live
/// scoreboard (short of the largest score).
pub proof fn law_annihilation_scores(s: Seq<EntityRecord>, i: usize, j: usize, k: int)
    requires
        annihilates(s, i, j),
        0 <= k < s.len(),
        k != i,
        k != j,
        s[k].alive,
        s[k].scoreboard.is_some(),
    ensures
        resolve_spec(s, i, j)[k].scoreboard == Some(Scoreboard { score: sat_inc(s[k].scoreboard.unwrap().score) }),
        s[k].scoreboard.unwrap().score < u64::MAX ==>
            resolve_spec(s, i, j)[k].scoreboard.unwrap().score == s[k].scoreboard.unwrap().score + 1,
{
}

/// When a bullet destroys an asteroid of mass `m > SPLIT_MASS`, both are
/// gone and exactly two asteroid fragments appear, of masses `m / 2` and
/// `m - m / 2` (so `m / 2` each for an even `m`, and `m` in all); a lighter
/// asteroid leaves no fragment.
pub proof fn law_split_conserves_mass(s: Seq<EntityRecord>, i: usize, j: usize)
    requires
        annihilates(s, i, j),
    ensures
        !resolve_spec(s, i, j)[i as int].alive,
        !resolve_spec(s, i, j)[j as int].alive,
        ({
            let ast = if role_spec(s[i as int]) == Role::Asteroid { s[i as int] } else { s[j as int] };
            let m = ast.physics.unwrap().mass;
            let t = resolve_spec(s, i, j);
            if m > SPLIT_MASS {
                &&& t.len() == s.len() + 2
                &&& t[s.len() as int].asteroid && t[s.len() + 1int].asteroid
                &&& t[s.len() as int].alive && t[s.len() + 1int].alive
                &&& t[s.len() as int].physics.unwrap().mass == m / 2
                &&& t[s.len() + 1int].physics.unwrap().mass == m - m / 2
                &&& t[s.len() as int].physics.unwrap().mass + t[s.len() + 1int].physics.unwrap().mass == m
            } else {
                t.len() == s.len()
            }
        }),
{
}

/// 1 when the pair `(i, j)` of state `s` is an annihilation, else 0.
pub open spec fn pair_kills(s: Seq<EntityRecord>, i: usize, j: usize) -> int {
    if annihilates(s, i, j) { 1 } else { 0 }
}

/// Annihilations among the pairs `(snap[a], snap[b])`, `b` from `b0` on.
pub open spec fn row_kills(s: Seq<EntityRecord>, snap: Seq<usize>, a: int, b0: int) -> int
    decreases snap.len() - b0,
{
    if b0 < 0 || a < 0 || b0 >= snap.len() || a >= snap.len() {
        0
    } else {
        pair_kills(s, snap[a], snap[b0]) + row_kills(resolve_spec(s, snap[a], snap[b0]), snap, a, b0 + 1)
    }
}

/// Annihilations among the pairs of the pass from row `a0` on.
pub open spec fn scan_kills(s: Seq<EntityRecord>, snap: Seq<usize>, a0: int) -> int
    decreases snap.len() - a0,
{
    if a0 < 0 || a0 >= snap.len() {
        0
    } else {
        row_kills(s, snap, a0, a0 + 1) + scan_kills(scan_row(s, snap, a0, a0 + 1), snap, a0 + 1)
    }
}

/// The bullet-asteroid annihilations of one collision tick.
pub open spec fn pass_kills(s: Seq<EntityRecord>) -> int {
    scan_kills(s, snapshot(s, s.len() as int), 0)
}

/// A score raised by `n`, stopping at the largest score.
pub open spec fn capped(x: u64, n: int) -> u64 {
    if x + n <= u64::MAX { (x + n) as u64 } else { u64::MAX }
}

/// A live scoreboard that takes no part in collisions.
pub open spec fn board_at(s: Seq<EntityRecord>, k: int) -> bool {
    0 <= k < s.len() && s[k].alive && s[k].scoreboard.is_some() && !collidable(s[k])
}

proof fn lemma_resolve_board(s: Seq<EntityRecord>, i: usize, j: usize, k: int)
    requires
        board_at(s, k),
    ensures
        board_at(resolve_spec(s, i, j), k),
        resolve_spec(s, i, j)[k].scoreboard.unwrap().score
            == capped(s[k].scoreboard.unwrap().score, pair_kills(s, i, j)),
{
    let t = resolve_spec(s, i, j);
    if annihilates(s, i, j) {
        assert(k != i && k != j);
        let s1 = s.update(i as int, dead(s[i as int])).update(j as int, dead(s[j as int]));
        assert(s1[k] == s[k]);
        assert(score_all(s1)[k] == bump(s[k]));
        assert(t[k] == bump(s[k]));
    } else {
        if i < s.len() && j < s.len() && i != j && collidable(s[i as int]) && collidable(s[j as int]) {
            assert(k != i && k != j);
        }
        assert(t[k] == s[k]);
    }
}

proof fn lemma_row_board(s: Seq<EntityRecord>, snap: Seq<usize>, a: int, b: int, k: int)
    requires
        board_at(s, k),
    ensures
        board_at(scan_row(s, snap, a, b), k),
        row_kills(s, snap, a, b) >= 0,
        scan_row(s, snap, a, b)[k].scoreboard.unwrap().score
            == capped(s[k].scoreboard.unwrap().score, row_kills(s, snap, a, b)),
    decreases snap.len() - b,
{
    if !(b < 0 || a < 0 || b >= snap.len() || a >= snap.len()) {
        let s1 = resolve_spec(s, snap[a], snap[b]);
        lemma_resolve_board(s, snap[a], snap[b], k);
        lemma_row_board(s1, snap, a, b + 1, k);
    }
}

proof fn lemma_scan_board(s: Seq<EntityRecord>, snap: Seq<usize>, a: int, k: int)
    requires
        board_at(s, k),
    ensures
        board_at(scan(s, snap, a), k),
        scan_kills(s, snap, a) >= 0,
        scan(s, snap, a)[k].scoreboard.unwrap().score
            == capped(s[k].scoreboard.unwrap().score, scan_kills(s, snap, a)),
    decreases snap.len() - a,
{
    if !(a < 0 || a >= snap.len()) {
        let s1 = scan_row(s, snap, a, a + 1);
        lemma_row_board(s, snap, a, a + 1, k);
        lemma_scan_board(s1, snap, a + 1, k);
    }
}

/// Over one collision tick, every live scoreboard outside the collisions
/// gains exactly one point per bullet-asteroid annihilation of the tick
/// (stopping at the largest score), and stays.
pub proof fn law_pass_scores(s: Seq<EntityRecord>, k: int)
    requires
        board_at(s, k),
    ensures
        board_at(collision_pass(s), k),
        pass_kills(s) >= 0,
        collision_pass(s)[k].scoreboard.unwrap().score == capped(s[k].scoreboard.unwrap().score, pass_kills(s)),
{
    lemma_scan_board(s, snapshot(s, s.len() as int), 0, k);
}

/// Every destroyed entity of `s` is still destroyed in `t`.
pub open spec fn dead_kept(s: Seq<EntityRecord>, t: Seq<EntityRecord>) -> bool {
    &&& s.len() <= t.len()
    &&& forall|k: int| 0 <= k < s.len() && !(#[trigger] s[k]).alive ==> !t[k].alive
}

proof fn lemma_dead_kept_trans(s: Seq<EntityRecord>, t: Seq<EntityRecord>, u: Seq<EntityRecord>)
    requires
        dead_kept(s, t),
        dead_kept(t, u),
    ensures
        dead_kept(s, u),
{
    assert forall|k: int| 0 <= k < s.len() && !(#[trigger] s[k]).alive implies !u[k].alive by {
        assert(!t[k].alive);
    }
}

proof fn lemma_row_dead(s: Seq<EntityRecord>, snap: Seq<usize>, a: int, b: int)
    ensures
        dead_kept(s, scan_row(s, snap, a, b)),
    decreases snap.len() - b,
{
    if !(b < 0 || a < 0 || b >= snap.len() || a >= snap.len()) {
        let s1 = resolve_spec(s, snap[a], snap[b]);
        assert(dead_kept(s, s1));
        lemma_row_dead(s1, snap, a, b + 1);
        lemma_dead_kept_trans(s, s1, scan_row(s1, snap, a, b + 1));
    }
}

proof fn lemma_scan_dead(s: Seq<EntityRecord>, snap: Seq<usize>, a: int)
    ensures
        dead_kept(s, scan(s, snap, a)),
    decreases snap.len() - a,
{
    if !(a < 0 || a >= snap.len()) {
        let s1 = scan_row(s, snap, a, a + 1);
        lemma_row_dead(s, snap, a, a + 1);
        lemma_scan_dead(s1, snap, a + 1);
        lemma_dead_kept_trans(s, s1, scan(s1, snap, a + 1));
    }
}

/// No destroyed entity comes back during a collision tick: an asteroid and a
/// bullet destroyed by their pair are both gone when the tick ends.
pub proof fn law_destroyed_stay_destroyed(s: Seq<EntityRecord>)
    ensures
        dead_kept(s, collision_pass(s)),
{
    lemma_scan_dead(s, snapshot(s, s.len() as int), 0);
}

} // verus!
