use vstd::prelude::*;
use crate::geometry::{Point, Extent, COORD_LIMIT, integrate_spec, integrate_coord};
use crate::world::{
    Physics, Transform, PlayerShip, Bullet, AsteroidSpawner, Scoreboard, EntityRecord, World,
    all_bounded, empty_record,
};
use crate::query::{Kind, Param, Filter, Shape, has_spec};

verus! {

/// Milliseconds a bullet lives.
pub const BULLET_LIFE: i64 = 5000;

/// Milliseconds between two bursts of a spawner.
pub const SPAWN_INTERVAL: i64 = 3000;

/// Lives of the ship after a restart.
pub const RESTART_LIVES: i8 = 5;

/// Lives of the ship at the start.
pub const START_LIVES: i8 = 4;

/// Timer of the spawner made at start and on restart: three intervals less
/// half a second, so that its first bursts come at once.
pub const PRELOADED_TIMER: i64 = 8500;

/// An accumulator after `dt` more milliseconds; it stops at the top of its
/// range.
pub open spec fn acc(t: i64, dt: u32) -> i64 {
    if t + dt <= i64::MAX { (t + dt) as i64 } else { i64::MAX }
}

pub fn acc_exec(t: i64, dt: u32) -> (r: i64)
    ensures
        r == acc(t, dt),
{
    if t <= i64::MAX - dt as i64 { t + dt as i64 } else { i64::MAX }
}

/// An entity that moves: it has physics and a transform.
pub open spec fn movable(r: EntityRecord) -> bool {
    r.alive && r.physics.is_some() && r.transform.is_some()
}

/// The record after one tick of motion in a `width` x `height` window.
pub open spec fn moved(r: EntityRecord, dt: u32, width: i64, height: i64) -> EntityRecord {
    if movable(r) {
        let t = r.transform.unwrap();
        let v = r.physics.unwrap().velocity;
        EntityRecord {
            transform: Some(Transform {
                translation: Point {
                    x: integrate_spec(t.translation.x as int, v.x as int, dt as int, width as int) as i64,
                    y: integrate_spec(t.translation.y as int, v.y as int, dt as int, height as int) as i64,
                },
                ..t
            }),
            ..r
        }
    } else {
        r
    }
}

/// The record after one tick of bullet ageing: an expired bullet is gone.
pub open spec fn aged(r: EntityRecord, dt: u32) -> EntityRecord {
    match r.bullet {
        Some(b) => if r.alive {
            EntityRecord {
                alive: acc(b.lifetime, dt) < BULLET_LIFE,
                bullet: Some(Bullet { lifetime: acc(b.lifetime, dt) }),
                ..r
            }
        } else {
            r
        },
        None => r,
    }
}

/// Whether a restart clears or resets the entity: it has physics or a
/// spawner.
pub open spec fn restart_target(r: EntityRecord) -> bool {
    r.alive && (r.physics.is_some() || r.spawner.is_some())
}

/// The record after a restart, before a fresh spawner is added.
pub open spec fn restarted(r: EntityRecord) -> EntityRecord {
    let r1 = if restart_target(r) {
        if r.ship.is_some() {
            EntityRecord { ship: Some(PlayerShip { lives: RESTART_LIVES }), ..r }
        } else {
            EntityRecord { alive: false, ..r }
        }
    } else {
        r
    };
    if r1.alive && r1.scoreboard.is_some() {
        EntityRecord { scoreboard: Some(Scoreboard { score: 0 }), ..r1 }
    } else {
        r1
    }
}

pub open spec fn spawner_record(timer: i64) -> EntityRecord {
    EntityRecord {
        spawner: Some(AsteroidSpawner { one_time: false, amount: 1, timer }),
        ..empty_record()
    }
}

pub open spec fn ship_record() -> EntityRecord {
    EntityRecord {
        physics: Some(Physics { velocity: Point { x: 0, y: 0 }, mass: 100 }),
        transform: Some(Transform { translation: Point { x: 0, y: 0 }, angle: 0 }),
        extent: Some(Extent { w: 32_000, h: 32_000 }),
        ship: Some(PlayerShip { lives: START_LIVES }),
        ..empty_record()
    }
}

pub open spec fn scoreboard_record() -> EntityRecord {
    EntityRecord { scoreboard: Some(Scoreboard { score: 0 }), ..empty_record() }
}

/// The shape the restart reads: every entity with physics or a spawner,
/// with its ship component when it has one.
pub fn restart_shape() -> (r: Shape)
    ensures
        forall|e: EntityRecord| r.matches(e) == restart_target(e),
{
    let r = Shape {
        required: Vec::new(),
        optional: vec![Param { kind: Kind::PlayerShip, mutable: true }],
        filters: vec![Filter::Or(Box::new(Filter::With(Kind::Physics)), Box::new(Filter::With(Kind::Spawner)))],
    };
    assert forall|e: EntityRecord| r.matches(e) == restart_target(e) by {
        reveal_with_fuel(Filter::holds, 2);
        assert(r.filters@[0].holds(e) == (has_spec(e, Kind::Physics) || has_spec(e, Kind::Spawner)));
        if restart_target(e) {
            assert forall|i: int| 0 <= i < r.filters@.len() implies (#[trigger] r.filters@[i]).holds(e) by {
                assert(i == 0);
            }
        }
    }
    r
}

/// The scores of the live scoreboards among the first `n` records.
pub open spec fn scores_among(s: Seq<EntityRecord>, n: int) -> Seq<u64>
    decreases n,
{
    if n <= 0 {
        Seq::empty()
    } else {
        let rest = scores_among(s, n - 1);
        match s[n - 1].scoreboard {
            Some(b) => if s[n - 1].alive { rest.push(b.score) } else { rest },
            None => rest,
        }
    }
}

/// The lives of the live ships among the first `n` records.
pub open spec fn lives_among(s: Seq<EntityRecord>, n: int) -> Seq<i8>
    decreases n,
{
    if n <= 0 {
        Seq::empty()
    } else {
        let rest = lives_among(s, n - 1);
        match s[n - 1].ship {
            Some(p) => if s[n - 1].alive { rest.push(p.lives) } else { rest },
            None => rest,
        }
    }
}

impl World {
    /// What the score text shows: the score of each scoreboard and the lives
    /// of each ship, in store order.
    pub fn scoreboard_values(&self) -> (r: (Vec<u64>, Vec<i8>))
        ensures
            r.0@ == scores_among(self.records@, self.records@.len() as int),
            r.1@ == lives_among(self.records@, self.records@.len() as int),
    {
        let mut scores: Vec<u64> = Vec::new();
        let mut lives: Vec<i8> = Vec::new();
        let mut k: usize = 0;
        while k < self.records.len()
            invariant
                k <= self.records@.len(),
                scores@ == scores_among(self.records@, k as int),
                lives@ == lives_among(self.records@, k as int),
            decreases self.records@.len() - k,
        {
            let r = self.records[k];
            if r.alive {
                match r.scoreboard {
                    Some(b) => scores.push(b.score),
                    None => {},
                }
                match r.ship {
                    Some(p) => lives.push(p.lives),
                    None => {},
                }
            }
            k = k + 1;
        }
        (scores, lives)
    }

    /// The initial population: the ship at the origin, the scoreboard, and
    /// a spawner whose first bursts come at once.
    pub fn setup() -> (w: World)
        ensures
            w.records@ == seq![ship_record(), scoreboard_record(), spawner_record(PRELOADED_TIMER)],
            w.wf(),
    {
        let mut w = World::new();
        let mut ship = EntityRecord::empty();
        ship.physics = Some(Physics { velocity: Point { x: 0, y: 0 }, mass: 100 });
        ship.transform = Some(Transform { translation: Point { x: 0, y: 0 }, angle: 0 });
        ship.extent = Some(Extent { w: 32_000, h: 32_000 });
        ship.ship = Some(PlayerShip { lives: START_LIVES });
        w.spawn(ship);
        let mut board = EntityRecord::empty();
        board.scoreboard = Some(Scoreboard { score: 0 });
        w.spawn(board);
        let mut sp = EntityRecord::empty();
        sp.spawner = Some(AsteroidSpawner { timer: PRELOADED_TIMER, ..AsteroidSpawner::default() });
        w.spawn(sp);
        assert(w.records@ =~= seq![ship_record(), scoreboard_record(), spawner_record(PRELOADED_TIMER)]);
        w
    }

    /// Moves every entity with physics and a transform by its velocity over
    /// `dt` milliseconds and wraps it into the window centred on the origin.
    pub fn physics_movement(&mut self, dt: u32, width: i64, height: i64)
        requires
            old(self).wf(),
            0 < width <= COORD_LIMIT,
            0 < height <= COORD_LIMIT,
        ensures
            final(self).records@ == Seq::new(
                old(self).records@.len(),
                |k: int| moved(old(self).records@[k], dt, width, height),
            ),
            final(self).wf(),
    {
        let ghost s0 = self.records@;
        let mut k: usize = 0;
        while k < self.records.len()
            invariant
                k <= self.records@.len(),
                self.records@.len() == s0.len(),
                all_bounded(s0),
                0 < width <= COORD_LIMIT,
                0 < height <= COORD_LIMIT,
                forall|m: int| 0 <= m < k ==> self.records@[m] == moved(s0[m], dt, width, height),
                forall|m: int| 0 <= m < k ==> (#[trigger] self.records@[m]).bounded(),
                forall|m: int| k <= m < s0.len() ==> self.records@[m] == s0[m],
            decreases self.records@.len() - k,
        {
            let r = self.records[k];
            if r.alive {
                match (r.physics, r.transform) {
                    (Some(p), Some(t)) => {
                        let x = integrate_coord(t.translation.x, p.velocity.x, dt, width);
                        let y = integrate_coord(t.translation.y, p.velocity.y, dt, height);
                        let nr = EntityRecord {
                            transform: Some(Transform { translation: Point { x, y }, ..t }),
                            ..r
                        };
                        self.records.set(k, nr);
                    },
                    _ => {},
                }
            }
            proof {
                assert(s0[k as int].bounded());
            }
            k = k + 1;
        }
        assert(self.records@ =~= Seq::new(s0.len(), |k: int| moved(s0[k], dt, width, height)));
    }

    /// Ages every bullet by `dt` milliseconds and destroys those that have
    /// lived `BULLET_LIFE` or more.
    pub fn bullet_life_system(&mut self, dt: u32)
        requires
            old(self).wf(),
        ensures
            final(self).records@ == Seq::new(old(self).records@.len(), |k: int| aged(old(self).records@[k], dt)),
            final(self).wf(),
    {
        let ghost s0 = self.records@;
        let mut k: usize = 0;
        while k < self.records.len()
            invariant
                k <= self.records@.len(),
                self.records@.len() == s0.len(),
                all_bounded(s0),
                forall|m: int| 0 <= m < k ==> self.records@[m] == aged(s0[m], dt),
                forall|m: int| k <= m < s0.len() ==> self.records@[m] == s0[m],
            decreases self.records@.len() - k,
        {
            let r = self.records[k];
            match r.bullet {
                Some(b) => if r.alive {
                    let lifetime = acc_exec(b.lifetime, dt);
                    self.records.set(k, EntityRecord { alive: lifetime < BULLET_LIFE, bullet: Some(Bullet { lifetime }), ..r });
                },
                None => {},
            }
            k = k + 1;
        }
        assert(self.records@ =~= Seq::new(s0.len(), |k: int| aged(s0[k], dt)));
        assert forall|m: int| 0 <= m < self.records@.len() implies (#[trigger] self.records@[m]).bounded() by {
            assert(s0[m].bounded());
        }
    }

    /// On a restart press: destroys every entity with physics or a spawner
    /// but the ship, whose lives go back to `RESTART_LIVES`; sets every
    /// score to zero; and adds one recurring spawner with a preloaded timer.
    /// Without a press nothing changes.
    pub fn restart_key_system(&mut self, pressed: bool)
        requires
            old(self).wf(),
        ensures
            final(self).records@ == if pressed {
                Seq::new(old(self).records@.len(), |k: int| restarted(old(self).records@[k])).push(
                    spawner_record(PRELOADED_TIMER),
                )
            } else {
                old(self).records@
            },
            final(self).wf(),
    {
        if !pressed {
            return;
        }
        let shape = restart_shape();
        let ghost s0 = self.records@;
        let mut k: usize = 0;
        while k < self.records.len()
            invariant
                k <= self.records@.len(),
                self.records@.len() == s0.len(),
                all_bounded(s0),
                forall|e: EntityRecord| shape.matches(e) == restart_target(e),
                forall|m: int| 0 <= m < k ==> self.records@[m] == restarted(s0[m]),
                forall|m: int| k <= m < s0.len() ==> self.records@[m] == s0[m],
            decreases self.records@.len() - k,
        {
            let mut r = self.records[k];
            if shape.matches_record(&r) {
                match r.ship {
                    Some(_) => {
                        r.ship = Some(PlayerShip { lives: RESTART_LIVES });
                    },
                    None => {
                        r.alive = false;
                    },
                }
            }
            if r.alive && r.scoreboard.is_some() {
                r.scoreboard = Some(Scoreboard { score: 0 });
            }
            self.records.set(k, r);
            k = k + 1;
        }
        let mut sp = EntityRecord::empty();
        sp.spawner = Some(AsteroidSpawner { timer: PRELOADED_TIMER, ..AsteroidSpawner::default() });
        self.records.push(sp);
        assert(self.records@ =~= Seq::new(s0.len(), |k: int| restarted(s0[k])).push(spawner_record(PRELOADED_TIMER)));
        assert forall|m: int| 0 <= m < self.records@.len() implies (#[trigger] self.records@[m]).bounded() by {
            if m < s0.len() {
                assert(s0[m].bounded());
            }
        }
    }
}

} // verus!
