use vstd::prelude::*;
use rand::rngs::ThreadRng;
use crate::geometry::{Point, COORD_LIMIT};
use crate::world::{AsteroidSpawner, EntityRecord, World, all_bounded};
use crate::collision::{asteroid_record, make_asteroid};
use crate::systems::{SPAWN_INTERVAL, acc, acc_exec};
use crate::random::{coin, draw_between};

verus! {

/// The spawners emit nothing while this many asteroids are alive.
pub const ASTEROID_LIMIT: usize = 256;

/// Largest horizontal and vertical speed of a new asteroid.
pub const MAX_SPAWN_SPEED_X: i64 = 300_000;
pub const MAX_SPAWN_SPEED_Y: i64 = 250_000;

/// Range of the mass of a new asteroid.
pub const MIN_SPAWN_MASS: i64 = 16;
pub const MAX_SPAWN_MASS: i64 = 128;

/// The random choices behind one new asteroid.
#[derive(Clone, Copy, Debug, PartialEq, Eq, Structural)]
pub struct SpawnDraw {
    /// Enter through the top or bottom edge (else the left or right one).
    pub horizontal_edge: bool,
    /// Which of the two edges.
    pub sign: bool,
    /// Direction along the edge.
    pub sign2: bool,
    /// Position along the edge.
    pub along: i64,
    pub speed_x: i64,
    pub speed_y: i64,
    pub mass: u64,
}

/// A draw whose values lie in their ranges, for a window of half-extents
/// `hw` x `hh`.
pub open spec fn valid_draw(d: SpawnDraw, hw: i64, hh: i64) -> bool {
    &&& (if d.horizontal_edge { -hw <= d.along <= hw } else { -hh <= d.along <= hh })
    &&& 0 <= d.speed_x <= MAX_SPAWN_SPEED_X
    &&& 0 <= d.speed_y <= MAX_SPAWN_SPEED_Y
    &&& MIN_SPAWN_MASS <= d.mass <= MAX_SPAWN_MASS
}

pub open spec fn signum(b: bool) -> int {
    if b { 1 } else { -1 }
}

/// The asteroid a draw gives: on an edge of the window, moving inward across
/// that edge, with a one-time spawner of one more asteroid.
pub open spec fn edge_asteroid_spec(d: SpawnDraw, hw: i64, hh: i64) -> EntityRecord {
    let s = signum(d.sign);
    let s2 = signum(d.sign2);
    let (x, y, dx, dy) = if d.horizontal_edge {
        (d.along as int, s * hh, s2, -s)
    } else {
        (s * hw, d.along as int, -s, s2)
    };
    asteroid_record(
        Point { x: x as i64, y: y as i64 },
        Point { x: (dx * d.speed_x) as i64, y: (dy * d.speed_y) as i64 },
        d.mass,
        true,
    )
}

/// Builds the asteroid of a draw.
pub fn edge_asteroid(d: SpawnDraw, hw: i64, hh: i64) -> (r: EntityRecord)
    requires
        valid_draw(d, hw, hh),
        0 <= hw <= COORD_LIMIT,
        0 <= hh <= COORD_LIMIT,
    ensures
        r == edge_asteroid_spec(d, hw, hh),
        r.bounded(),
{
    let s: i64 = if d.sign { 1 } else { -1 };
    let s2: i64 = if d.sign2 { 1 } else { -1 };
    let (x, y, dx, dy): (i64, i64, i64, i64) = if d.horizontal_edge {
        (d.along, s * hh, s2, -s)
    } else {
        (s * hw, d.along, -s, s2)
    };
    make_asteroid(Point { x, y }, Point { x: dx * d.speed_x, y: dy * d.speed_y }, d.mass, true)
}

/// Draws the random choices for one new asteroid.
pub fn draw_spawn(rng: &mut ThreadRng, hw: i64, hh: i64) -> (d: SpawnDraw)
    requires
        0 <= hw,
        0 <= hh,
    ensures
        valid_draw(d, hw, hh),
{
    let sign = coin(rng);
    let sign2 = coin(rng);
    let horizontal_edge = coin(rng);
    let along = if horizontal_edge { draw_between(rng, -hw, hw) } else { draw_between(rng, -hh, hh) };
    let speed_x = draw_between(rng, 0, MAX_SPAWN_SPEED_X);
    let speed_y = draw_between(rng, 0, MAX_SPAWN_SPEED_Y);
    let mass = draw_between(rng, MIN_SPAWN_MASS, MAX_SPAWN_MASS) as u64;
    SpawnDraw { horizontal_edge, sign, sign2, along, speed_x, speed_y, mass }
}

/// A spawner after `dt` more milliseconds, and how many bursts it fires:
/// one per whole interval in its timer, or a single one after which a
/// one-time spawner is gone.
pub open spec fn drain(sp: AsteroidSpawner, dt: u32) -> (Option<AsteroidSpawner>, int) {
    let t = acc(sp.timer, dt);
    if t < SPAWN_INTERVAL {
        (Some(AsteroidSpawner { timer: t, ..sp }), 0)
    } else if sp.one_time {
        (None, 1)
    } else {
        (Some(AsteroidSpawner { timer: (t % SPAWN_INTERVAL) as i64, ..sp }), t / SPAWN_INTERVAL)
    }
}

/// Runs the timer of one spawner for `dt` milliseconds.
pub fn drain_timer(sp: AsteroidSpawner, dt: u32) -> (r: (Option<AsteroidSpawner>, u64))
    ensures
        r.0 == drain(sp, dt).0,
        r.1 == drain(sp, dt).1,
{
    let t = acc_exec(sp.timer, dt);
    if t < SPAWN_INTERVAL {
        (Some(AsteroidSpawner { timer: t, ..sp }), 0)
    } else if sp.one_time {
        (None, 1)
    } else {
        (Some(AsteroidSpawner { timer: t % SPAWN_INTERVAL, ..sp }), (t / SPAWN_INTERVAL) as u64)
    }
}

pub open spec fn is_spawner(r: EntityRecord) -> bool {
    r.alive && r.spawner.is_some()
}

/// A record after its spawner ran for `dt` milliseconds.
pub open spec fn drained(r: EntityRecord, dt: u32) -> EntityRecord {
    if is_spawner(r) {
        EntityRecord { spawner: drain(r.spawner.unwrap(), dt).0, ..r }
    } else {
        r
    }
}

/// A record whose spawner only gathers time, firing nothing.
pub open spec fn waited(r: EntityRecord, dt: u32) -> EntityRecord {
    if is_spawner(r) {
        let sp = r.spawner.unwrap();
        EntityRecord { spawner: Some(AsteroidSpawner { timer: acc(sp.timer, dt), ..sp }), ..r }
    } else {
        r
    }
}

/// How many asteroids the spawners among the first `n` records emit.
pub open spec fn emitted(s: Seq<EntityRecord>, dt: u32, n: int) -> int
    decreases n,
{
    if n <= 0 {
        0
    } else {
        emitted(s, dt, n - 1) + if is_spawner(s[n - 1]) {
            drain(s[n - 1].spawner.unwrap(), dt).1 * s[n - 1].spawner.unwrap().amount
        } else {
            0
        }
    }
}

proof fn lemma_emitted_step(s: Seq<EntityRecord>, dt: u32, k: int)
    requires
        0 <= k,
    ensures
        emitted(s, dt, k) >= 0,
        emitted(s, dt, k + 1) >= emitted(s, dt, k),
    decreases k,
{
    if k > 0 {
        lemma_emitted_step(s, dt, k - 1);
    }
    if is_spawner(s[k]) {
        let sp = s[k].spawner.unwrap();
        let t = acc(sp.timer, dt);
        if t >= SPAWN_INTERVAL && !sp.one_time {
            vstd::arithmetic::div_mod::lemma_div_pos_is_pos(t as int, SPAWN_INTERVAL as int);
        }
        assert(drain(sp, dt).1 >= 0);
        assert(drain(sp, dt).1 * sp.amount >= 0) by (nonlinear_arith)
            requires
                drain(sp, dt).1 >= 0,
                sp.amount >= 0,
        ;
    }
}

/// Live asteroids among the first `n` records.
pub open spec fn asteroid_count(s: Seq<EntityRecord>, n: int) -> int
    decreases n,
{
    if n <= 0 {
        0
    } else {
        asteroid_count(s, n - 1) + if s[n - 1].alive && s[n - 1].asteroid { 1int } else { 0 }
    }
}

/// An asteroid that some valid draw gives.
pub open spec fn spawned_on_edge(r: EntityRecord, hw: i64, hh: i64) -> bool {
    exists|d: SpawnDraw| valid_draw(d, hw, hh) && r == edge_asteroid_spec(d, hw, hh)
}

proof fn lemma_waited_count(s: Seq<EntityRecord>, dt: u32, n: int)
    requires
        0 <= n <= s.len(),
    ensures
        asteroid_count(Seq::new(s.len(), |k: int| waited(s[k], dt)), n) == asteroid_count(s, n),
    decreases n,
{
    if n > 0 {
        lemma_waited_count(s, dt, n - 1);
    }
}

/// A tick that starts with `ASTEROID_LIMIT` or more live asteroids ends with
/// the same number: the spawners' timers run, but nothing is emitted.
pub proof fn law_admission_ceiling(s: Seq<EntityRecord>, dt: u32)
    requires
        asteroid_count(s, s.len() as int) >= ASTEROID_LIMIT,
    ensures
        asteroid_count(Seq::new(s.len(), |k: int| waited(s[k], dt)), s.len() as int)
            == asteroid_count(s, s.len() as int),
{
    lemma_waited_count(s, dt, s.len() as int);
}

impl World {
    /// The number of live asteroids.
    pub fn count_asteroids(&self) -> (n: usize)
        ensures
            n == asteroid_count(self.records@, self.records@.len() as int),
    {
        let mut n: usize = 0;
        let mut k: usize = 0;
        while k < self.records.len()
            invariant
                k <= self.records@.len(),
                n == asteroid_count(self.records@, k as int),
                n <= k,
            decreases self.records@.len() - k,
        {
            if self.records[k].alive && self.records[k].asteroid {
                n = n + 1;
            }
            k = k + 1;
        }
        n
    }

    /// Adds `count` asteroids on the window's edges.
    fn emit(&mut self, rng: &mut ThreadRng, count: u64, hw: i64, hh: i64)
        requires
            old(self).wf(),
            0 <= hw <= COORD_LIMIT,
            0 <= hh <= COORD_LIMIT,
        ensures
            final(self).records@.len() == old(self).records@.len() + count,
            forall|k: int| 0 <= k < old(self).records@.len() ==> final(self).records@[k] == old(self).records@[k],
            forall|k: int| old(self).records@.len() <= k < final(self).records@.len() ==>
                spawned_on_edge(#[trigger] final(self).records@[k], hw, hh),
            final(self).wf(),
    {
        let ghost s0 = self.records@;
        let mut c: u64 = 0;
        while c < count
            invariant
                c <= count,
                self.records@.len() == s0.len() + c,
                forall|k: int| 0 <= k < s0.len() ==> self.records@[k] == s0[k],
                forall|k: int| s0.len() <= k < self.records@.len() ==>
                    spawned_on_edge(#[trigger] self.records@[k], hw, hh),
                all_bounded(self.records@),
                0 <= hw <= COORD_LIMIT,
                0 <= hh <= COORD_LIMIT,
            decreases count - c,
        {
            let d = draw_spawn(rng, hw, hh);
            let a = edge_asteroid(d, hw, hh);
            let ghost before = self.records@;
            self.records.push(a);
            proof {
                assert(spawned_on_edge(a, hw, hh));
                assert forall|k: int| 0 <= k < self.records@.len() implies (#[trigger] self.records@[k]).bounded() by {
                    if k < before.len() {
                        assert(before[k].bounded());
                    }
                }
                assert forall|k: int| s0.len() <= k < self.records@.len() implies
                    spawned_on_edge(#[trigger] self.records@[k], hw, hh) by {
                    if k < before.len() {
                        assert(spawned_on_edge(before[k], hw, hh));
                    }
                }
            }
            c = c + 1;
        }
    }

    /// Fires `bursts` bursts of `amount` asteroids each.
    fn fire(&mut self, rng: &mut ThreadRng, bursts: u64, amount: u64, hw: i64, hh: i64)
        requires
            old(self).wf(),
            0 <= hw <= COORD_LIMIT,
            0 <= hh <= COORD_LIMIT,
        ensures
            final(self).records@.len() == old(self).records@.len() + bursts * amount,
            forall|k: int| 0 <= k < old(self).records@.len() ==> final(self).records@[k] == old(self).records@[k],
            forall|k: int| old(self).records@.len() <= k < final(self).records@.len() ==>
                spawned_on_edge(#[trigger] final(self).records@[k], hw, hh),
            final(self).wf(),
    {
        let ghost s0 = self.records@;
        let mut b: u64 = 0;
        while b < bursts
            invariant
                b <= bursts,
                self.records@.len() == s0.len() + b * amount,
                forall|k: int| 0 <= k < s0.len() ==> self.records@[k] == s0[k],
                forall|k: int| s0.len() <= k < self.records@.len() ==>
                    spawned_on_edge(#[trigger] self.records@[k], hw, hh),
                all_bounded(self.records@),
                0 <= hw <= COORD_LIMIT,
                0 <= hh <= COORD_LIMIT,
            decreases bursts - b,
        {
            let ghost before = self.records@;
            self.emit(rng, amount, hw, hh);
            proof {
                assert(0 <= b * amount) by (nonlinear_arith)
                    requires
                        b >= 0,
                        amount >= 0,
                ;
                assert((b + 1) * amount == b * amount + amount) by (nonlinear_arith);
                assert forall|k: int| s0.len() <= k < self.records@.len() implies
                    spawned_on_edge(#[trigger] self.records@[k], hw, hh) by {
                    if k < before.len() {
                        assert(spawned_on_edge(before[k], hw, hh));
                    }
                }
            }
            b = b + 1;
        }
    }

    /// One tick of the spawners, in a window of half-extents `hw` x `hh`.
    /// While `ASTEROID_LIMIT` or more asteroids are alive the timers only
    /// gather time. Otherwise each spawner fires as `drain` says, each burst
    /// adding `amount` asteroids on the window's edges, and a spent one-time
    /// spawner is removed from its entity.
    pub fn asteroid_spawner_system(&mut self, rng: &mut ThreadRng, dt: u32, hw: i64, hh: i64)
        requires
            old(self).wf(),
            0 <= hw <= COORD_LIMIT,
            0 <= hh <= COORD_LIMIT,
        ensures
            ({
                let s = old(self).records@;
                let t = final(self).records@;
                let n = s.len() as int;
                if asteroid_count(s, n) >= ASTEROID_LIMIT {
                    t == Seq::new(s.len(), |k: int| waited(s[k], dt))
                } else {
                    &&& t.len() == n + emitted(s, dt, n)
                    &&& forall|k: int| 0 <= k < n ==> #[trigger] t[k] == drained(s[k], dt)
                    &&& forall|k: int| n <= k < t.len() ==> spawned_on_edge(#[trigger] t[k], hw, hh)
                }
            }),
            final(self).wf(),
    {
        let ghost s0 = self.records@;
        let n = self.records.len();
        let blocked = self.count_asteroids() >= ASTEROID_LIMIT;
        let mut k: usize = 0;
        while k < n
            invariant
                k <= n,
                n == s0.len(),
                blocked == (asteroid_count(s0, n as int) >= ASTEROID_LIMIT),
                self.records@.len() >= n,
                blocked ==> self.records@.len() == n,
                !blocked ==> self.records@.len() == n + emitted(s0, dt, k as int),
                forall|m: int| 0 <= m < k ==> #[trigger] self.records@[m] == if blocked {
                    waited(s0[m], dt)
                } else {
                    drained(s0[m], dt)
                },
                forall|m: int| k <= m < n ==> self.records@[m] == s0[m],
                forall|m: int| n <= m < self.records@.len() ==> spawned_on_edge(#[trigger] self.records@[m], hw, hh),
                all_bounded(self.records@),
                0 <= hw <= COORD_LIMIT,
                0 <= hh <= COORD_LIMIT,
            decreases n - k,
        {
            let r = self.records[k];
            proof {
                assert(self.records@[k as int].bounded());
                lemma_emitted_step(s0, dt, k as int);
            }
            let ghost before = self.records@;
            if r.alive {
                match r.spawner {
                    Some(sp) => {
                        if blocked {
                            let timer = acc_exec(sp.timer, dt);
                            self.records.set(k, EntityRecord { spawner: Some(AsteroidSpawner { timer, ..sp }), ..r });
                        } else {
                            let (next, bursts) = drain_timer(sp, dt);
                            self.records.set(k, EntityRecord { spawner: next, ..r });
                            proof {
                                assert forall|m: int| 0 <= m < self.records@.len() implies (#[trigger] self.records@[m]).bounded() by {
                                    assert(before[m].bounded());
                                }
                            }
                            self.fire(rng, bursts, sp.amount, hw, hh);
                        }
                    },
                    None => {},
                }
            }
            proof {
                assert forall|m: int| 0 <= m < self.records@.len() implies (#[trigger] self.records@[m]).bounded() by {
                    if m < before.len() && m != k {
                        assert(before[m].bounded());
                    }
                }
            }
            k = k + 1;
        }
        proof {
            if blocked {
                assert(self.records@ =~= Seq::new(s0.len(), |k: int| waited(s0[k], dt)));
            }
        }
    }
}

} // verus!
