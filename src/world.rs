use vstd::prelude::*;
use crate::geometry::{Point, Extent, COORD_LIMIT};

verus! {

/// Velocity (thousandths of a pixel per second) and mass.
#[derive(Clone, Copy, Debug, PartialEq, Eq, Structural)]
pub struct Physics {
    pub velocity: Point,
    pub mass: u64,
}

/// Position of the centre, and heading in thousandths of a degree.
#[derive(Clone, Copy, Debug, PartialEq, Eq, Structural)]
pub struct Transform {
    pub translation: Point,
    pub angle: i64,
}

/// The player's avatar.
#[derive(Clone, Copy, Debug, PartialEq, Eq, Structural)]
pub struct PlayerShip {
    pub lives: i8,
}

/// A projectile, with the milliseconds it has lived.
#[derive(Clone, Copy, Debug, PartialEq, Eq, Structural)]
pub struct Bullet {
    pub lifetime: i64,
}

/// A countdown emitter of asteroids.
#[derive(Clone, Copy, Debug, PartialEq, Eq, Structural)]
pub struct AsteroidSpawner {
    pub one_time: bool,
    pub amount: u64,
    pub timer: i64,
}

impl Default for AsteroidSpawner {
    fn default() -> (r: Self)
        ensures
            r == (AsteroidSpawner { one_time: false, amount: 1, timer: 0 }),
    {
        AsteroidSpawner { one_time: false, amount: 1, timer: 0 }
    }
}

/// The player's score.
#[derive(Clone, Copy, Debug, PartialEq, Eq, Structural)]
pub struct Scoreboard {
    pub score: u64,
}

/// One entity: whether it still exists, and each of its components.
#[derive(Clone, Copy, Debug, PartialEq, Eq, Structural)]
pub struct EntityRecord {
    pub alive: bool,
    pub physics: Option<Physics>,
    pub transform: Option<Transform>,
    pub extent: Option<Extent>,
    pub ship: Option<PlayerShip>,
    pub bullet: Option<Bullet>,
    pub asteroid: bool,
    pub spawner: Option<AsteroidSpawner>,
    pub scoreboard: Option<Scoreboard>,
}

impl EntityRecord {
    /// A live entity with no components.
    pub fn empty() -> (r: EntityRecord)
        ensures
            r == empty_record(),
    {
        EntityRecord {
            alive: true,
            physics: None,
            transform: None,
            extent: None,
            ship: None,
            bullet: None,
            asteroid: false,
            spawner: None,
            scoreboard: None,
        }
    }

    /// Every number the simulation computes with lies in range.
    pub open spec fn bounded(self) -> bool {
        &&& (self.physics matches Some(p) ==> p.velocity.bounded() && p.mass <= COORD_LIMIT)
        &&& (self.transform matches Some(t) ==> t.translation.bounded())
        &&& (self.extent matches Some(e) ==> e.bounded())
    }
}

pub open spec fn empty_record() -> EntityRecord {
    EntityRecord {
        alive: true,
        physics: None,
        transform: None,
        extent: None,
        ship: None,
        bullet: None,
        asteroid: false,
        spawner: None,
        scoreboard: None,
    }
}

pub open spec fn dead(r: EntityRecord) -> EntityRecord {
    EntityRecord { alive: false, ..r }
}

/// The component store: an arena of entity records. An entity is the index
/// of its record; destroyed entities stay as dead records, so an index is
/// never reused.
pub struct World {
    pub records: Vec<EntityRecord>,
}

pub open spec fn all_bounded(s: Seq<EntityRecord>) -> bool {
    forall|k: int| 0 <= k < s.len() ==> (#[trigger] s[k]).bounded()
}

impl World {
    pub open spec fn wf(&self) -> bool {
        all_bounded(self.records@)
    }

    /// A world with no entities.
    pub fn new() -> (w: World)
        ensures
            w.records@ == Seq::<EntityRecord>::empty(),
            w.wf(),
    {
        World { records: Vec::new() }
    }

    /// Adds an entity and returns its identifier.
    pub fn spawn(&mut self, r: EntityRecord) -> (e: usize)
        ensures
            final(self).records@ == old(self).records@.push(r),
            e == old(self).records@.len(),
    {
        let e = self.records.len();
        self.records.push(r);
        e
    }

    /// Destroys an entity; nothing happens for an unknown one.
    pub fn despawn(&mut self, e: usize)
        ensures
            final(self).records@ == if e < old(self).records@.len() {
                old(self).records@.update(e as int, dead(old(self).records@[e as int]))
            } else {
                old(self).records@
            },
    {
        if e < self.records.len() {
            let mut r = self.records[e];
            r.alive = false;
            self.records.set(e, r);
        }
    }

    /// Whether the entity exists.
    pub fn is_alive(&self, e: usize) -> (b: bool)
        ensures
            b == (e < self.records@.len() && self.records@[e as int].alive),
    {
        e < self.records.len() && self.records[e].alive
    }

    /// Number of entities ever spawned, dead ones included.
    pub fn len(&self) -> (n: usize)
        ensures
            n == self.records@.len(),
    {
        self.records.len()
    }
}

} // verus!
