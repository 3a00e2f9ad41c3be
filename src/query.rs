use vstd::prelude::*;
use crate::world::{EntityRecord, World};

verus! {

/// The kinds of component an entity may carry.
#[derive(Clone, Copy, Debug, PartialEq, Eq, Structural)]
pub enum Kind {
    Physics,
    Transform,
    Extent,
    PlayerShip,
    Bullet,
    Asteroid,
    Spawner,
    Scoreboard,
}

/// Whether a live entity carries a component of the given kind.
pub open spec fn has_spec(r: EntityRecord, k: Kind) -> bool {
    r.alive && match k {
        Kind::Physics => r.physics.is_some(),
        Kind::Transform => r.transform.is_some(),
        Kind::Extent => r.extent.is_some(),
        Kind::PlayerShip => r.ship.is_some(),
        Kind::Bullet => r.bullet.is_some(),
        Kind::Asteroid => r.asteroid,
        Kind::Spawner => r.spawner.is_some(),
        Kind::Scoreboard => r.scoreboard.is_some(),
    }
}

impl EntityRecord {
    pub fn has(&self, k: Kind) -> (b: bool)
        ensures
            b == has_spec(*self, k),
    {
        self.alive && match k {
            Kind::Physics => self.physics.is_some(),
            Kind::Transform => self.transform.is_some(),
            Kind::Extent => self.extent.is_some(),
            Kind::PlayerShip => self.ship.is_some(),
            Kind::Bullet => self.bullet.is_some(),
            Kind::Asteroid => self.asteroid,
            Kind::Spawner => self.spawner.is_some(),
            Kind::Scoreboard => self.scoreboard.is_some(),
        }
    }
}

/// A predicate on the component set of an entity.
#[derive(Debug)]
pub enum Filter {
    With(Kind),
    Without(Kind),
    Or(Box<Filter>, Box<Filter>),
}

impl Filter {
    pub open spec fn holds(self, r: EntityRecord) -> bool
        decreases self,
    {
        match self {
            Filter::With(k) => has_spec(r, k),
            Filter::Without(k) => !has_spec(r, k),
            Filter::Or(a, b) => a.holds(r) || b.holds(r),
        }
    }

    pub fn test(&self, r: &EntityRecord) -> (b: bool)
        ensures
            b == self.holds(*r),
        decreases self,
    {
        match self {
            Filter::With(k) => r.has(*k),
            Filter::Without(k) => !r.has(*k),
            Filter::Or(a, b) => a.test(r) || b.test(r),
        }
    }
}

/// One component slot of a query shape, read-only or mutable.
#[derive(Clone, Copy, Debug, PartialEq, Eq, Structural)]
pub struct Param {
    pub kind: Kind,
    pub mutable: bool,
}

/// What a query asks for: components that must be present, components
/// bound when present, and filters on the component set.
#[derive(Debug)]
pub struct Shape {
    pub required: Vec<Param>,
    pub optional: Vec<Param>,
    pub filters: Vec<Filter>,
}

/// One entry of the access that a query declares to the store.
#[derive(Clone, Copy, Debug, PartialEq, Eq, Structural)]
pub struct AccessEntry {
    pub kind: Kind,
    pub mutable: bool,
    pub required: bool,
}

pub open spec fn entry_of(p: Param, required: bool) -> AccessEntry {
    AccessEntry { kind: p.kind, mutable: p.mutable, required }
}

pub open spec fn as_optional(e: AccessEntry) -> AccessEntry {
    AccessEntry { required: false, ..e }
}

impl Shape {
    /// A live entity matches when every required component is present and
    /// every filter holds; optional slots never exclude it.
    pub open spec fn matches(&self, r: EntityRecord) -> bool {
        &&& r.alive
        &&& forall|i: int| 0 <= i < self.required@.len() ==> has_spec(r, #[trigger] self.required@[i].kind)
        &&& forall|i: int| 0 <= i < self.filters@.len() ==> (#[trigger] self.filters@[i]).holds(r)
    }

    pub fn matches_record(&self, r: &EntityRecord) -> (b: bool)
        ensures
            b == self.matches(*r),
    {
        if !r.alive {
            return false;
        }
        let mut i: usize = 0;
        while i < self.required.len()
            invariant
                i <= self.required@.len(),
                forall|k: int| 0 <= k < i ==> has_spec(*r, #[trigger] self.required@[k].kind),
            decreases self.required@.len() - i,
        {
            if !r.has(self.required[i].kind) {
                return false;
            }
            i = i + 1;
        }
        let mut j: usize = 0;
        while j < self.filters.len()
            invariant
                j <= self.filters@.len(),
                forall|k: int| 0 <= k < j ==> (#[trigger] self.filters@[k]).holds(*r),
            decreases self.filters@.len() - j,
        {
            if !self.filters[j].test(r) {
                return false;
            }
            j = j + 1;
        }
        true
    }

    pub open spec fn access_spec(&self) -> Seq<AccessEntry> {
        self.required@.map_values(|p: Param| entry_of(p, true))
            + self.optional@.map_values(|p: Param| entry_of(p, false))
    }

    /// The access this shape declares: required slots, then optional ones.
    pub fn access(&self) -> (r: Vec<AccessEntry>)
        ensures
            r@ == self.access_spec(),
    {
        let mut r: Vec<AccessEntry> = Vec::new();
        let mut i: usize = 0;
        while i < self.required.len()
            invariant
                i <= self.required@.len(),
                r@ == self.required@.subrange(0, i as int).map_values(|p: Param| entry_of(p, true)),
            decreases self.required@.len() - i,
        {
            let p = self.required[i];
            r.push(AccessEntry { kind: p.kind, mutable: p.mutable, required: true });
            proof {
                assert(self.required@.subrange(0, i + 1) == self.required@.subrange(0, i as int).push(p));
            }
            i = i + 1;
        }
        assert(self.required@.subrange(0, i as int) == self.required@);
        let ghost head = r@;
        let mut j: usize = 0;
        while j < self.optional.len()
            invariant
                j <= self.optional@.len(),
                head == self.required@.map_values(|p: Param| entry_of(p, true)),
                r@ == head + self.optional@.subrange(0, j as int).map_values(|p: Param| entry_of(p, false)),
            decreases self.optional@.len() - j,
        {
            let p = self.optional[j];
            r.push(AccessEntry { kind: p.kind, mutable: p.mutable, required: false });
            proof {
                assert(self.optional@.subrange(0, j + 1) == self.optional@.subrange(0, j as int).push(p));
                assert(r@ == head + self.optional@.subrange(0, j + 1).map_values(|p: Param| entry_of(p, false)));
            }
            j = j + 1;
        }
        assert(self.optional@.subrange(0, j as int) == self.optional@);
        r
    }
}

/// The identifiers, in store order, of the entities among the first `n`
/// records that match the shape.
pub open spec fn matching(s: Seq<EntityRecord>, shape: Shape, n: int) -> Seq<usize>
    decreases n,
{
    if n <= 0 {
        Seq::empty()
    } else {
        let rest = matching(s, shape, n - 1);
        if shape.matches(s[n - 1]) { rest.push((n - 1) as usize) } else { rest }
    }
}

/// One of two alternatives.
#[derive(Clone, Copy, Debug, PartialEq, Eq, Structural)]
pub enum Either<T, U> {
    Left(T),
    Right(U),
}

/// The result of fetching an entity through two alternative shapes.
#[derive(Clone, Copy, Debug, PartialEq, Eq, Structural)]
pub struct EitherFetch<T, U>(pub Either<T, U>);

pub open spec fn either_of<T, U>(left: Option<T>, right: Option<U>) -> Option<EitherFetch<T, U>> {
    match left {
        Some(t) => Some(EitherFetch(Either::Left(t))),
        None => match right {
            Some(u) => Some(EitherFetch(Either::Right(u))),
            None => None,
        },
    }
}

impl<T, U> EitherFetch<T, U> {
    /// Takes the first shape's fetch when there is one, else the second's.
    pub fn get(left: Option<T>, right: Option<U>) -> (r: Option<Self>)
        ensures
            r == either_of(left, right),
    {
        match left {
            Some(t) => Some(EitherFetch(Either::Left(t))),
            None => match right {
                Some(u) => Some(EitherFetch(Either::Right(u))),
                None => None,
            },
        }
    }

    /// The fetched alternative.
    pub fn fetch(self) -> (r: Either<T, U>)
        ensures
            r == self.0,
    {
        self.0
    }

    /// The access of the combined query: both shapes' access, each entry
    /// made optional, so that an entity need satisfy only one of them.
    pub fn access(left: &Shape, right: &Shape) -> (r: Vec<AccessEntry>)
        ensures
            r@ == (left.access_spec() + right.access_spec()).map_values(|e: AccessEntry| as_optional(e)),
    {
        let mut all = left.access();
        let mut second = right.access();
        all.append(&mut second);
        let ghost joined = all@;
        let mut r: Vec<AccessEntry> = Vec::new();
        let mut i: usize = 0;
        while i < all.len()
            invariant
                i <= all@.len(),
                all@ == joined,
                joined == left.access_spec() + right.access_spec(),
                r@ == joined.subrange(0, i as int).map_values(|e: AccessEntry| as_optional(e)),
            decreases all@.len() - i,
        {
            let e = all[i];
            r.push(AccessEntry { kind: e.kind, mutable: e.mutable, required: false });
            proof {
                assert(joined.subrange(0, i + 1) == joined.subrange(0, i as int).push(e));
            }
            i = i + 1;
        }
        assert(joined.subrange(0, i as int) == joined);
        r
    }
}

pub open spec fn pick(r: EntityRecord, e: usize, left: Shape, right: Shape) -> Option<EitherFetch<usize, usize>> {
    either_of(
        if left.matches(r) { Some(e) } else { None },
        if right.matches(r) { Some(e) } else { None },
    )
}

/// For the first `n` records, in store order, each entity read through the
/// first shape if it matches it, else through the second if it matches that.
pub open spec fn matching_either(s: Seq<EntityRecord>, left: Shape, right: Shape, n: int) -> Seq<EitherFetch<usize, usize>>
    decreases n,
{
    if n <= 0 {
        Seq::empty()
    } else {
        let rest = matching_either(s, left, right, n - 1);
        match pick(s[n - 1], (n - 1) as usize, left, right) {
            Some(f) => rest.push(f),
            None => rest,
        }
    }
}

impl World {
    /// The entities that match the shape, in store order.
    pub fn query(&self, shape: &Shape) -> (r: Vec<usize>)
        ensures
            r@ == matching(self.records@, *shape, self.records@.len() as int),
    {
        let mut r: Vec<usize> = Vec::new();
        let mut i: usize = 0;
        while i < self.records.len()
            invariant
                i <= self.records@.len(),
                r@ == matching(self.records@, *shape, i as int),
            decreases self.records@.len() - i,
        {
            if shape.matches_record(&self.records[i]) {
                r.push(i);
            }
            i = i + 1;
        }
        r
    }

    /// The entities that match either shape, each tagged with the first
    /// shape it matches, in store order.
    pub fn query_either(&self, left: &Shape, right: &Shape) -> (r: Vec<EitherFetch<usize, usize>>)
        ensures
            r@ == matching_either(self.records@, *left, *right, self.records@.len() as int),
    {
        let mut r: Vec<EitherFetch<usize, usize>> = Vec::new();
        let mut i: usize = 0;
        while i < self.records.len()
            invariant
                i <= self.records@.len(),
                r@ == matching_either(self.records@, *left, *right, i as int),
            decreases self.records@.len() - i,
        {
            let rec = &self.records[i];
            let l = if left.matches_record(rec) { Some(i) } else { None };
            let g = if right.matches_record(rec) { Some(i) } else { None };
            match EitherFetch::get(l, g) {
                Some(f) => r.push(f),
                None => {},
            }
            i = i + 1;
        }
        r
    }
}

} // verus!
