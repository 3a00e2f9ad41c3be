use asteroids::query::{AccessEntry, Either, EitherFetch, Filter, Kind, Param, Shape};
use asteroids::world::{Bullet, EntityRecord, PlayerShip, World};

fn with_ship() -> EntityRecord {
    let mut r = EntityRecord::empty();
    r.ship = Some(PlayerShip { lives: 3 });
    r
}

fn with_bullet() -> EntityRecord {
    let mut r = EntityRecord::empty();
    r.bullet = Some(Bullet { lifetime: 0 });
    r
}

fn shape_of(kind: Kind) -> Shape {
    Shape { required: vec![Param { kind, mutable: false }], optional: Vec::new(), filters: Vec::new() }
}

#[test]
fn query_filters_by_presence_and_absence() {
    let mut w = World::new();
    w.spawn(with_ship());
    w.spawn(with_bullet());
    let mut both = with_ship();
    both.asteroid = true;
    w.spawn(both);
    let gone = w.spawn(with_ship());
    w.despawn(gone);
    assert_eq!(w.query(&shape_of(Kind::PlayerShip)), vec![0usize, 2]);
    let without = Shape {
        required: vec![Param { kind: Kind::PlayerShip, mutable: true }],
        optional: Vec::new(),
        filters: vec![Filter::Without(Kind::Asteroid)],
    };
    assert_eq!(w.query(&without), vec![0usize]);
    let either_kind = Shape {
        required: Vec::new(),
        optional: Vec::new(),
        filters: vec![Filter::Or(Box::new(Filter::With(Kind::Bullet)), Box::new(Filter::With(Kind::Asteroid)))],
    };
    assert_eq!(w.query(&either_kind), vec![1usize, 2]);
}

#[test]
fn either_query_prefers_the_first_shape() {
    let mut w = World::new();
    w.spawn(with_ship());
    w.spawn(with_bullet());
    w.spawn(EntityRecord::empty());
    let mut both = with_ship();
    both.bullet = Some(Bullet { lifetime: 1 });
    w.spawn(both);
    let got = w.query_either(&shape_of(Kind::PlayerShip), &shape_of(Kind::Bullet));
    assert_eq!(
        got,
        vec![
            EitherFetch(Either::Left(0usize)),
            EitherFetch(Either::Right(1usize)),
            EitherFetch(Either::Left(3usize)),
        ]
    );
    assert_eq!(got[1].fetch(), Either::Right(1usize));
    assert_eq!(EitherFetch::<u8, u8>::get(None, None), None);
    assert_eq!(EitherFetch::<u8, u8>::get(Some(1), Some(2)), Some(EitherFetch(Either::Left(1))));
}

#[test]
fn either_access_is_the_optional_union() {
    let left = Shape {
        required: vec![Param { kind: Kind::Physics, mutable: true }],
        optional: vec![Param { kind: Kind::PlayerShip, mutable: false }],
        filters: Vec::new(),
    };
    let right = shape_of(Kind::Asteroid);
    assert_eq!(
        left.access(),
        vec![
            AccessEntry { kind: Kind::Physics, mutable: true, required: true },
            AccessEntry { kind: Kind::PlayerShip, mutable: false, required: false },
        ]
    );
    assert_eq!(
        EitherFetch::<usize, usize>::access(&left, &right),
        vec![
            AccessEntry { kind: Kind::Physics, mutable: true, required: false },
            AccessEntry { kind: Kind::PlayerShip, mutable: false, required: false },
            AccessEntry { kind: Kind::Asteroid, mutable: false, required: false },
        ]
    );
}
