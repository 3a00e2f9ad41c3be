use asteroids::collision::{asteroid_extent, classify, make_asteroid, role, Outcome, Role};
use asteroids::geometry::{collide, integrate_coord, isqrt, wrap_coord, Collision, Extent, Point};
use asteroids::player::ShipInput;
use asteroids::spawner::{drain_timer, ASTEROID_LIMIT};
use asteroids::systems::PRELOADED_TIMER;
use asteroids::world::{
    AsteroidSpawner, Bullet, EntityRecord, Physics, PlayerShip, Scoreboard, Transform, World,
};

fn ship_at(x: i64, y: i64, lives: i8) -> EntityRecord {
    let mut r = EntityRecord::empty();
    r.physics = Some(Physics { velocity: Point { x: 0, y: 0 }, mass: 100 });
    r.transform = Some(Transform { translation: Point { x, y }, angle: 0 });
    r.extent = Some(Extent { w: 32_000, h: 32_000 });
    r.ship = Some(PlayerShip { lives });
    r
}

fn asteroid_at(x: i64, y: i64, vx: i64, vy: i64, mass: u64) -> EntityRecord {
    make_asteroid(Point { x, y }, Point { x: vx, y: vy }, mass, false)
}

fn bullet_at(x: i64, y: i64, vx: i64, vy: i64) -> EntityRecord {
    let mut r = EntityRecord::empty();
    r.physics = Some(Physics { velocity: Point { x: vx, y: vy }, mass: 10 });
    r.transform = Some(Transform { translation: Point { x, y }, angle: 0 });
    r.extent = Some(Extent { w: 8_000, h: 8_000 });
    r.bullet = Some(Bullet { lifetime: 0 });
    r
}

fn scoreboard(score: u64) -> EntityRecord {
    let mut r = EntityRecord::empty();
    r.scoreboard = Some(Scoreboard { score });
    r
}

fn velocity(w: &World, e: usize) -> Point {
    w.records[e].physics.unwrap().velocity
}

#[test]
fn ship_hit_by_asteroid_loses_one_life_and_bounces() {
    let mut w = World::new();
    let ship = w.spawn(ship_at(0, 0, 4));
    let ast = w.spawn(asteroid_at(60_000, 0, -50_000, 0, 64));
    w.physics_movement(0, 800_000, 600_000);
    w.collision_system();
    assert_eq!(w.records[ship].ship.unwrap().lives, 3);
    assert!(w.records[ast].alive);
    assert!(w.records[ship].alive);
    assert_eq!(velocity(&w, ship), Point { x: 0, y: 0 });
    assert_eq!(velocity(&w, ast), Point { x: 50_000, y: 0 });
    assert_eq!(w.len(), 2);
}

#[test]
fn bullet_destroys_asteroid_and_splits_it() {
    let mut w = World::new();
    let board = w.spawn(scoreboard(0));
    let bullet = w.spawn(bullet_at(0, 0, 0, 512_000));
    let ast = w.spawn(asteroid_at(0, 44_000, 10_000, 0, 50));
    w.collision_system();
    assert!(!w.records[bullet].alive);
    assert!(!w.records[ast].alive);
    assert_eq!(w.records[board].scoreboard.unwrap().score, 1);
    assert_eq!(w.len(), 5);
    let fragments: Vec<&EntityRecord> = w.records[3..].iter().collect();
    assert_eq!(fragments.len(), 2);
    for f in &fragments {
        assert!(f.alive && f.asteroid);
        assert_eq!(f.physics.unwrap().mass, 25);
        assert_eq!(f.transform.unwrap().translation, Point { x: 0, y: 44_000 });
        assert!(f.spawner.is_none());
    }
    // Heading (1, 0) turned a quarter clockwise is (0, -1), at 50 px/s.
    assert_eq!(fragments[0].physics.unwrap().velocity, Point { x: 10_000, y: -50_000 });
    assert_eq!(fragments[1].physics.unwrap().velocity, Point { x: 10_000, y: 50_000 });
}

#[test]
fn restart_clears_the_field() {
    let mut w = World::setup();
    w.records[0].ship = Some(PlayerShip { lives: 1 });
    w.records[1].scoreboard = Some(Scoreboard { score: 17 });
    let a = w.spawn(asteroid_at(100_000, 100_000, 0, 0, 40));
    let b = w.spawn(bullet_at(-100_000, 0, 0, 0));
    let before = w.len();
    w.restart_key_system(true);
    assert_eq!(w.len(), before + 1);
    assert!(w.records[0].alive);
    assert_eq!(w.records[0].ship.unwrap().lives, 5);
    assert_eq!(w.records[1].scoreboard.unwrap().score, 0);
    assert!(!w.records[2].alive);
    assert!(!w.records[a].alive);
    assert!(!w.records[b].alive);
    let live_spawners: Vec<&EntityRecord> =
        w.records.iter().filter(|r| r.alive && r.spawner.is_some()).collect();
    assert_eq!(live_spawners.len(), 1);
    assert_eq!(
        live_spawners[0].spawner.unwrap(),
        AsteroidSpawner { one_time: false, amount: 1, timer: PRELOADED_TIMER }
    );
}

#[test]
fn restart_without_press_changes_nothing() {
    let mut w = World::setup();
    let before = w.records.clone();
    w.restart_key_system(false);
    assert_eq!(w.records, before);
}

#[test]
fn wrap_maps_into_window_and_is_idempotent() {
    for &(t, ext) in &[(0i64, 800i64), (399, 800), (400, 800), (-400, 800), (-401, 800), (1_000_000, 801), (i64::MIN, 7), (i64::MAX, 7)] {
        let r = wrap_coord(t, ext);
        assert!(-ext <= 2 * r && 2 * r < ext, "{} {}", t, ext);
        assert_eq!(wrap_coord(r, ext), r);
        assert_eq!(integrate_coord(r, 0, 16, ext), r);
    }
    assert_eq!(wrap_coord(400, 800), -400);
    assert_eq!(wrap_coord(-401, 800), 399);
    assert_eq!(wrap_coord(1_250, 1_000), 250);
}

#[test]
fn integration_moves_by_velocity_times_time() {
    assert_eq!(integrate_coord(0, 100_000, 16, 800_000), 1_600);
    assert_eq!(integrate_coord(0, -100_000, 16, 800_000), -1_600);
    // leaving the right edge enters at the left one
    assert_eq!(integrate_coord(399_000, 100_000, 20, 800_000), -399_000);
}

#[test]
fn physics_system_moves_only_moving_entities() {
    let mut w = World::new();
    let a = w.spawn(asteroid_at(0, 0, 100_000, -50_000, 20));
    let board = w.spawn(scoreboard(3));
    w.physics_movement(10, 800_000, 600_000);
    assert_eq!(w.records[a].transform.unwrap().translation, Point { x: 1_000, y: -500 });
    assert_eq!(w.records[board], scoreboard(3));
}

#[test]
fn life_never_goes_below_zero() {
    let mut w = World::new();
    let ship = w.spawn(ship_at(0, 0, 1));
    w.spawn(asteroid_at(30_000, 0, 0, 0, 20));
    w.spawn(asteroid_at(-30_000, 0, 0, 0, 20));
    w.spawn(asteroid_at(0, 30_000, 0, 0, 20));
    w.collision_system();
    assert_eq!(w.records[ship].ship.unwrap().lives, 0);
    w.collision_system();
    assert_eq!(w.records[ship].ship.unwrap().lives, 0);
}

#[test]
fn score_counts_each_annihilation_on_every_board() {
    let mut w = World::new();
    let b1 = w.spawn(scoreboard(5));
    let b2 = w.spawn(scoreboard(0));
    w.spawn(bullet_at(0, 0, 0, 0));
    w.spawn(asteroid_at(0, 30_000, 0, 0, 20));
    w.spawn(bullet_at(300_000, 0, 0, 0));
    w.spawn(asteroid_at(300_000, 30_000, 0, 0, 20));
    w.collision_system();
    assert_eq!(w.records[b1].scoreboard.unwrap().score, 7);
    assert_eq!(w.records[b2].scoreboard.unwrap().score, 2);
    // light asteroids leave no fragments
    assert_eq!(w.len(), 6);
}

#[test]
fn destroyed_entity_is_not_hit_twice() {
    let mut w = World::new();
    let board = w.spawn(scoreboard(0));
    let bullet = w.spawn(bullet_at(0, 0, 0, 0));
    let a1 = w.spawn(asteroid_at(0, 30_000, 0, 0, 20));
    let a2 = w.spawn(asteroid_at(0, -30_000, 0, 0, 20));
    w.collision_system();
    assert_eq!(w.records[board].scoreboard.unwrap().score, 1);
    assert!(!w.records[bullet].alive);
    assert!(!w.records[a1].alive);
    assert!(w.records[a2].alive);
}

#[test]
fn light_asteroid_does_not_split() {
    let mut w = World::new();
    w.spawn(bullet_at(0, 0, 0, 0));
    w.spawn(asteroid_at(0, 34_000, 0, 0, 32));
    w.collision_system();
    assert_eq!(w.len(), 2);
    let mut w2 = World::new();
    w2.spawn(bullet_at(0, 0, 0, 0));
    w2.spawn(asteroid_at(0, 34_000, 0, 0, 33));
    w2.collision_system();
    assert_eq!(w2.len(), 4);
    assert_eq!(w2.records[2].physics.unwrap().mass, 16);
    assert_eq!(w2.records[3].physics.unwrap().mass, 17);
}

#[test]
fn pair_classification_is_symmetric() {
    let roles = [Role::Ship, Role::Bullet, Role::Asteroid, Role::Other];
    for &a in &roles {
        for &b in &roles {
            assert_eq!(classify(a, b), classify(b, a));
        }
    }
    assert_eq!(classify(Role::Asteroid, Role::Asteroid), Outcome::Bounce);
    assert_eq!(classify(Role::Bullet, Role::Bullet), Outcome::Bounce);
    assert_eq!(classify(Role::Ship, Role::Asteroid), Outcome::Damage);
    assert_eq!(classify(Role::Asteroid, Role::Bullet), Outcome::Annihilate);
    assert_eq!(classify(Role::Ship, Role::Bullet), Outcome::Ignore);
    assert_eq!(classify(Role::Ship, Role::Ship), Outcome::Ignore);
    assert_eq!(classify(Role::Other, Role::Asteroid), Outcome::Ignore);
    assert_eq!(role(&ship_at(0, 0, 1)), Role::Ship);
    assert_eq!(role(&scoreboard(0)), Role::Other);
}

#[test]
fn collision_sides_mirror() {
    let e = Extent { w: 20, h: 20 };
    let o = Point { x: 0, y: 0 };
    assert_eq!(collide(o, e, Point { x: 15, y: 0 }, e), Some(Collision::Left));
    assert_eq!(collide(Point { x: 15, y: 0 }, e, o, e), Some(Collision::Right));
    assert_eq!(collide(o, e, Point { x: 0, y: 15 }, e), Some(Collision::Bottom));
    assert_eq!(collide(Point { x: 0, y: 15 }, e, o, e), Some(Collision::Top));
    assert_eq!(collide(o, e, Point { x: 25, y: 0 }, e), None);
    // one box inside the other: no side can be told
    assert_eq!(collide(o, Extent { w: 4, h: 4 }, o, e), None);
    // deeper along x than along y: the vertical side wins
    assert_eq!(collide(o, e, Point { x: 5, y: 15 }, e), Some(Collision::Bottom));
}

#[test]
fn pair_order_does_not_change_the_result() {
    let mut w1 = World::new();
    w1.spawn(asteroid_at(0, 0, 30_000, 20_000, 20));
    w1.spawn(asteroid_at(40_000, 0, -10_000, 5_000, 20));
    let mut w2 = World::new();
    w2.spawn(asteroid_at(40_000, 0, -10_000, 5_000, 20));
    w2.spawn(asteroid_at(0, 0, 30_000, 20_000, 20));
    w1.collision_system();
    w2.collision_system();
    assert_eq!(w1.records[0], w2.records[1]);
    assert_eq!(w1.records[1], w2.records[0]);
    assert_eq!(velocity(&w1, 0), Point { x: -30_000, y: 20_000 });
    assert_eq!(velocity(&w1, 1), Point { x: 10_000, y: 5_000 });
}

#[test]
fn bullets_expire_after_five_seconds() {
    let mut w = World::new();
    let b = w.spawn(bullet_at(0, 0, 0, 0));
    w.bullet_life_system(4_999);
    assert!(w.records[b].alive);
    assert_eq!(w.records[b].bullet.unwrap().lifetime, 4_999);
    w.bullet_life_system(1);
    assert!(!w.records[b].alive);
}

#[test]
fn spawner_timer_drains_whole_intervals() {
    let sp = AsteroidSpawner { one_time: false, amount: 1, timer: 0 };
    assert_eq!(drain_timer(sp, 2_999), (Some(AsteroidSpawner { timer: 2_999, ..sp }), 0));
    assert_eq!(drain_timer(sp, 9_500), (Some(AsteroidSpawner { timer: 500, ..sp }), 3));
    let once = AsteroidSpawner { one_time: true, amount: 1, timer: 0 };
    assert_eq!(drain_timer(once, 9_500), (None, 1));
    let late = AsteroidSpawner { one_time: false, amount: 3, timer: 1_000 };
    assert_eq!(drain_timer(late, 1_999), (Some(AsteroidSpawner { timer: 2_999, ..late }), 0));
    assert_eq!(AsteroidSpawner::default(), AsteroidSpawner { one_time: false, amount: 1, timer: 0 });
}

#[test]
fn spawner_emits_asteroids_on_the_edges() {
    let mut w = World::setup();
    let mut rng = rand::thread_rng();
    let (hw, hh) = (400_000i64, 300_000i64);
    w.asteroid_spawner_system(&mut rng, 0, hw, hh);
    assert_eq!(w.records[2].spawner.unwrap().timer, 2_500);
    assert_eq!(w.len(), 5);
    for a in &w.records[3..] {
        assert!(a.alive && a.asteroid);
        let m = a.physics.unwrap().mass;
        assert!((16..=128).contains(&m));
        let p = a.transform.unwrap().translation;
        assert!(p.x.abs() == hw || p.y.abs() == hh);
        assert!(p.x.abs() <= hw && p.y.abs() <= hh);
        let v = a.physics.unwrap().velocity;
        assert!(v.x.abs() <= 300_000 && v.y.abs() <= 250_000);
        assert_eq!(a.spawner, Some(AsteroidSpawner { one_time: true, amount: 1, timer: 0 }));
        assert_eq!(a.extent.unwrap().w, asteroid_extent(m));
    }
}

#[test]
fn spawner_waits_at_the_ceiling() {
    let mut w = World::setup();
    for k in 0..ASTEROID_LIMIT {
        w.spawn(asteroid_at(k as i64, 0, 0, 0, 20));
    }
    let before = w.len();
    let mut rng = rand::thread_rng();
    w.asteroid_spawner_system(&mut rng, 100, 400_000, 300_000);
    assert_eq!(w.len(), before);
    assert_eq!(w.count_asteroids(), ASTEROID_LIMIT);
    assert_eq!(w.records[2].spawner.unwrap().timer, PRELOADED_TIMER + 100);
}

#[test]
fn one_time_spawner_removes_itself() {
    let mut w = World::new();
    let a = w.spawn(make_asteroid(Point { x: 0, y: 0 }, Point { x: 0, y: 0 }, 20, true));
    let mut rng = rand::thread_rng();
    w.asteroid_spawner_system(&mut rng, 3_000, 400_000, 300_000);
    assert!(w.records[a].alive);
    assert!(w.records[a].spawner.is_none());
    assert_eq!(w.len(), 2);
}

#[test]
fn asteroid_size_grows_with_root_of_mass() {
    assert_eq!(asteroid_extent(64), 96_000);
    assert_eq!(asteroid_extent(50), 84_852);
    assert_eq!(isqrt(99), 9);
    assert_eq!(isqrt(100), 10);
    assert_eq!(isqrt(0), 0);
    assert_eq!(isqrt(1), 1);
    assert_eq!(isqrt(u128::MAX), u64::MAX as u128);
    assert_eq!(isqrt(1u128 << 100), 1u128 << 50);
    assert_eq!(isqrt((1u128 << 100) - 1), (1u128 << 50) - 1);
}

#[test]
fn setup_spawns_ship_scoreboard_and_spawner() {
    let w = World::setup();
    assert_eq!(w.len(), 3);
    assert_eq!(w.records[0].ship, Some(PlayerShip { lives: 4 }));
    assert_eq!(w.records[1].scoreboard, Some(Scoreboard { score: 0 }));
    assert_eq!(w.records[2].spawner.unwrap().timer, 8_500);
    assert_eq!(w.scoreboard_values(), (vec![0u64], vec![4i8]));
    assert_eq!(w.players(), vec![0usize]);
}

#[test]
fn ship_turns_thrusts_and_fires() {
    let mut w = World::setup();
    let input = ShipInput { left: true, right: false, forward: true, back: false, fire: true };
    w.turn_ship(0, input, 1_000);
    assert_eq!(w.records[0].transform.unwrap().angle, 210_000);
    w.turn_ship(0, ShipInput { left: false, right: true, ..input }, 1_000);
    assert_eq!(w.records[0].transform.unwrap().angle, 0);
    // heading along +x: 352 px/s² for 100 ms, less 96 px/s² of slowing
    w.player_movement_system(0, input, 100, Point { x: 1_000, y: 0 });
    assert_eq!(velocity(&w, 0), Point { x: 25_600, y: 0 });
    assert_eq!(w.len(), 4);
    let b = w.records[3];
    assert!(b.bullet.is_some());
    assert_eq!(b.transform.unwrap().translation, Point { x: 32_000, y: 0 });
    assert_eq!(b.physics.unwrap().velocity, Point { x: 537_600, y: 0 });
    assert_eq!(b.spawner, Some(AsteroidSpawner { one_time: false, amount: 3, timer: 0 }));
    // a ship with no lives does not fire, and a slow ship stops
    w.records[0].ship = Some(PlayerShip { lives: 0 });
    let idle = ShipInput { left: false, right: false, forward: false, back: false, fire: true };
    w.player_movement_system(0, idle, 1_000, Point { x: 1_000, y: 0 });
    assert_eq!(w.len(), 4);
    assert_eq!(velocity(&w, 0), Point { x: 0, y: 0 });
}

#[test]
fn bullet_spawner_fires_one_interval_into_its_life() {
    let mut w = World::new();
    let mut rng = rand::thread_rng();
    w.spawn(ship_at(0, 0, 3));
    let fire = ShipInput { left: false, right: false, forward: false, back: false, fire: true };
    w.player_movement_system(0, fire, 0, Point { x: 1_000, y: 0 });
    assert_eq!(w.len(), 2);
    w.asteroid_spawner_system(&mut rng, 2_999, 400_000, 300_000);
    assert_eq!(w.len(), 2);
    w.asteroid_spawner_system(&mut rng, 1, 400_000, 300_000);
    assert_eq!(w.len(), 5);
    assert_eq!(w.records[1].spawner.unwrap().timer, 0);
}
