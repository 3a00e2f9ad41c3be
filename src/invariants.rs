use vstd::prelude::*;
use crate::world::EntityRecord;
use crate::collision::{scores_kept, collision_pass, law_scores_never_fall};
use crate::systems::{moved, aged, movable, restarted, restart_target, spawner_record, PRELOADED_TIMER};
use crate::spawner::{drained, waited, is_spawner};
use crate::geometry::{Point, wrap_spec, law_wrap_idempotent};
use crate::world::{Physics, Scoreboard, AsteroidSpawner};

verus! {

/// Between two restarts no score goes down: motion, bullet ageing and the
/// spawners leave every scoreboard as it was (the spawners only add new
/// entities after these records), and collisions only raise scores.
pub proof fn law_scores_rise_between_resets(s: Seq<EntityRecord>, dt: u32, width: i64, height: i64)
    ensures
        scores_kept(s, Seq::new(s.len(), |k: int| moved(s[k], dt, width, height))),
        scores_kept(s, Seq::new(s.len(), |k: int| aged(s[k], dt))),
        scores_kept(s, Seq::new(s.len(), |k: int| waited(s[k], dt))),
        scores_kept(s, Seq::new(s.len(), |k: int| drained(s[k], dt))),
        scores_kept(s, collision_pass(s)),
{
    law_scores_never_fall(s);
}

/// After a motion tick every moving entity lies in the window
/// `[-w/2, w/2) x [-h/2, h/2)`; stopped there, a further motion tick leaves
/// it where it is.
pub proof fn law_motion_wraps(r: EntityRecord, dt: u32, dt2: u32, width: i64, height: i64)
    requires
        movable(r),
        width > 0,
        height > 0,
    ensures
        ({
            let m = moved(r, dt, width, height);
            let p = m.transform.unwrap().translation;
            let stopped = EntityRecord {
                physics: Some(Physics { velocity: Point { x: 0, y: 0 }, ..m.physics.unwrap() }),
                ..m
            };
            &&& -width <= 2 * p.x < width
            &&& -height <= 2 * p.y < height
            &&& moved(stopped, dt2, width, height) == stopped
        }),
{
    let t = r.transform.unwrap().translation;
    let v = r.physics.unwrap().velocity;
    let x = t.x + crate::geometry::displacement(v.x as int, dt as int);
    let y = t.y + crate::geometry::displacement(v.y as int, dt as int);
    law_wrap_idempotent(x, width as int, dt2 as int);
    law_wrap_idempotent(y, height as int, dt2 as int);
}

/// At the asteroid ceiling no spawner is used up: every spawner is still on
/// its entity, with only its timer advanced.
pub proof fn law_ceiling_keeps_spawners(s: Seq<EntityRecord>, dt: u32, k: int)
    requires
        0 <= k < s.len(),
        is_spawner(s[k]),
    ensures
        is_spawner(waited(s[k], dt)),
        waited(s[k], dt).spawner.unwrap().amount == s[k].spawner.unwrap().amount,
        waited(s[k], dt).spawner.unwrap().one_time == s[k].spawner.unwrap().one_time,
{
}

/// A restart sets to zero the score of every live scoreboard that has no
/// physics and no spawner, and keeps that entity; when no live ship carries
/// a spawner, the fresh spawner is afterwards the only live one.
pub proof fn law_restart_outcome(s: Seq<EntityRecord>)
    ensures
        forall|k: int| 0 <= k < s.len() && (#[trigger] s[k]).alive && s[k].scoreboard.is_some()
            && !restart_target(s[k]) ==> restarted(s[k]).alive
            && restarted(s[k]).scoreboard == Some(Scoreboard { score: 0 }),
        (forall|k: int| 0 <= k < s.len() && (#[trigger] s[k]).alive && s[k].ship.is_some() ==> s[k].spawner.is_none())
            ==> ({
            let t = Seq::new(s.len(), |k: int| restarted(s[k])).push(spawner_record(PRELOADED_TIMER));
            &&& forall|k: int| 0 <= k < s.len() ==> !((#[trigger] t[k]).alive && t[k].spawner.is_some())
            &&& t[s.len() as int].alive
            &&& t[s.len() as int].spawner == Some(AsteroidSpawner { one_time: false, amount: 1, timer: PRELOADED_TIMER })
        }),
{
    if forall|k: int| 0 <= k < s.len() && (#[trigger] s[k]).alive && s[k].ship.is_some() ==> s[k].spawner.is_none() {
        let t = Seq::new(s.len(), |k: int| restarted(s[k])).push(spawner_record(PRELOADED_TIMER));
        assert forall|k: int| 0 <= k < s.len() implies !((#[trigger] t[k]).alive && t[k].spawner.is_some()) by {
            assert(t[k] == restarted(s[k]));
        }
    }
}

} // verus!
