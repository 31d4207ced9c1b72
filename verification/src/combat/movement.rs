//! Movement towards targets: by the bridges for those who walk, straight for those who fly.

use vstd::prelude::*;

use super::targeting::{lookup, WorldSnaps};
use super::{edge_dist, UnitSnap};
use crate::buffs::{
    channels_of, channels_spec, stat_of, stat_spec, status_model, status_models, statuses_wf, BuffModel,
    Buffs,
};
use crate::components::{Actor, Charge, StatKind};
use crate::constants::{
    bridge_half_width, bridges, reach_slack, river_half_width, small_distance, tick_dt,
};
use crate::scalar::{hundredths, zero, Scalar};
use crate::vector::Vec3;

verus! {

/// The bridge that is nearer to `x`; the left one from the middle.
#[verifier::allow_in_spec]
pub fn nearest_bridge<S: Scalar>(x: S) -> S
    returns
        (if x.minus(bridges::<S>().1).magnitude().less(x.minus(bridges::<S>().0).magnitude()) {
            bridges::<S>().1
        } else {
            bridges::<S>().0
        }),
{
    let (left, right): (S, S) = bridges();
    if x.minus(right).magnitude().less(x.minus(left).magnitude()) {
        right
    } else {
        left
    }
}

/// Where to head next on the way from `pos` to `target`.
pub open spec fn steering_goal_spec<S: Scalar>(pos: Vec3<S>, target: Vec3<S>, flying: bool) -> Vec3<S> {
    if flying || pos.z.sign().same(target.z.sign()) {
        // Nothing to cross.
        target
    } else if pos.x.minus(nearest_bridge(pos.x)).magnitude().less(bridge_half_width()) {
        // On the bridge lane: straight over.
        Vec3 { x: pos.x, y: zero(), z: target.z }
    } else {
        // To the mouth of the bridge on this side.
        Vec3 {
            x: nearest_bridge(pos.x),
            y: zero(),
            z: pos.z.sign().times(river_half_width::<S>().plus(hundredths(50))),
        }
    }
}

/// Where to head next on the way from `pos` to `target`: flyers and units on the right side of
/// the river go straight; others first to the nearer bridge, then along it.
#[verifier::when_used_as_spec(steering_goal_spec)]
pub fn steering_goal<S: Scalar>(pos: Vec3<S>, target: Vec3<S>, flying: bool) -> (r: Vec3<S>)
    ensures
        r == steering_goal_spec(pos, target, flying),
{
    if flying || pos.z.sign().same(target.z.sign()) {
        return target;
    }
    let bridge_x: S = nearest_bridge(pos.x);
    if pos.x.minus(bridge_x).magnitude().less(bridge_half_width()) {
        Vec3 { x: pos.x, y: zero(), z: target.z }
    } else {
        Vec3 { x: bridge_x, y: zero(), z: pos.z.sign().times(river_half_width::<S>().plus(hundredths(50))) }
    }
}

/// The way of a unit that moves this tick: its target, which is in the picture and out of
/// reach, and the vector to the next goal, which is not right here.
pub open spec fn under_way<S: Scalar>(
    a: Actor<S>,
    snaps: Seq<UnitSnap<S>>,
) -> Option<(UnitSnap<S>, Vec3<S>)> {
    if a.mover.is_none() || a.attacker.is_none() || (a.attacker->0).target.is_none() {
        None
    } else {
        let att = a.attacker->0;
        match lookup(snaps, att.target->0) {
            Some(s) => {
                let way = steering_goal(a.pos, s.pos, a.flying).minus(a.pos).flat();
                if edge_dist(a.pos, a.unit.radius, s.pos, s.radius).at_most(
                    att.attack_range.plus(reach_slack()),
                ) || way.length().at_most(small_distance()) {
                    None
                } else {
                    Some((s, way))
                }
            },
            None => None,
        }
    }
}

/// A charge after one more tick on the move.
pub open spec fn wound_up<S: Scalar>(charge: Option<Charge<S>>) -> Option<Charge<S>> {
    match charge {
        Some(c) => Some(Charge { progress: c.progress.plus(tick_dt()), ..c }),
        None => None,
    }
}

/// The speed of a unit: under its buffs, and with a ready charge on top.
pub open spec fn pace<S: Scalar>(
    speed: S,
    charge: Option<Charge<S>>,
    status: Option<Seq<BuffModel<S>>>,
) -> S {
    let base = stat_spec(status, speed, StatKind::MoveSpeed);
    match charge {
        Some(c) if c.charged() => base.times(c.speed_mult),
        _ => base,
    }
}

/// How far a unit goes this tick: not past the goal, nor into its target.
pub open spec fn stride<S: Scalar>(a: Actor<S>, target: UnitSnap<S>, dist: S, speed: S) -> S {
    let step = speed.times(tick_dt());
    if steering_goal(a.pos, target.pos, a.flying).same(target.pos) {
        step.least(
            dist.minus((a.attacker->0).attack_range.plus(a.unit.radius).plus(target.radius)).most(
                zero(),
            ),
        )
    } else {
        step.least(dist)
    }
}

/// A charge after a tick in which the unit may not move.
pub open spec fn interrupted<S: Scalar>(charge: Option<Charge<S>>) -> Option<Charge<S>> {
    match charge {
        Some(c) => Some(c.cleared()),
        None => None,
    }
}

/// A unit after its movement in one tick.
pub open spec fn walked<S: Scalar>(
    a: Actor<S>,
    status: Option<Seq<BuffModel<S>>>,
    snaps: Seq<UnitSnap<S>>,
) -> Actor<S> {
    if a.mover.is_none() || a.attacker.is_none() {
        a
    } else if channels_spec(status).cannot_move {
        Actor { charge: interrupted(a.charge), ..a }
    } else {
        match under_way(a, snaps) {
            None => a,
            Some((target, way)) => {
                let charge = wound_up(a.charge);
                let step = stride(a, target, way.length(), pace(a.mover->0, charge, status));
                Actor { charge, pos: a.pos.plus(way.normalized().times(step)), ..a }
            },
        }
    }
}

/// All units after their movement in one tick.
pub open spec fn moving_spec<S: Scalar>(
    units: Seq<Actor<S>>,
    statuses: Seq<Option<Seq<BuffModel<S>>>>,
    snaps: Seq<UnitSnap<S>>,
) -> Seq<Actor<S>> {
    Seq::new(units.len(), |i: int| walked(units[i], statuses[i], snaps))
}

fn walk<S: Scalar>(a: &Actor<S>, buffs: &Option<Buffs<S>>, world: &WorldSnaps<S>) -> (r: Actor<S>)
    requires
        world.wf(),
        buffs matches Some(b) ==> b.wf(),
    ensures
        r == walked(*a, status_model(*buffs), world.snaps@),
{
    match (a.mover, a.attacker) {
        (Some(speed), Some(att)) => {
            if channels_of(buffs).cannot_move {
                let charge: Option<Charge<S>> = match a.charge {
                    Some(c) => Some(c.cleared()),
                    None => None,
                };
                return Actor { charge, ..*a };
            }
            let entity: u64 = match att.target {
                Some(e) => e,
                None => {
                    return *a;
                },
            };
            let target: UnitSnap<S> = match world.get(entity) {
                Some(s) => s,
                None => {
                    return *a;
                },
            };
            if edge_dist(a.pos, a.unit.radius, target.pos, target.radius).at_most(
                att.attack_range.plus(reach_slack()),
            ) {
                return *a;
            }
            let goal: Vec3<S> = steering_goal(a.pos, target.pos, a.flying);
            let way: Vec3<S> = goal.minus(a.pos).flat();
            let dist: S = way.length();
            if dist.at_most(small_distance()) {
                return *a;
            }
            let mut pace: S = stat_of(buffs, speed, StatKind::MoveSpeed);
            let mut charge: Option<Charge<S>> = a.charge;
            if let Some(c) = a.charge {
                let c: Charge<S> = Charge { progress: c.progress.plus(tick_dt()), ..c };
                if c.charged() {
                    pace = pace.times(c.speed_mult);
                }
                charge = Some(c);
            }
            let step: S = pace.times(tick_dt());
            let stop: S = att.attack_range.plus(a.unit.radius).plus(target.radius);
            let step: S = if goal.same(target.pos) {
                step.least(dist.minus(stop).most(zero()))
            } else {
                step.least(dist)
            };
            Actor { charge, pos: a.pos.plus(way.normalized().times(step)), ..*a }
        },
        _ => *a,
    }
}

/// Moves every unit that can move towards its target, if the target is not in reach.
pub fn moving<S: Scalar>(
    units: &mut Vec<Actor<S>>,
    buffs: &Vec<Option<Buffs<S>>>,
    world: &WorldSnaps<S>,
)
    requires
        world.wf(),
        buffs@.len() == old(units)@.len(),
        statuses_wf(buffs@),
    ensures
        final(units)@ == moving_spec(old(units)@, status_models(buffs@), world.snaps@),
{
    let n: usize = units.len();
    let ghost before = units@;
    let ghost st = status_models(buffs@);
    for i in 0..n
        invariant
            n == before.len(),
            n == units@.len(),
            buffs@.len() == n,
            st == status_models(buffs@),
            statuses_wf(buffs@),
            world.wf(),
            forall|j: int| i <= j < n ==> units@[j] == before[j],
            forall|j: int| 0 <= j < i ==> units@[j] == walked(before[j], st[j], world.snaps@),
    {
        assert(buffs@[i as int] matches Some(b) ==> b.wf());
        let a: Actor<S> = units[i];
        units[i] = walk(&a, &buffs[i], world);
    }
    assert(units@ =~= moving_spec(before, st, world.snaps@));
}

/// A unit that may not move stays where it is, and its charge is lost.
pub proof fn held_units_stay<S: Scalar>(
    a: Actor<S>,
    status: Option<Seq<BuffModel<S>>>,
    snaps: Seq<UnitSnap<S>>,
)
    requires
        channels_spec(status).cannot_move,
    ensures
        walked(a, status, snaps).pos == a.pos,
        a.mover.is_some() && a.attacker.is_some() && a.charge.is_some() ==> walked(
            a,
            status,
            snaps,
        ).charge == Some((a.charge->0).cleared()),
{
}

/// Flyers head straight for their target, and so does everyone on the target's side.
pub proof fn straight_ways<S: Scalar>(pos: Vec3<S>, target: Vec3<S>)
    ensures
        steering_goal(pos, target, true) == target,
        pos.z.sign().same(target.z.sign()) ==> steering_goal(pos, target, false) == target,
{
}

} // verus!
