//! Shots: they follow their target, hurt it, and with it what stands around it if they splash.
//! A shot whose target is gone vanishes.

use vstd::prelude::*;

use super::attack::{find_unit, hurt_entity, hurt_only_hurts, only_hurt, position, Blast, Fray};
use super::targeting::snap_of;
use crate::components::{Actor, Projectile, UnitKind};
use crate::constants::{projectile_speed, tick_dt};
use crate::scalar::{hundredths, zero, Scalar};
use crate::vector::Vec3;

verus! {

/// A unit after a burst: towers are not splashed.
#[verifier::allow_in_spec]
pub fn burst_one<S: Scalar>(a: Actor<S>, blast: &Blast<S>) -> Actor<S>
    returns
        (if a.unit.kind != UnitKind::Tower && blast.reaches(&snap_of(&a)) {
            a.hurt(blast.damage)
        } else {
            a
        }),
{
    if a.unit.kind != UnitKind::Tower && blast.reaches(&snap_of(&a)) {
        a.hurt(blast.damage)
    } else {
        a
    }
}

/// The units after a burst.
pub open spec fn burst_spec<S: Scalar>(units: Seq<Actor<S>>, blast: Blast<S>) -> Seq<Actor<S>> {
    units.map_values(|a: Actor<S>| burst_one(a, &blast))
}

fn burst<S: Scalar>(units: &mut Vec<Actor<S>>, blast: &Blast<S>)
    ensures
        final(units)@ == burst_spec(old(units)@, *blast),
{
    let n: usize = units.len();
    let ghost before = units@;
    for i in 0..n
        invariant
            n == before.len(),
            n == units@.len(),
            forall|j: int| i <= j < n ==> units@[j] == before[j],
            forall|j: int| 0 <= j < i ==> units@[j] == burst_one(before[j], blast),
    {
        let a: Actor<S> = units[i];
        units[i] = burst_one(a, blast);
    }
    assert(units@ =~= burst_spec(before, *blast));
}

/// Whether a shot reaches a target within this tick.
#[verifier::allow_in_spec]
pub fn strikes<S: Scalar>(shot: &Projectile<S>, target: &Actor<S>) -> bool
    returns
        target.pos.minus(shot.pos).length().at_most(
            projectile_speed::<S>().times(tick_dt()).plus(target.unit.radius.times(hundredths(50))),
        ),
{
    target.pos.minus(shot.pos).length().at_most(
        projectile_speed::<S>().times(tick_dt()).plus(target.unit.radius.times(hundredths(50))),
    )
}

/// A shot one tick nearer to its target.
#[verifier::allow_in_spec]
pub fn advanced<S: Scalar>(shot: Projectile<S>, target: Vec3<S>) -> Projectile<S>
    returns
        (Projectile {
            pos: shot.pos.plus(
                target.minus(shot.pos).normalized().times(projectile_speed::<S>().times(tick_dt())),
            ),
            ..shot
        }),
{
    Projectile {
        pos: shot.pos.plus(
            target.minus(shot.pos).normalized().times(projectile_speed::<S>().times(tick_dt())),
        ),
        ..shot
    }
}

/// The damage of a shot around the unit that it hit.
#[verifier::allow_in_spec]
pub fn shell<S: Scalar>(shot: &Projectile<S>, center: Vec3<S>) -> Blast<S>
    returns
        (Blast {
            attacker: shot.attacker,
            spared: shot.target,
            hits_air: shot.hits_air,
            center,
            radius: shot.splash_radius,
            damage: shot.damage,
        }),
{
    Blast {
        attacker: shot.attacker,
        spared: shot.target,
        hits_air: shot.hits_air,
        center,
        radius: shot.splash_radius,
        damage: shot.damage,
    }
}

/// The units after a hit.
pub open spec fn impact<S: Scalar>(units: Seq<Actor<S>>, shot: Projectile<S>, center: Vec3<S>) -> Seq<Actor<S>> {
    let struck = hurt_entity(units, shot.target, shot.damage);
    if zero::<S>().less(shot.splash_radius) { burst_spec(struck, shell(&shot, center)) } else { struck }
}

/// One tick of one shot; the shots in `f` are those still on their way.
pub open spec fn fly<S: Scalar>(f: Fray<S>, shot: Projectile<S>) -> Fray<S> {
    match position(f.units, shot.target) {
        None => f,
        Some(k) => {
            let target = f.units[k];
            if strikes(&shot, &target) {
                Fray { units: impact(f.units, shot, target.pos), ..f }
            } else {
                Fray { shots: f.shots.push(advanced(shot, target.pos)), ..f }
            }
        },
    }
}

/// One tick of all shots, in order.
pub open spec fn move_projectiles_spec<S: Scalar>(units: Seq<Actor<S>>, shots: Seq<Projectile<S>>) -> Fray<S>
    decreases shots.len(),
{
    if shots.len() == 0 {
        Fray { units, shots: Seq::empty() }
    } else {
        fly(move_projectiles_spec(units, shots.drop_last()), shots.last())
    }
}

/// Moves every shot; those that hit or whose target is gone are removed.
pub fn move_projectiles<S: Scalar>(units: &mut Vec<Actor<S>>, shots: &mut Vec<Projectile<S>>)
    ensures
        (Fray { units: final(units)@, shots: final(shots)@ }) == move_projectiles_spec(
            old(units)@,
            old(shots)@,
        ),
        final(units)@.len() == old(units)@.len(),
{
    let n: usize = shots.len();
    let ghost all = shots@;
    let mut kept: Vec<Projectile<S>> = Vec::new();
    assert(all.take(0) =~= Seq::<Projectile<S>>::empty());
    for i in 0..n
        invariant
            n == all.len(),
            shots@ == all,
            units@.len() == old(units)@.len(),
            (Fray { units: units@, shots: kept@ }) == move_projectiles_spec(
                old(units)@,
                all.take(i as int),
            ),
    {
        assert(all.take(i + 1).drop_last() =~= all.take(i as int));
        let shot: Projectile<S> = shots[i];
        match find_unit(units, shot.target) {
            None => {},
            Some(k) => {
                let target: Actor<S> = units[k];
                if strikes(&shot, &target) {
                    let a: Actor<S> = units[k];
                    units[k] = a.hurt(shot.damage);
                    if zero::<S>().less(shot.splash_radius) {
                        burst(units, &shell(&shot, target.pos));
                    }
                } else {
                    kept.push(advanced(shot, target.pos));
                }
            },
        }
    }
    assert(all.take(n as int) =~= all);
    *shots = kept;
}

/// Shots change nothing of units but their health, and no shot comes from nowhere.
pub proof fn shots_only_hurt<S: Scalar>(units: Seq<Actor<S>>, shots: Seq<Projectile<S>>)
    ensures
        only_hurt(units, move_projectiles_spec(units, shots).units),
        move_projectiles_spec(units, shots).shots.len() <= shots.len(),
    decreases shots.len(),
{
    if shots.len() > 0 {
        shots_only_hurt(units, shots.drop_last());
        let f = move_projectiles_spec(units, shots.drop_last());
        let shot = shots.last();
        hurt_only_hurts(f.units, shot.target, shot.damage);
        if let Some(k) = position(f.units, shot.target) {
            let center = f.units[k].pos;
            let struck = hurt_entity(f.units, shot.target, shot.damage);
            assert(only_hurt(struck, burst_spec(struck, shell(&shot, center))));
        }
    }
}

} // verus!
