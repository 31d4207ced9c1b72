//! How units come onto the field.

use vstd::prelude::*;

use crate::buffs::{status_models, statuses_wf, BuffModel, Buffs};
use crate::components::{
    Actor, Attacker, Charge, Deploying, Faction, Health, Spawner, TargetPolicy, Unit,
};
use crate::constants::{
    attack_interval, building_radius, card, card_spec, fly_height, tick_dt, tower_attack_damage,
    BuildingSpec, CardKind, ChargeSpec, MonsterSpec, TowerSpec,
};
use crate::scalar::{hundredths, whole, zero, Scalar};
use crate::vector::Vec3;
use crate::world::ghosts_wf;

verus! {

/// A charge at its start.
#[verifier::allow_in_spec]
pub fn idle_charge<S: Scalar>(c: ChargeSpec<S>) -> Charge<S>
    returns
        (Charge {
            progress: zero::<S>(),
            windup: c.windup_secs,
            speed_mult: c.speed_mult,
            damage_mult: c.damage_mult,
        }),
{
    Charge {
        progress: zero(),
        windup: c.windup_secs,
        speed_mult: c.speed_mult,
        damage_mult: c.damage_mult,
    }
}

/// A troop as it lands.
pub open spec fn troop_spec<S: Scalar>(
    entity: u64,
    faction: Faction,
    card: u8,
    spec: MonsterSpec<S>,
    pos: Vec3<S>,
) -> Actor<S> {
    Actor {
        entity,
        unit: Unit::troop(faction, card, spec.radius, spec.mass),
        pos: pos.raised(
            whole::<S>(2).times(spec.radius).plus(if spec.flying { fly_height() } else { zero() }),
        ),
        health: Health::new(spec.hp),
        attacker: Some(
            Attacker {
                damage: spec.damage,
                attack_range: spec.attack_range,
                interval: spec.attack_interval,
                cooldown: spec.attack_interval,
                splash_radius: spec.splash_radius,
                hits_air: spec.hits_air,
                ranged: spec.ranged,
                target: None,
                engaged: false,
            },
        ),
        targeting: Some(
            TargetPolicy::Seek { aggro_range: spec.aggro_range, building_only: spec.building_only },
        ),
        mover: Some(spec.speed),
        charge: match spec.charge {
            Some(c) => Some(idle_charge(c)),
            None => None,
        },
        flying: spec.flying,
        king: false,
        lifetime: None,
        spawner: None,
    }
}

/// A troop as it lands.
pub fn troop<S: Scalar>(entity: u64, faction: Faction, card: u8, spec: &MonsterSpec<S>, pos: Vec3<S>) -> (r:
    Actor<S>)
    ensures
        r == troop_spec(entity, faction, card, *spec, pos),
{
    let lift: S = if spec.flying { fly_height() } else { zero() };
    Actor {
        entity,
        unit: Unit::troop(faction, card, spec.radius, spec.mass),
        pos: pos.raised(whole::<S>(2).times(spec.radius).plus(lift)),
        health: Health::new(spec.hp),
        attacker: Some(
            Attacker {
                damage: spec.damage,
                attack_range: spec.attack_range,
                interval: spec.attack_interval,
                cooldown: spec.attack_interval,
                splash_radius: spec.splash_radius,
                hits_air: spec.hits_air,
                ranged: spec.ranged,
                target: None,
                engaged: false,
            },
        ),
        targeting: Some(
            TargetPolicy::Seek { aggro_range: spec.aggro_range, building_only: spec.building_only },
        ),
        mover: Some(spec.speed),
        charge: match spec.charge {
            Some(c) => Some(idle_charge(c)),
            None => None,
        },
        flying: spec.flying,
        king: false,
        lifetime: None,
        spawner: None,
    }
}

/// A building as it is put up: its gun is ready at once, its first troop takes a full interval.
pub open spec fn building_spec<S: Scalar>(
    entity: u64,
    faction: Faction,
    card: u8,
    spec: BuildingSpec<S>,
    pos: Vec3<S>,
) -> Actor<S> {
    Actor {
        entity,
        unit: Unit::building(faction, card, building_radius()),
        pos: pos.raised(hundredths(70)),
        health: Health::new(spec.hp),
        attacker: match spec.attack {
            Some(a) => Some(
                Attacker {
                    damage: a.damage,
                    attack_range: a.range,
                    interval: a.interval,
                    cooldown: zero(),
                    splash_radius: zero(),
                    hits_air: a.hits_air,
                    ranged: true,
                    target: None,
                    engaged: false,
                },
            ),
            None => None,
        },
        targeting: Some(TargetPolicy::Guard),
        mover: None,
        charge: None,
        flying: false,
        king: false,
        lifetime: Some(spec.lifetime_secs),
        spawner: match spec.spawner {
            Some(s) => Some(
                Spawner { interval: s.interval_secs, card_id: s.card_id, cooldown: s.interval_secs },
            ),
            None => None,
        },
    }
}

/// A building as it is put up.
pub fn building<S: Scalar>(entity: u64, faction: Faction, card: u8, spec: &BuildingSpec<S>, pos: Vec3<S>) -> (r:
    Actor<S>)
    ensures
        r == building_spec(entity, faction, card, *spec, pos),
{
    Actor {
        entity,
        unit: Unit::building(faction, card, building_radius()),
        pos: pos.raised(hundredths(70)),
        health: Health::new(spec.hp),
        attacker: match spec.attack {
            Some(a) => Some(
                Attacker {
                    damage: a.damage,
                    attack_range: a.range,
                    interval: a.interval,
                    cooldown: zero(),
                    splash_radius: zero(),
                    hits_air: a.hits_air,
                    ranged: true,
                    target: None,
                    engaged: false,
                },
            ),
            None => None,
        },
        targeting: Some(TargetPolicy::Guard),
        mover: None,
        charge: None,
        flying: false,
        king: false,
        lifetime: Some(spec.lifetime_secs),
        spawner: match spec.spawner {
            Some(s) => Some(
                Spawner { interval: s.interval_secs, card_id: s.card_id, cooldown: s.interval_secs },
            ),
            None => None,
        },
    }
}

/// The units with their buffs, and the name of the next one.
pub ghost struct Ranks<S> {
    pub units: Seq<Actor<S>>,
    pub statuses: Seq<Option<Seq<BuffModel<S>>>>,
    pub next_entity: u64,
}

/// The units with one more at the end.
pub open spec fn joined<S: Scalar>(r: Ranks<S>, a: Actor<S>) -> Ranks<S> {
    Ranks {
        units: r.units.push(a),
        statuses: r.statuses.push(None),
        next_entity: r.next_entity.wrapping_add(1),
    }
}

/// The units after a troop or a building of a card has come; spells bring none.
pub open spec fn arrived<S: Scalar>(r: Ranks<S>, faction: Faction, card_id: u8, pos: Vec3<S>) -> Ranks<S> {
    match card_spec::<S>(card_id) {
        Some(spec) => match spec.kind {
            CardKind::Troop(m) => joined(r, troop_spec(r.next_entity, faction, card_id, m, pos)),
            CardKind::Building(b) => joined(r, building_spec(r.next_entity, faction, card_id, b, pos)),
            CardKind::Spell(_) => r,
        },
        None => r,
    }
}

/// Adds a unit without buffs.
pub fn enlist<S: Scalar>(
    units: &mut Vec<Actor<S>>,
    buffs: &mut Vec<Option<Buffs<S>>>,
    next_entity: &mut u64,
    a: Actor<S>,
)
    requires
        old(units)@.len() == old(buffs)@.len(),
        statuses_wf(old(buffs)@),
    ensures
        (Ranks {
            units: final(units)@,
            statuses: status_models(final(buffs)@),
            next_entity: *final(next_entity),
        }) == joined(
            Ranks {
                units: old(units)@,
                statuses: status_models(old(buffs)@),
                next_entity: *old(next_entity),
            },
            a,
        ),
        final(units)@.len() == final(buffs)@.len(),
        statuses_wf(final(buffs)@),
{
    units.push(a);
    buffs.push(None);
    *next_entity = next_entity.wrapping_add(1);
    assert(status_models(buffs@) =~= status_models(old(buffs)@).push(None));
    assert forall|i: int| 0 <= i < buffs@.len() implies ((#[trigger] buffs@[i]) matches Some(b)
        ==> b.wf()) by {
        if i < old(buffs)@.len() {
            assert(buffs@[i] == old(buffs)@[i]);
        }
    }
}

/// Puts a troop of a card on the field.
pub fn spawn_unit<S: Scalar>(
    units: &mut Vec<Actor<S>>,
    buffs: &mut Vec<Option<Buffs<S>>>,
    next_entity: &mut u64,
    faction: Faction,
    card: u8,
    spec: &MonsterSpec<S>,
    pos: Vec3<S>,
)
    requires
        old(units)@.len() == old(buffs)@.len(),
        statuses_wf(old(buffs)@),
    ensures
        (Ranks {
            units: final(units)@,
            statuses: status_models(final(buffs)@),
            next_entity: *final(next_entity),
        }) == joined(
            Ranks {
                units: old(units)@,
                statuses: status_models(old(buffs)@),
                next_entity: *old(next_entity),
            },
            troop_spec(*old(next_entity), faction, card, *spec, pos),
        ),
        final(units)@.len() == final(buffs)@.len(),
        statuses_wf(final(buffs)@),
{
    let a: Actor<S> = troop(*next_entity, faction, card, spec, pos);
    enlist(units, buffs, next_entity, a);
}

/// Puts a building of a card on the field.
pub fn spawn_building<S: Scalar>(
    units: &mut Vec<Actor<S>>,
    buffs: &mut Vec<Option<Buffs<S>>>,
    next_entity: &mut u64,
    faction: Faction,
    card: u8,
    spec: &BuildingSpec<S>,
    pos: Vec3<S>,
)
    requires
        old(units)@.len() == old(buffs)@.len(),
        statuses_wf(old(buffs)@),
    ensures
        (Ranks {
            units: final(units)@,
            statuses: status_models(final(buffs)@),
            next_entity: *final(next_entity),
        }) == joined(
            Ranks {
                units: old(units)@,
                statuses: status_models(old(buffs)@),
                next_entity: *old(next_entity),
            },
            building_spec(*old(next_entity), faction, card, *spec, pos),
        ),
        final(units)@.len() == final(buffs)@.len(),
        statuses_wf(final(buffs)@),
{
    let a: Actor<S> = building(*next_entity, faction, card, spec, pos);
    enlist(units, buffs, next_entity, a);
}

/// A card on its way one tick later; none when it has arrived.
#[verifier::allow_in_spec]
pub fn nearer_arrival<S: Scalar>(g: Deploying<S>) -> Option<Deploying<S>>
    requires
        g.ticks_left >= 1,
    returns
        (if g.ticks_left == 1 {
            None
        } else {
            Some(Deploying { ticks_left: (g.ticks_left - 1) as u32, ..g })
        }),
{
    if g.ticks_left == 1 {
        None
    } else {
        Some(Deploying { ticks_left: g.ticks_left - 1, ..g })
    }
}

/// The cards that are still on their way one tick later.
pub open spec fn waiting<S: Scalar>(ghosts: Seq<Deploying<S>>) -> Seq<Deploying<S>>
    decreases ghosts.len(),
{
    if ghosts.len() == 0 {
        Seq::empty()
    } else {
        let rest = waiting(ghosts.drop_last());
        match nearer_arrival(ghosts.last()) {
            Some(g) => rest.push(g),
            None => rest,
        }
    }
}

/// The units after the cards whose time has come have arrived, in order.
pub open spec fn landed<S: Scalar>(r: Ranks<S>, ghosts: Seq<Deploying<S>>) -> Ranks<S>
    decreases ghosts.len(),
{
    if ghosts.len() == 0 {
        r
    } else {
        let before = landed(r, ghosts.drop_last());
        let g = ghosts.last();
        if nearer_arrival(g).is_none() {
            arrived(before, g.faction, g.card, g.pos.flat())
        } else {
            before
        }
    }
}

/// Counts every card on its way down; those whose time has come arrive.
pub fn process_deploying<S: Scalar>(
    units: &mut Vec<Actor<S>>,
    buffs: &mut Vec<Option<Buffs<S>>>,
    next_entity: &mut u64,
    ghosts: &mut Vec<Deploying<S>>,
)
    requires
        old(units)@.len() == old(buffs)@.len(),
        statuses_wf(old(buffs)@),
        ghosts_wf(old(ghosts)@),
    ensures
        (Ranks {
            units: final(units)@,
            statuses: status_models(final(buffs)@),
            next_entity: *final(next_entity),
        }) == landed(
            Ranks {
                units: old(units)@,
                statuses: status_models(old(buffs)@),
                next_entity: *old(next_entity),
            },
            old(ghosts)@,
        ),
        final(ghosts)@ == waiting(old(ghosts)@),
        final(units)@.len() == final(buffs)@.len(),
        statuses_wf(final(buffs)@),
        ghosts_wf(final(ghosts)@),
{
    let n: usize = ghosts.len();
    let ghost all = ghosts@;
    let ghost start = Ranks {
        units: units@,
        statuses: status_models(buffs@),
        next_entity: *next_entity,
    };
    let mut kept: Vec<Deploying<S>> = Vec::new();
    assert(all.take(0) =~= Seq::<Deploying<S>>::empty());
    for i in 0..n
        invariant
            n == all.len(),
            ghosts@ == all,
            ghosts_wf(all),
            ghosts_wf(kept@),
            units@.len() == buffs@.len(),
            statuses_wf(buffs@),
            kept@ == waiting(all.take(i as int)),
            (Ranks { units: units@, statuses: status_models(buffs@), next_entity: *next_entity })
                == landed(start, all.take(i as int)),
    {
        assert(all.take(i + 1).drop_last() =~= all.take(i as int));
        let g: Deploying<S> = ghosts[i];
        assert(all[i as int].ticks_left >= 1);
        match nearer_arrival(g) {
            Some(later) => {
                kept.push(later);
            },
            None => {
                let ground: Vec3<S> = g.pos.flat();
                if let Some(spec) = card::<S>(g.card) {
                    match spec.kind {
                        CardKind::Troop(m) => {
                            spawn_unit(units, buffs, next_entity, g.faction, g.card, &m, ground);
                        },
                        CardKind::Building(b) => {
                            spawn_building(units, buffs, next_entity, g.faction, g.card, &b, ground);
                        },
                        CardKind::Spell(_) => {},
                    }
                }
            },
        }
    }
    assert(all.take(n as int) =~= all);
    *ghosts = kept;
}

/// A spawner one tick later, and whether it sends a troop out now.
#[verifier::allow_in_spec]
pub fn churned<S: Scalar>(s: Spawner<S>) -> (Spawner<S>, bool)
    returns
        (if zero::<S>().less(s.cooldown.minus(tick_dt())) {
            (Spawner { cooldown: s.cooldown.minus(tick_dt()), ..s }, false)
        } else {
            (Spawner { cooldown: s.interval, ..s }, true)
        }),
{
    let cooldown: S = s.cooldown.minus(tick_dt());
    if zero::<S>().less(cooldown) {
        (Spawner { cooldown, ..s }, false)
    } else {
        (Spawner { cooldown: s.interval, ..s }, true)
    }
}

/// A unit whose spawner has run for one tick.
pub open spec fn churned_unit<S: Scalar>(a: Actor<S>) -> Actor<S> {
    match a.spawner {
        Some(s) => Actor { spawner: Some(churned(s).0), ..a },
        None => a,
    }
}

/// The units after the spawners of the first `n` have run, in order: the troops of troop cards
/// appear where their building stands.
pub open spec fn spawned_upto<S: Scalar>(r: Ranks<S>, n: int) -> Ranks<S>
    decreases n,
{
    if n <= 0 {
        r
    } else {
        let before = spawned_upto(r, n - 1);
        let a = before.units[n - 1];
        let ran = Ranks { units: before.units.update(n - 1, churned_unit(a)), ..before };
        match a.spawner {
            Some(s) if churned(s).1 => match card_spec::<S>(s.card_id) {
                Some(spec) => match spec.kind {
                    CardKind::Troop(m) => joined(
                        ran,
                        troop_spec(ran.next_entity, a.unit.faction, s.card_id, m, a.pos.flat()),
                    ),
                    _ => ran,
                },
                None => ran,
            },
            _ => ran,
        }
    }
}

/// The units after all spawners have run.
pub open spec fn spawned<S: Scalar>(r: Ranks<S>) -> Ranks<S> {
    spawned_upto(r, r.units.len() as int)
}

/// Runs every spawner for one tick.
pub fn building_spawner<S: Scalar>(
    units: &mut Vec<Actor<S>>,
    buffs: &mut Vec<Option<Buffs<S>>>,
    next_entity: &mut u64,
)
    requires
        old(units)@.len() == old(buffs)@.len(),
        statuses_wf(old(buffs)@),
    ensures
        (Ranks {
            units: final(units)@,
            statuses: status_models(final(buffs)@),
            next_entity: *final(next_entity),
        }) == spawned(
            Ranks {
                units: old(units)@,
                statuses: status_models(old(buffs)@),
                next_entity: *old(next_entity),
            },
        ),
        final(units)@.len() == final(buffs)@.len(),
        statuses_wf(final(buffs)@),
{
    let n: usize = units.len();
    let ghost start = Ranks {
        units: units@,
        statuses: status_models(buffs@),
        next_entity: *next_entity,
    };
    for i in 0..n
        invariant
            n == start.units.len(),
            n <= units@.len(),
            units@.len() == buffs@.len(),
            statuses_wf(buffs@),
            (Ranks { units: units@, statuses: status_models(buffs@), next_entity: *next_entity })
                == spawned_upto(start, i as int),
    {
        let a: Actor<S> = units[i];
        let ghost before = units@;
        if let Some(s) = a.spawner {
            let (ran, due): (Spawner<S>, bool) = churned(s);
            units[i] = Actor { spawner: Some(ran), ..a };
            assert(units@ =~= before.update(i as int, churned_unit(a)));
            if due {
                if let Some(spec) = card::<S>(s.card_id) {
                    if let CardKind::Troop(m) = spec.kind {
                        spawn_unit(
                            units,
                            buffs,
                            next_entity,
                            a.unit.faction,
                            s.card_id,
                            &m,
                            a.pos.flat(),
                        );
                    }
                }
            }
        } else {
            assert(units@ =~= before.update(i as int, churned_unit(a)));
        }
    }
}

/// A tower as the match starts.
pub open spec fn tower_spec<S: Scalar>(entity: u64, faction: Faction, spec: TowerSpec<S>, pos: Vec3<S>) -> Actor<
    S,
> {
    Actor {
        entity,
        unit: Unit::tower(faction, spec.body_radius),
        pos,
        health: Health::new(spec.hp),
        attacker: Some(
            Attacker {
                damage: tower_attack_damage(),
                attack_range: spec.attack_range,
                interval: attack_interval(),
                cooldown: attack_interval(),
                splash_radius: zero(),
                hits_air: true,
                ranged: true,
                target: None,
                engaged: false,
            },
        ),
        targeting: Some(TargetPolicy::Guard),
        mover: None,
        charge: None,
        flying: false,
        king: spec.is_king,
        lifetime: None,
        spawner: None,
    }
}

/// A tower as the match starts.
pub fn tower<S: Scalar>(entity: u64, faction: Faction, spec: &TowerSpec<S>, pos: Vec3<S>) -> (r: Actor<S>)
    ensures
        r == tower_spec(entity, faction, *spec, pos),
{
    Actor {
        entity,
        unit: Unit::tower(faction, spec.body_radius),
        pos,
        health: Health::new(spec.hp),
        attacker: Some(
            Attacker {
                damage: tower_attack_damage(),
                attack_range: spec.attack_range,
                interval: attack_interval(),
                cooldown: attack_interval(),
                splash_radius: zero(),
                hits_air: true,
                ranged: true,
                target: None,
                engaged: false,
            },
        ),
        targeting: Some(TargetPolicy::Guard),
        mover: None,
        charge: None,
        flying: false,
        king: spec.is_king,
        lifetime: None,
        spawner: None,
    }
}

} // verus!
