//! Attacks: one set of rules for troops, towers and buildings.
//!
//! Strikers hurt their target at once, and with it what stands around themselves if they
//! splash. Shooters send a projectile. A ready charge multiplies one attack and is spent. The
//! cooldown runs only while the target is in reach, faster under rage.

use vstd::prelude::*;

use super::grid::in_circle_spec;
use super::targeting::{grid_of, lookup, WorldSnaps};
use super::{edge_dist, UnitSnap};
use crate::buffs::{
    channels_of, channels_spec, stat_of, stat_spec, status_model, status_models, statuses_wf,
    BuffModel, Buffs,
};
use crate::components::{Actor, Attacker, Charge, Faction, Health, Projectile, StatKind, UnitKind};
use crate::constants::{monster_radius_max, reach_slack, tick_dt, CELLS};
use crate::scalar::{hundredths, one, zero, Scalar};
use crate::vector::Vec3;

verus! {

/// The place of the first unit with this entity, counted from `from`.
pub open spec fn position_from<S: Scalar>(units: Seq<Actor<S>>, entity: u64, from: int) -> Option<int>
    decreases units.len() - from,
{
    if from >= units.len() {
        None
    } else if units[from].entity == entity {
        Some(from)
    } else {
        position_from(units, entity, from + 1)
    }
}

/// The place of the unit with this entity.
pub open spec fn position<S: Scalar>(units: Seq<Actor<S>>, entity: u64) -> Option<int> {
    position_from(units, entity, 0)
}

/// What `position` finds is there, and nothing before it has that entity.
pub proof fn lemma_position_from<S: Scalar>(units: Seq<Actor<S>>, entity: u64, from: int)
    requires
        0 <= from,
    ensures
        position_from(units, entity, from) matches Some(k) ==> from <= k < units.len()
            && units[k].entity == entity,
        position_from(units, entity, from).is_none() ==> forall|k: int|
            from <= k < units.len() ==> (#[trigger] units[k]).entity != entity,
    decreases units.len() - from,
{
    if from < units.len() && units[from].entity != entity {
        lemma_position_from(units, entity, from + 1);
    }
}

/// The place of the unit with this entity.
pub fn find_unit<S: Scalar>(units: &Vec<Actor<S>>, entity: u64) -> (r: Option<usize>)
    ensures
        match r {
            Some(k) => position(units@, entity) == Some(k as int) && k < units@.len()
                && units@[k as int].entity == entity,
            None => position(units@, entity).is_none(),
        },
{
    let n: usize = units.len();
    let mut i: usize = 0;
    while i < n
        invariant
            n == units@.len(),
            i <= n,
            position(units@, entity) == position_from(units@, entity, i as int),
        decreases n - i,
    {
        if units[i].entity == entity {
            return Some(i);
        }
        i += 1;
    }
    None
}

/// The units after a blow to one of them.
pub open spec fn hurt_entity<S: Scalar>(units: Seq<Actor<S>>, entity: u64, damage: S) -> Seq<Actor<S>> {
    match position(units, entity) {
        Some(k) => units.update(k, units[k].hurt(damage)),
        None => units,
    }
}

/// Takes `damage` from the unit with this entity, if it is there.
pub fn hurt_unit<S: Scalar>(units: &mut Vec<Actor<S>>, entity: u64, damage: S)
    ensures
        final(units)@ == hurt_entity(old(units)@, entity, damage),
{
    match find_unit(units, entity) {
        Some(k) => {
            let a: Actor<S> = units[k];
            units[k] = a.hurt(damage);
        },
        None => {},
    }
}

/// Damage to all enemies around a point but the one that was hit already.
#[derive(Clone, Copy, Debug)]
pub struct Blast<S> {
    pub attacker: Faction,
    pub spared: u64,
    pub hits_air: bool,
    pub center: Vec3<S>,
    pub radius: S,
    pub damage: S,
}

impl<S: Scalar> Blast<S> {
    /// Whether it reaches a unit: an enemy whose disc it touches, flyers only if it hits air.
    #[verifier::allow_in_spec]
    pub fn reaches(&self, s: &UnitSnap<S>) -> bool
        returns
            (s.faction != self.attacker && s.entity != self.spared && (s.flying ==> self.hits_air)
                && s.pos.ground_distance(self.center).at_most(self.radius.plus(s.radius))),
    {
        if s.faction == self.attacker || s.entity == self.spared {
            return false;
        }
        if s.flying && !self.hits_air {
            return false;
        }
        s.pos.ground_distance(self.center).at_most(self.radius.plus(s.radius))
    }
}

/// The units after a blast, as far as it concerns one unit of the picture.
pub open spec fn blast_one<S: Scalar>(units: Seq<Actor<S>>, blast: Blast<S>, s: UnitSnap<S>) -> Seq<Actor<S>> {
    if blast.reaches(&s) { hurt_entity(units, s.entity, blast.damage) } else { units }
}

/// The units after a blast, as far as it concerns the listed places of the picture.
pub open spec fn blast_listed<S: Scalar>(
    units: Seq<Actor<S>>,
    blast: Blast<S>,
    snaps: Seq<UnitSnap<S>>,
    list: Seq<u32>,
) -> Seq<Actor<S>>
    decreases list.len(),
{
    if list.len() == 0 {
        units
    } else {
        blast_one(
            blast_listed(units, blast, snaps, list.drop_last()),
            blast,
            snaps[list.last() as int],
        )
    }
}

/// The units after a blast, as far as it concerns the structures of the picture.
pub open spec fn blast_fixtures<S: Scalar>(
    units: Seq<Actor<S>>,
    blast: Blast<S>,
    snaps: Seq<UnitSnap<S>>,
) -> Seq<Actor<S>>
    decreases snaps.len(),
{
    if snaps.len() == 0 {
        units
    } else {
        let before = blast_fixtures(units, blast, snaps.drop_last());
        if snaps.last().is_building_kind() {
            blast_one(before, blast, snaps.last())
        } else {
            before
        }
    }
}

/// The units after a blast: first troops, cell by cell, then structures.
pub open spec fn blasted<S: Scalar>(
    units: Seq<Actor<S>>,
    blast: Blast<S>,
    snaps: Seq<UnitSnap<S>>,
) -> Seq<Actor<S>> {
    let near = in_circle_spec(
        grid_of(snaps),
        blast.center,
        blast.radius.plus(monster_radius_max()),
    );
    blast_fixtures(blast_listed(units, blast, snaps, near), blast, snaps)
}

proof fn lemma_gather_row_below(grid: Seq<Seq<u32>>, n: int, z: int, lo: int, hi: int)
    requires
        super::grid::entries_below(grid, n),
        grid.len() == CELLS,
        0 <= z < 24,
        0 <= lo,
        hi <= 16,
    ensures
        forall|k: int|
            0 <= k < super::grid::gather_row(grid, z, lo, hi).len()
                ==> (#[trigger] super::grid::gather_row(grid, z, lo, hi)[k]) < n,
    decreases hi - lo,
{
    if lo < hi {
        lemma_gather_row_below(grid, n, z, lo, hi - 1);
        let before = super::grid::gather_row(grid, z, lo, hi - 1);
        let c = z * 16 + hi - 1;
        assert forall|k: int| 0 <= k < super::grid::gather_row(grid, z, lo, hi).len() implies (
        #[trigger] super::grid::gather_row(grid, z, lo, hi)[k]) < n by {
            if k < before.len() {
                assert(before[k] < n);
            } else {
                assert(grid[c][k - before.len()] < n);
            }
        }
    }
}

proof fn lemma_gather_below(grid: Seq<Seq<u32>>, n: int, z_lo: int, z_hi: int, lo: int, hi: int)
    requires
        super::grid::entries_below(grid, n),
        grid.len() == CELLS,
        0 <= z_lo,
        z_hi <= 24,
        0 <= lo,
        hi <= 16,
    ensures
        forall|k: int|
            0 <= k < super::grid::gather(grid, z_lo, z_hi, lo, hi).len()
                ==> (#[trigger] super::grid::gather(grid, z_lo, z_hi, lo, hi)[k]) < n,
    decreases z_hi - z_lo,
{
    if z_lo < z_hi {
        lemma_gather_below(grid, n, z_lo, z_hi - 1, lo, hi);
        lemma_gather_row_below(grid, n, z_hi - 1, lo, hi);
        let before = super::grid::gather(grid, z_lo, z_hi - 1, lo, hi);
        let last = super::grid::gather_row(grid, z_hi - 1, lo, hi);
        assert forall|k: int| 0 <= k < super::grid::gather(grid, z_lo, z_hi, lo, hi).len() implies (
        #[trigger] super::grid::gather(grid, z_lo, z_hi, lo, hi)[k]) < n by {
            if k < before.len() {
                assert(before[k] < n);
            } else {
                assert(last[k - before.len()] < n);
            }
        }
    }
}

/// What a circle query lists are places of the picture.
pub proof fn lemma_circle_below<S: Scalar>(grid: Seq<Seq<u32>>, n: int, pos: Vec3<S>, radius: S)
    requires
        super::grid::entries_below(grid, n),
        grid.len() == CELLS,
    ensures
        forall|k: int|
            0 <= k < in_circle_spec(grid, pos, radius).len() ==> (#[trigger] in_circle_spec(
                grid,
                pos,
                radius,
            )[k]) < n,
{
    let r = super::grid::reach(radius);
    let (cx, cz) = (super::grid::column(pos.x), super::grid::row(pos.z));
    lemma_gather_below(
        grid,
        n,
        super::grid::low(cz, r),
        super::grid::high(cz, r, 24) + 1,
        super::grid::low(cx, r),
        super::grid::high(cx, r, 16) + 1,
    );
}

fn detonate<S: Scalar>(units: &mut Vec<Actor<S>>, blast: &Blast<S>, world: &WorldSnaps<S>)
    requires
        world.wf(),
    ensures
        final(units)@ == blasted(old(units)@, *blast, world.snaps@),
{
    let radius: S = blast.radius.plus(monster_radius_max());
    let near: Vec<u32> = world.grid.in_circle(blast.center, radius);
    proof {
        lemma_circle_below(world.grid@, world.snaps@.len() as int, blast.center, radius);
    }
    let n: usize = near.len();
    assert(near@.take(0) =~= Seq::<u32>::empty());
    for k in 0..n
        invariant
            n == near@.len(),
            forall|k: int| 0 <= k < near@.len() ==> (#[trigger] near@[k]) < world.snaps@.len(),
            units@ == blast_listed(old(units)@, *blast, world.snaps@, near@.take(k as int)),
    {
        let s: UnitSnap<S> = world.snaps[near[k] as usize];
        assert(near@.take(k + 1).drop_last() =~= near@.take(k as int));
        if blast.reaches(&s) {
            hurt_unit(units, s.entity, blast.damage);
        }
    }
    assert(near@.take(n as int) =~= near@);
    let ghost mid = units@;
    let m: usize = world.snaps.len();
    assert(world.snaps@.take(0) =~= Seq::<UnitSnap<S>>::empty());
    for k in 0..m
        invariant
            m == world.snaps@.len(),
            units@ == blast_fixtures(mid, *blast, world.snaps@.take(k as int)),
    {
        let s: UnitSnap<S> = world.snaps[k];
        assert(world.snaps@.take(k + 1).drop_last() =~= world.snaps@.take(k as int));
        if s.is_building_kind() && blast.reaches(&s) {
            hurt_unit(units, s.entity, blast.damage);
        }
    }
    assert(world.snaps@.take(m as int) =~= world.snaps@);
}

/// The height above its middle at which a shooter fires.
#[verifier::allow_in_spec]
pub fn muzzle_height<S: Scalar>(kind: UnitKind) -> S
    returns
        (match kind {
            UnitKind::Troop => hundredths::<S>(150),
            UnitKind::Tower => hundredths::<S>(350),
            UnitKind::Building => hundredths::<S>(120),
        }),
{
    match kind {
        UnitKind::Troop => hundredths(150),
        UnitKind::Tower => hundredths(350),
        UnitKind::Building => hundredths(120),
    }
}

/// Units and shots in the course of the attacks of a tick.
pub ghost struct Fray<S> {
    pub units: Seq<Actor<S>>,
    pub shots: Seq<Projectile<S>>,
}

/// The target of a unit, if it may attack and the target is in the picture and in reach.
pub open spec fn in_reach<S: Scalar>(
    a: Actor<S>,
    status: Option<Seq<BuffModel<S>>>,
    snaps: Seq<UnitSnap<S>>,
) -> Option<UnitSnap<S>> {
    if a.attacker.is_none() || channels_spec(status).cannot_attack || (a.attacker->0).target.is_none() {
        None
    } else {
        let att = a.attacker->0;
        match lookup(snaps, att.target->0) {
            Some(s) if !att.attack_range.plus(reach_slack()).less(
                edge_dist(a.pos, a.unit.radius, s.pos, s.radius),
            ) => Some(s),
            _ => None,
        }
    }
}

/// The cooldown of a unit after one tick with its target in reach.
pub open spec fn cooled<S: Scalar>(att: Attacker<S>, status: Option<Seq<BuffModel<S>>>) -> S {
    att.cooldown.minus(tick_dt::<S>().times(stat_spec(status, one(), StatKind::AttackSpeed)))
}

/// The damage of one attack: more with a ready charge.
pub open spec fn blow<S: Scalar>(att: Attacker<S>, charge: Option<Charge<S>>) -> S {
    match charge {
        Some(c) if c.charged() => att.damage.times(c.damage_mult),
        _ => att.damage,
    }
}

/// A charge after an attack: a ready one is spent.
pub open spec fn spent<S: Scalar>(charge: Option<Charge<S>>) -> Option<Charge<S>> {
    match charge {
        Some(c) if c.charged() => Some(c.cleared()),
        _ => charge,
    }
}

/// What the attack of unit `i` does, once its cooldown is over.
pub open spec fn unleash<S: Scalar>(
    f: Fray<S>,
    i: int,
    target: UnitSnap<S>,
    snaps: Seq<UnitSnap<S>>,
) -> Fray<S> {
    let a = f.units[i];
    let att = a.attacker->0;
    let damage = blow(att, a.charge);
    let ready = f.units.update(
        i,
        Actor {
            attacker: Some(Attacker { engaged: true, cooldown: att.interval, ..att }),
            charge: spent(a.charge),
            ..a
        },
    );
    if att.ranged {
        Fray {
            units: ready,
            shots: f.shots.push(
                Projectile {
                    target: target.entity,
                    damage,
                    splash_radius: att.splash_radius,
                    hits_air: att.hits_air,
                    attacker: a.unit.faction,
                    pos: a.pos.raised(muzzle_height(a.unit.kind)),
                },
            ),
        }
    } else {
        let struck = hurt_entity(ready, target.entity, damage);
        let blast = Blast {
            attacker: a.unit.faction,
            spared: target.entity,
            hits_air: att.hits_air,
            center: a.pos,
            radius: att.splash_radius,
            damage,
        };
        Fray {
            units: if zero::<S>().less(att.splash_radius) {
                blasted(struck, blast, snaps)
            } else {
                struck
            },
            ..f
        }
    }
}

/// The turn of unit `i`.
pub open spec fn turn<S: Scalar>(
    f: Fray<S>,
    i: int,
    status: Option<Seq<BuffModel<S>>>,
    snaps: Seq<UnitSnap<S>>,
) -> Fray<S> {
    let a = f.units[i];
    match in_reach(a, status, snaps) {
        None => f,
        Some(target) => {
            let att = a.attacker->0;
            let cooldown = cooled(att, status);
            if zero::<S>().less(cooldown) {
                Fray {
                    units: f.units.update(
                        i,
                        Actor { attacker: Some(Attacker { engaged: true, cooldown, ..att }), ..a },
                    ),
                    ..f
                }
            } else {
                unleash(f, i, target, snaps)
            }
        },
    }
}

/// The turns of the first `n` units, in order.
pub open spec fn turns<S: Scalar>(
    f: Fray<S>,
    n: int,
    statuses: Seq<Option<Seq<BuffModel<S>>>>,
    snaps: Seq<UnitSnap<S>>,
) -> Fray<S>
    decreases n,
{
    if n <= 0 {
        f
    } else {
        turn(turns(f, n - 1, statuses, snaps), n - 1, statuses[n - 1], snaps)
    }
}

/// Units and shots after the attacks of a tick.
pub open spec fn attacking_spec<S: Scalar>(
    units: Seq<Actor<S>>,
    shots: Seq<Projectile<S>>,
    statuses: Seq<Option<Seq<BuffModel<S>>>>,
    snaps: Seq<UnitSnap<S>>,
) -> Fray<S> {
    turns(Fray { units, shots }, units.len() as int, statuses, snaps)
}

fn reachable<S: Scalar>(a: &Actor<S>, buffs: &Option<Buffs<S>>, world: &WorldSnaps<S>) -> (r: Option<
    UnitSnap<S>,
>)
    requires
        world.wf(),
        buffs matches Some(b) ==> b.wf(),
    ensures
        r == in_reach(*a, status_model(*buffs), world.snaps@),
{
    let att: Attacker<S> = match a.attacker {
        Some(att) => att,
        None => {
            return None;
        },
    };
    if channels_of(buffs).cannot_attack {
        return None;
    }
    let entity: u64 = match att.target {
        Some(e) => e,
        None => {
            return None;
        },
    };
    match world.get(entity) {
        Some(s) => if att.attack_range.plus(reach_slack()).less(
            edge_dist(a.pos, a.unit.radius, s.pos, s.radius),
        ) {
            None
        } else {
            Some(s)
        },
        None => None,
    }
}

/// The same units, some of them with another health.
pub open spec fn only_hurt<S: Scalar>(before: Seq<Actor<S>>, after: Seq<Actor<S>>) -> bool {
    &&& before.len() == after.len()
    &&& forall|k: int|
        0 <= k < before.len() ==> (#[trigger] after[k]) == (Actor {
            health: Health { current: after[k].health.current, max: before[k].health.max },
            ..before[k]
        })
}

/// A blow changes nothing but health.
pub proof fn hurt_only_hurts<S: Scalar>(units: Seq<Actor<S>>, entity: u64, damage: S)
    ensures
        only_hurt(units, hurt_entity(units, entity, damage)),
{
    lemma_position_from(units, entity, 0);
}

proof fn lemma_listed_only_hurts<S: Scalar>(
    units: Seq<Actor<S>>,
    blast: Blast<S>,
    snaps: Seq<UnitSnap<S>>,
    list: Seq<u32>,
)
    ensures
        only_hurt(units, blast_listed(units, blast, snaps, list)),
    decreases list.len(),
{
    if list.len() > 0 {
        lemma_listed_only_hurts(units, blast, snaps, list.drop_last());
        let before = blast_listed(units, blast, snaps, list.drop_last());
        let s = snaps[list.last() as int];
        hurt_only_hurts(before, s.entity, blast.damage);
    }
}

proof fn lemma_fixtures_only_hurts<S: Scalar>(
    units: Seq<Actor<S>>,
    blast: Blast<S>,
    snaps: Seq<UnitSnap<S>>,
)
    ensures
        only_hurt(units, blast_fixtures(units, blast, snaps)),
    decreases snaps.len(),
{
    if snaps.len() > 0 {
        lemma_fixtures_only_hurts(units, blast, snaps.drop_last());
        let before = blast_fixtures(units, blast, snaps.drop_last());
        hurt_only_hurts(before, snaps.last().entity, blast.damage);
    }
}

/// A blast changes nothing but health.
pub proof fn blast_only_hurts<S: Scalar>(
    units: Seq<Actor<S>>,
    blast: Blast<S>,
    snaps: Seq<UnitSnap<S>>,
)
    ensures
        only_hurt(units, blasted(units, blast, snaps)),
{
    let near = in_circle_spec(
        grid_of(snaps),
        blast.center,
        blast.radius.plus(monster_radius_max()),
    );
    lemma_listed_only_hurts(units, blast, snaps, near);
    lemma_fixtures_only_hurts(blast_listed(units, blast, snaps, near), blast, snaps);
}

/// The turn of a unit changes of the others nothing but their health, and of the unit itself
/// besides health only cooldown, engagement and charge.
pub proof fn turn_touches_health<S: Scalar>(
    f: Fray<S>,
    i: int,
    status: Option<Seq<BuffModel<S>>>,
    snaps: Seq<UnitSnap<S>>,
)
    requires
        0 <= i < f.units.len(),
    ensures
        turn(f, i, status, snaps).units.len() == f.units.len(),
        ({
            let after = turn(f, i, status, snaps).units;
            only_hurt(
                f.units.update(
                    i,
                    Actor { attacker: after[i].attacker, charge: after[i].charge, ..f.units[i] },
                ),
                after,
            )
        }),
        f.shots.len() <= turn(f, i, status, snaps).shots.len() <= f.shots.len() + 1,
{
    if let Some(target) = in_reach(f.units[i], status, snaps) {
        let a = f.units[i];
        let att = a.attacker->0;
        let damage = blow(att, a.charge);
        let ready = f.units.update(
            i,
            Actor {
                attacker: Some(Attacker { engaged: true, cooldown: att.interval, ..att }),
                charge: spent(a.charge),
                ..a
            },
        );
        let struck = hurt_entity(ready, target.entity, damage);
        let blast = Blast {
            attacker: a.unit.faction,
            spared: target.entity,
            hits_air: att.hits_air,
            center: a.pos,
            radius: att.splash_radius,
            damage,
        };
        hurt_only_hurts(ready, target.entity, damage);
        blast_only_hurts(struck, blast, snaps);
        let after = turn(f, i, status, snaps).units;
        if !zero::<S>().less(cooled(att, status)) {
            assert(only_hurt(ready, after));
            assert(after[i].attacker == ready[i].attacker && after[i].charge == ready[i].charge);
        }
    }
}

/// The cooldown of a unit after each of some ticks with its target in reach, and how often it has
/// attacked by then; each tick has its own attack speed.
pub open spec fn cooldown_run<S: Scalar>(cooldown: S, interval: S, speeds: Seq<S>) -> (S, nat)
    decreases speeds.len(),
{
    if speeds.len() == 0 {
        (cooldown, 0)
    } else {
        let (so_far, attacks) = cooldown_run(cooldown, interval, speeds.drop_last());
        let left = so_far.minus(tick_dt::<S>().times(speeds.last()));
        if zero::<S>().less(left) { (left, attacks) } else { (interval, attacks + 1) }
    }
}

/// Whether a run of cooldowns has a number at every step.
pub open spec fn cooldowns_exist<S: Scalar>(cooldown: S, interval: S, speeds: Seq<S>) -> bool {
    forall|i: int|
        0 <= i < speeds.len() ==> {
            let step = tick_dt::<S>().times(#[trigger] speeds[i]);
            let left = cooldown_run(cooldown, interval, speeds.take(i)).0.minus(step);
            step.same(step) && left.same(left)
        }
}

/// The turn of a unit with its target in reach is one step of its cooldown: it attacks when the
/// cooldown is over, and not before.
pub proof fn turn_cools_down<S: Scalar>(
    f: Fray<S>,
    i: int,
    status: Option<Seq<BuffModel<S>>>,
    snaps: Seq<UnitSnap<S>>,
)
    requires
        0 <= i < f.units.len(),
        in_reach(f.units[i], status, snaps).is_some(),
    ensures
        ({
            let att = f.units[i].attacker->0;
            let speed = stat_spec(status, one(), StatKind::AttackSpeed);
            let (cooldown, attacks) = cooldown_run(att.cooldown, att.interval, seq![speed]);
            let after = turn(f, i, status, snaps);
            &&& after.units[i].attacker == Some(Attacker { engaged: true, cooldown, ..att })
            &&& attacks == 0 ==> after.shots == f.shots && after.units == f.units.update(
                i,
                Actor { attacker: after.units[i].attacker, ..f.units[i] },
            )
            &&& attacks > 0 ==> after == unleash(f, i, in_reach(f.units[i], status, snaps)->0, snaps)
        }),
{
    let a = f.units[i];
    let att = a.attacker->0;
    let speeds = seq![stat_spec::<S>(status, one(), StatKind::AttackSpeed)];
    reveal_with_fuel(cooldown_run, 2);
    assert(speeds.drop_last() =~= Seq::<S>::empty());
    assert(speeds.last() == speeds[0]);
    let target = in_reach(a, status, snaps)->0;
    let damage = blow(att, a.charge);
    let ready = f.units.update(
        i,
        Actor {
            attacker: Some(Attacker { engaged: true, cooldown: att.interval, ..att }),
            charge: spent(a.charge),
            ..a
        },
    );
    let struck = hurt_entity(ready, target.entity, damage);
    let blast = Blast {
        attacker: a.unit.faction,
        spared: target.entity,
        hits_air: att.hits_air,
        center: a.pos,
        radius: att.splash_radius,
        damage,
    };
    hurt_only_hurts(ready, target.entity, damage);
    blast_only_hurts(struck, blast, snaps);
    let after = turn(f, i, status, snaps).units;
    if !zero::<S>().less(cooled(att, status)) {
        assert(only_hurt(ready, after));
        assert(after[i].attacker == ready[i].attacker);
    }
}

/// A higher attack speed never costs an attack: after any number of ticks with the target in
/// reach, a unit has attacked at least as often as one with the same cooldown and interval that
/// was slower in each of them. So the n-th attack comes no later. Of two that have attacked as
/// often, the faster one has no more of its cooldown left.
pub proof fn speed_hastens_attacks<S: Scalar>(cooldown: S, interval: S, fast: Seq<S>, slow: Seq<S>)
    requires
        fast.len() == slow.len(),
        cooldown.same(cooldown),
        interval.same(interval),
        zero::<S>().at_most(tick_dt()),
        forall|i: int| 0 <= i < fast.len() ==> slow[i].at_most(#[trigger] fast[i]),
        forall|i: int|
            0 <= i < fast.len() ==> zero::<S>().at_most(tick_dt::<S>().times(#[trigger] fast[i])),
        cooldowns_exist(cooldown, interval, fast),
        cooldowns_exist(cooldown, interval, slow),
    ensures
        ({
            let (x, a) = cooldown_run(cooldown, interval, fast);
            let (y, b) = cooldown_run(cooldown, interval, slow);
            &&& a >= b
            &&& a == b ==> x.at_most(y)
            &&& a > 0 ==> x.at_most(interval)
        }),
    decreases fast.len(),
{
    S::at_most_reflexive(cooldown);
    S::at_most_reflexive(interval);
    if fast.len() > 0 {
        let n = fast.len() - 1;
        let (f, s) = (fast.drop_last(), slow.drop_last());
        assert forall|i: int| 0 <= i < f.len() implies s[i].at_most(#[trigger] f[i]) by {
            assert(slow[i].at_most(fast[i]));
        }
        assert forall|i: int| 0 <= i < f.len() implies zero::<S>().at_most(
            tick_dt::<S>().times(#[trigger] f[i]),
        ) by {
            assert(zero::<S>().at_most(tick_dt::<S>().times(fast[i])));
        }
        lemma_cooldowns_exist(cooldown, interval, fast);
        lemma_cooldowns_exist(cooldown, interval, slow);
        speed_hastens_attacks(cooldown, interval, f, s);
        let (x, a) = cooldown_run(cooldown, interval, f);
        let (y, b) = cooldown_run(cooldown, interval, s);
        let (p, q) = (tick_dt::<S>().times(fast[n]), tick_dt::<S>().times(slow[n]));
        assert(slow[n].at_most(fast[n]));
        S::times_monotone(tick_dt(), slow[n], fast[n]);
        S::minus_shrinks(x, p);
        if a == b {
            S::minus_monotone(x, y, p, q);
            if zero::<S>().less(x.minus(p)) {
                S::less_carries(zero(), x.minus(p), y.minus(q));
            }
        }
        if a > 0 {
            S::at_most_transitive(x.minus(p), x, interval);
        }
    }
}

proof fn lemma_cooldowns_exist<S: Scalar>(cooldown: S, interval: S, speeds: Seq<S>)
    requires
        speeds.len() > 0,
        cooldowns_exist(cooldown, interval, speeds),
    ensures
        cooldowns_exist(cooldown, interval, speeds.drop_last()),
        ({
            let step = tick_dt::<S>().times(speeds.last());
            let left = cooldown_run(cooldown, interval, speeds.drop_last()).0.minus(step);
            step.same(step) && left.same(left)
        }),
{
    let rest = speeds.drop_last();
    assert(speeds.take(speeds.len() - 1) =~= rest);
    assert(speeds[speeds.len() - 1] == speeds.last());
    assert forall|i: int| 0 <= i < rest.len() implies {
        let step = tick_dt::<S>().times(#[trigger] rest[i]);
        let left = cooldown_run(cooldown, interval, rest.take(i)).0.minus(step);
        step.same(step) && left.same(left)
    } by {
        assert(rest.take(i) =~= speeds.take(i));
        assert(rest[i] == speeds[i]);
    }
}

/// A unit that may not attack, has no target or does not reach it, does nothing.
pub proof fn idle_turn<S: Scalar>(
    f: Fray<S>,
    i: int,
    status: Option<Seq<BuffModel<S>>>,
    snaps: Seq<UnitSnap<S>>,
)
    requires
        channels_spec(status).cannot_attack || f.units[i].attacker.is_none() || (
        f.units[i].attacker->0).target.is_none(),
    ensures
        turn(f, i, status, snaps) == f,
{
}

/// Lets every unit attack whose target is in reach.
pub fn attacking<S: Scalar>(
    units: &mut Vec<Actor<S>>,
    shots: &mut Vec<Projectile<S>>,
    buffs: &Vec<Option<Buffs<S>>>,
    world: &WorldSnaps<S>,
)
    requires
        world.wf(),
        buffs@.len() == old(units)@.len(),
        statuses_wf(buffs@),
    ensures
        (Fray { units: final(units)@, shots: final(shots)@ }) == attacking_spec(
            old(units)@,
            old(shots)@,
            status_models(buffs@),
            world.snaps@,
        ),
        final(units)@.len() == old(units)@.len(),
{
    let n: usize = units.len();
    let ghost start = Fray { units: units@, shots: shots@ };
    let ghost st = status_models(buffs@);
    let ghost snaps = world.snaps@;
    for i in 0..n
        invariant
            n == start.units.len(),
            n == units@.len(),
            buffs@.len() == n,
            st == status_models(buffs@),
            snaps == world.snaps@,
            statuses_wf(buffs@),
            world.wf(),
            (Fray { units: units@, shots: shots@ }) == turns(start, i as int, st, snaps),
    {
        let ghost before = Fray { units: units@, shots: shots@ };
        proof {
            turn_touches_health(before, i as int, st[i as int], snaps);
        }
        assert(buffs@[i as int] matches Some(b) ==> b.wf());
        let a: Actor<S> = units[i];
        if let Some(target) = reachable(&a, &buffs[i], world) {
            if let Some(att) = a.attacker {
                let rate: S = stat_of(&buffs[i], one(), StatKind::AttackSpeed);
                let cooldown: S = att.cooldown.minus(tick_dt::<S>().times(rate));
                if zero::<S>().less(cooldown) {
                    units[i] = Actor { attacker: Some(Attacker { engaged: true, cooldown, ..att }), ..a };
                } else {
                    let mut damage: S = att.damage;
                    let mut charge: Option<Charge<S>> = a.charge;
                    if let Some(c) = a.charge {
                        if c.charged() {
                            damage = damage.times(c.damage_mult);
                            charge = Some(c.cleared());
                        }
                    }
                    units[i] = Actor {
                        attacker: Some(Attacker { engaged: true, cooldown: att.interval, ..att }),
                        charge,
                        ..a
                    };
                    if att.ranged {
                        shots.push(
                            Projectile {
                                target: target.entity,
                                damage,
                                splash_radius: att.splash_radius,
                                hits_air: att.hits_air,
                                attacker: a.unit.faction,
                                pos: a.pos.raised(muzzle_height(a.unit.kind)),
                            },
                        );
                    } else {
                        hurt_unit(units, target.entity, damage);
                        if zero::<S>().less(att.splash_radius) {
                            let blast: Blast<S> = Blast {
                                attacker: a.unit.faction,
                                spared: target.entity,
                                hits_air: att.hits_air,
                                center: a.pos,
                                radius: att.splash_radius,
                                damage,
                            };
                            detonate(units, &blast, world);
                        }
                    }
                }
            }
        }
        assert((Fray { units: units@, shots: shots@ }) == turn(before, i as int, st[i as int], snaps));
    }
}

} // verus!
