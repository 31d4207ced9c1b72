//! Who is on the field: no two units ever have the same name, and the troops of a side add up.

use vstd::prelude::*;

use crate::buffs::BuffModel;
use crate::cards::{tower_snaps_spec, TowerSnap};
use crate::combat::UnitSnap;
use crate::combat::attack::{turn_touches_health, turns, Fray};
use crate::combat::projectile::{move_projectiles_spec, shots_only_hurt};
use crate::combat::targeting::{looking_only_targets, snapshot, targeting_spec};
use crate::components::{Actor, Deploying, Faction, GameCommand, Projectile, SpellVolley};
use crate::roster::survivors;
use crate::scalar::Scalar;
use crate::sim::{
    all_commanded, commanded, crumbling, falling, fought, prepared, settled_down, siding, tick_spec,
    worked, worn,
};
use crate::spawn::{arrived, churned_unit, joined, landed, spawned_upto, Ranks};
use crate::tally::{aged_units, embattled, lost_in_tick, missing, troop_count};
use crate::volley::volleys_spec;
use crate::world::WorldModel;

verus! {

/// The same unit, as far as its name, its kind and its side go.
pub open spec fn same_unit<S: Scalar>(a: Actor<S>, b: Actor<S>) -> bool {
    &&& a.entity == b.entity
    &&& a.unit.kind == b.unit.kind
    &&& a.unit.faction == b.unit.faction
}

/// The same units, as far as names, kinds and sides go.
pub open spec fn same_names<S: Scalar>(a: Seq<Actor<S>>, b: Seq<Actor<S>>) -> bool {
    &&& a.len() == b.len()
    &&& forall|i: int| 0 <= i < a.len() ==> same_unit(#[trigger] a[i], b[i])
}

/// Every unit has a name of its own, and the next name is still free, as are all after it.
pub open spec fn distinct<S: Scalar>(units: Seq<Actor<S>>, next: u64) -> bool {
    &&& forall|i: int| 0 <= i < units.len() ==> (#[trigger] units[i]).entity < next
    &&& forall|i: int, j: int|
        0 <= i < units.len() && 0 <= j < units.len() && i != j ==> (#[trigger] units[i]).entity != (
        #[trigger] units[j]).entity
}

proof fn lemma_same_names<S: Scalar>(a: Seq<Actor<S>>, b: Seq<Actor<S>>, next: u64)
    requires
        same_names(a, b),
        distinct(a, next),
    ensures
        distinct(b, next),
{
    assert forall|i: int| 0 <= i < b.len() implies (#[trigger] b[i]).entity < next by {
        assert(same_unit(a[i], b[i]));
        assert(a[i].entity < next);
    }
    assert forall|i: int, j: int| 0 <= i < b.len() && 0 <= j < b.len() && i != j implies (
    #[trigger] b[i]).entity != (#[trigger] b[j]).entity by {
        assert(same_unit(a[i], b[i]) && same_unit(a[j], b[j]));
        assert(a[i].entity != a[j].entity);
    }
}

proof fn lemma_survivors_distinct<S: Scalar>(units: Seq<Actor<S>>, doomed: Seq<bool>, next: u64)
    requires
        units.len() == doomed.len(),
        distinct(units, next),
    ensures
        distinct(survivors(units, doomed), next),
        survivors(units, doomed).len() <= units.len(),
        forall|i: int|
            0 <= i < survivors(units, doomed).len() ==> exists|j: int|
                0 <= j < units.len() && (#[trigger] units[j]).entity == (#[trigger] survivors(
                    units,
                    doomed,
                )[i]).entity,
    decreases units.len(),
{
    if units.len() > 0 {
        let rest = units.drop_last();
        assert(distinct(rest, next)) by {
            assert forall|i: int| 0 <= i < rest.len() implies (#[trigger] rest[i]).entity < next by {
                assert(units[i].entity < next);
            }
            assert forall|i: int, j: int|
                0 <= i < rest.len() && 0 <= j < rest.len() && i != j implies (
            #[trigger] rest[i]).entity != (#[trigger] rest[j]).entity by {
                assert(units[i].entity != units[j].entity);
            }
        }
        lemma_survivors_distinct(rest, doomed.drop_last(), next);
        let kept = survivors(rest, doomed.drop_last());
        let all = survivors(units, doomed);
        let last = units.len() - 1;
        assert forall|i: int| 0 <= i < all.len() implies exists|j: int|
            0 <= j < units.len() && (#[trigger] units[j]).entity == (#[trigger] all[i]).entity by {
            if i < kept.len() {
                assert(all[i] == kept[i]);
                let j = choose|j: int|
                    0 <= j < rest.len() && (#[trigger] rest[j]).entity == kept[i].entity;
                assert(units[j].entity == all[i].entity);
            } else {
                assert(units[last].entity == all[i].entity);
            }
        }
        assert forall|i: int| 0 <= i < all.len() implies (#[trigger] all[i]).entity < next by {
            if i < kept.len() {
                assert(kept[i].entity < next);
            }
        }
        assert forall|i: int, j: int| 0 <= i < all.len() && 0 <= j < all.len() && i != j implies (
        #[trigger] all[i]).entity != (#[trigger] all[j]).entity by {
            if i < kept.len() && j < kept.len() {
                assert(kept[i].entity != kept[j].entity);
            } else if i < kept.len() {
                let k = choose|k: int|
                    0 <= k < rest.len() && (#[trigger] rest[k]).entity == kept[i].entity;
                assert(units[k].entity != units[last].entity);
            } else if j < kept.len() {
                let k = choose|k: int|
                    0 <= k < rest.len() && (#[trigger] rest[k]).entity == kept[j].entity;
                assert(units[k].entity != units[last].entity);
            }
        }
    }
}

proof fn lemma_joined<S: Scalar>(r: Ranks<S>, a: Actor<S>)
    requires
        distinct(r.units, r.next_entity),
        a.entity == r.next_entity,
        r.next_entity < u64::MAX,
    ensures
        distinct(joined(r, a).units, joined(r, a).next_entity),
        joined(r, a).next_entity == r.next_entity + 1,
        joined(r, a).units.len() == r.units.len() + 1,
{
    let n = joined(r, a);
    assert forall|i: int| 0 <= i < n.units.len() implies (#[trigger] n.units[i]).entity < n.next_entity by {
        if i < r.units.len() {
            assert(r.units[i].entity < r.next_entity);
        }
    }
    assert forall|i: int, j: int| 0 <= i < n.units.len() && 0 <= j < n.units.len() && i != j implies (
    #[trigger] n.units[i]).entity != (#[trigger] n.units[j]).entity by {
        if i < r.units.len() && j < r.units.len() {
            assert(r.units[i].entity != r.units[j].entity);
        } else if i < r.units.len() {
            assert(r.units[i].entity < r.next_entity);
        } else if j < r.units.len() {
            assert(r.units[j].entity < r.next_entity);
        }
    }
}

proof fn lemma_landed<S: Scalar>(r: Ranks<S>, ghosts: Seq<Deploying<S>>)
    requires
        distinct(r.units, r.next_entity),
        r.next_entity + ghosts.len() <= u64::MAX,
    ensures
        distinct(landed(r, ghosts).units, landed(r, ghosts).next_entity),
        landed(r, ghosts).next_entity <= r.next_entity + ghosts.len(),
        landed(r, ghosts).units.len() <= r.units.len() + ghosts.len(),
    decreases ghosts.len(),
{
    if ghosts.len() > 0 {
        lemma_landed(r, ghosts.drop_last());
        let before = landed(r, ghosts.drop_last());
        let g = ghosts.last();
        let after = arrived(before, g.faction, g.card, g.pos.flat());
        if after != before {
            lemma_joined(before, after.units.last());
            assert(after.units =~= before.units.push(after.units.last()));
        }
    }
}

proof fn lemma_spawned<S: Scalar>(r: Ranks<S>, n: int)
    requires
        distinct(r.units, r.next_entity),
        0 <= n <= r.units.len(),
        r.next_entity + n <= u64::MAX,
    ensures
        distinct(spawned_upto(r, n).units, spawned_upto(r, n).next_entity),
        spawned_upto(r, n).next_entity <= r.next_entity + n,
        spawned_upto(r, n).units.len() >= r.units.len(),
    decreases n,
{
    if n > 0 {
        lemma_spawned(r, n - 1);
        let before = spawned_upto(r, n - 1);
        let a = before.units[n - 1];
        let ran = Ranks {
            units: before.units.update(n - 1, churned_unit(a)),
            ..before
        };
        assert(same_names(before.units, ran.units));
        lemma_same_names(before.units, ran.units, before.next_entity);
        let after = spawned_upto(r, n);
        if after != ran {
            lemma_joined(ran, after.units.last());
            assert(after.units =~= ran.units.push(after.units.last()));
        }
    }
}

proof fn lemma_commanded<S: Scalar>(m: WorldModel<S>, cmds: Seq<GameCommand<S>>, towers: Seq<TowerSnap<S>>)
    ensures
        same_names(m.units, all_commanded(m, cmds, towers).units),
        all_commanded(m, cmds, towers).next_entity == m.next_entity,
    decreases cmds.len(),
{
    if cmds.len() > 0 {
        lemma_commanded(m, cmds.drop_last(), towers);
        let before = all_commanded(m, cmds.drop_last(), towers);
        let after = commanded(before, cmds.last(), towers);
        assert(same_names(before.units, after.units));
        assert forall|i: int| 0 <= i < m.units.len() implies same_unit(#[trigger] m.units[i], after.units[i]) by {
            assert(same_unit(before.units[i], after.units[i]));
        }
    }
}

proof fn lemma_volleys<S: Scalar>(units: Seq<Actor<S>>, volleys: Seq<SpellVolley<S>>)
    ensures
        same_names(units, volleys_spec(units, volleys).units),
    decreases volleys.len(),
{
    if volleys.len() > 0 {
        lemma_volleys(units, volleys.drop_last());
        let before = volleys_spec(units, volleys.drop_last()).units;
        let after = volleys_spec(units, volleys).units;
        assert(same_names(before, after));
        assert forall|i: int| 0 <= i < units.len() implies same_unit(#[trigger] units[i], after[i]) by {
            assert(same_unit(before[i], after[i]));
        }
    }
}

proof fn lemma_turns<S: Scalar>(
    f: Fray<S>,
    n: int,
    statuses: Seq<Option<Seq<BuffModel<S>>>>,
    snaps: Seq<UnitSnap<S>>,
)
    requires
        0 <= n <= f.units.len(),
    ensures
        same_names(f.units, turns(f, n, statuses, snaps).units),
    decreases n,
{
    if n > 0 {
        lemma_turns(f, n - 1, statuses, snaps);
        let before = turns(f, n - 1, statuses, snaps);
        turn_touches_health(before, n - 1, statuses[n - 1], snaps);
        let after = turns(f, n, statuses, snaps);
        assert forall|i: int| 0 <= i < f.units.len() implies same_unit(#[trigger] f.units[i], after.units[i]) by {
            assert(same_unit(before.units[i], f.units[i]));
            let mid = before.units.update(
                n - 1,
                Actor {
                    attacker: after.units[n - 1].attacker,
                    charge: after.units[n - 1].charge,
                    ..before.units[n - 1]
                },
            );
            assert(same_unit(mid[i], before.units[i]));
            assert(same_unit(after.units[i], mid[i]));
        }
    }
}

proof fn lemma_fought<S: Scalar>(m: WorldModel<S>)
    ensures
        same_names(m.units, fought(m).units),
        fought(m).next_entity == m.next_entity,
{
    let snaps = snapshot(m.units);
    let aimed = targeting_spec(m.units, m.statuses);
    assert forall|i: int| 0 <= i < m.units.len() implies same_unit(#[trigger] m.units[i], aimed[i]) by {
        looking_only_targets(m.units[i], m.statuses[i], snaps);
    }
    let f = Fray { units: aimed, shots: m.shots };
    lemma_turns(f, aimed.len() as int, m.statuses, snaps);
    let struck = turns(f, aimed.len() as int, m.statuses, snaps).units;
    let after = fought(m).units;
    assert forall|i: int| 0 <= i < m.units.len() implies same_unit(#[trigger] m.units[i], after[i]) by {
        assert(same_unit(aimed[i], struck[i]));
    }
}

proof fn lemma_settled<S: Scalar>(units: Seq<Actor<S>>, snaps: Seq<UnitSnap<S>>)
    ensures
        same_names(units, settled_down(units, snaps)),
{
}

proof fn lemma_shots<S: Scalar>(units: Seq<Actor<S>>, shots: Seq<Projectile<S>>)
    ensures
        same_names(units, move_projectiles_spec(units, shots).units),
{
    shots_only_hurt(units, shots);
    let after = move_projectiles_spec(units, shots).units;
    assert forall|i: int| 0 <= i < units.len() implies same_unit(#[trigger] units[i], after[i]) by {
        assert(after[i].entity == units[i].entity);
    }
}

/// A tick keeps the names of all units apart, as long as there are names left: fewer units come
/// in a tick than there are units and cards on their way.
pub proof fn names_stay_distinct<S: Scalar>(m: WorldModel<S>, cmds: Seq<GameCommand<S>>)
    requires
        distinct(m.units, m.next_entity),
        ({
            let c = all_commanded(m, cmds, tower_snaps_spec(m.units));
            m.next_entity + m.units.len() + 2 * c.ghosts.len() <= u64::MAX
        }),
    ensures
        distinct(tick_spec(m, cmds).units, tick_spec(m, cmds).next_entity),
{
    reveal(tick_spec);
    let towers = tower_snaps_spec(m.units);
    let c = all_commanded(m, cmds, towers);
    lemma_commanded(m, cmds, towers);
    lemma_same_names(m.units, c.units, m.next_entity);
    let rained = volleys_spec(c.units, c.volleys).units;
    lemma_volleys(c.units, c.volleys);
    lemma_same_names(c.units, rained, c.next_entity);
    let r = Ranks { units: rained, statuses: c.statuses, next_entity: c.next_entity };
    lemma_landed(r, c.ghosts);
    let l = landed(r, c.ghosts);
    let p = prepared(c);
    assert(same_names(l.units, p.units));
    lemma_same_names(l.units, p.units, l.next_entity);
    let f = fought(p);
    lemma_fought(p);
    lemma_same_names(p.units, f.units, p.next_entity);
    let aged = f.units.map_values(|a: Actor<S>| worn(a));
    assert(same_names(f.units, aged));
    lemma_same_names(f.units, aged, f.next_entity);
    lemma_survivors_distinct(aged, crumbling(f.units), f.next_entity);
    let standing = survivors(aged, crumbling(f.units));
    let ranks = Ranks {
        units: standing,
        statuses: survivors(f.statuses, crumbling(f.units)),
        next_entity: f.next_entity,
    };
    lemma_spawned(ranks, standing.len() as int);
    let w = worked(f);
    let s = spawned_upto(ranks, standing.len() as int);
    lemma_shots(s.units, f.shots);
    lemma_same_names(s.units, w.units, w.next_entity);
    let snaps = snapshot(p.units);
    let down = settled_down(w.units, snaps);
    lemma_settled(w.units, snaps);
    lemma_same_names(w.units, down, w.next_entity);
    let x = WorldModel { units: down, ..w };
    let doomed = falling(down, x.timer.phase);
    lemma_survivors_distinct(down, doomed, w.next_entity);
    let left = survivors(down, doomed);
    let drained = left.map_values(|a: Actor<S>| crate::match_flow::drained(a, x.timer.phase));
    assert(same_names(left, drained));
    lemma_same_names(left, drained, w.next_entity);
    lemma_survivors_distinct(
        drained,
        siding(drained, Faction::Player),
        w.next_entity,
    );
    lemma_survivors_distinct(
        drained,
        siding(drained, Faction::Enemy),
        w.next_entity,
    );
}

/// Units that are the same in name, kind and side are as many troops.
proof fn lemma_same_count<S: Scalar>(a: Seq<Actor<S>>, b: Seq<Actor<S>>, faction: Faction)
    requires
        same_names(a, b),
    ensures
        troop_count(a, faction) == troop_count(b, faction),
    decreases a.len(),
{
    if a.len() > 0 {
        assert forall|i: int| 0 <= i < a.drop_last().len() implies same_unit(
            #[trigger] a.drop_last()[i],
            b.drop_last()[i],
        ) by {
            assert(same_unit(a[i], b[i]));
        }
        lemma_same_count(a.drop_last(), b.drop_last(), faction);
        assert(same_unit(a[a.len() - 1], b[a.len() - 1]));
    }
}

proof fn lemma_survivors_count<S: Scalar>(units: Seq<Actor<S>>, doomed: Seq<bool>, faction: Faction)
    requires
        units.len() == doomed.len(),
    ensures
        troop_count(survivors(units, doomed), faction) <= troop_count(units, faction),
    decreases units.len(),
{
    if units.len() > 0 {
        let rest = survivors(units.drop_last(), doomed.drop_last());
        lemma_survivors_count(units.drop_last(), doomed.drop_last(), faction);
        if !doomed.last() {
            assert(rest.push(units.last()).drop_last() =~= rest);
        }
    }
}

proof fn lemma_joined_count<S: Scalar>(units: Seq<Actor<S>>, a: Actor<S>, faction: Faction)
    ensures
        troop_count(units, faction) <= troop_count(units.push(a), faction),
{
    assert(units.push(a).drop_last() =~= units);
}

proof fn lemma_landed_count<S: Scalar>(r: Ranks<S>, ghosts: Seq<Deploying<S>>, faction: Faction)
    ensures
        troop_count(r.units, faction) <= troop_count(landed(r, ghosts).units, faction),
    decreases ghosts.len(),
{
    if ghosts.len() > 0 {
        lemma_landed_count(r, ghosts.drop_last(), faction);
        let before = landed(r, ghosts.drop_last());
        let g = ghosts.last();
        let after = arrived(before, g.faction, g.card, g.pos.flat());
        if after != before {
            lemma_joined_count(before.units, after.units.last(), faction);
            assert(after.units =~= before.units.push(after.units.last()));
        }
    }
}

proof fn lemma_spawned_count<S: Scalar>(r: Ranks<S>, n: int, faction: Faction)
    requires
        0 <= n <= r.units.len(),
    ensures
        troop_count(r.units, faction) <= troop_count(spawned_upto(r, n).units, faction),
        spawned_upto(r, n).units.len() >= r.units.len(),
    decreases n,
{
    if n > 0 {
        lemma_spawned_count(r, n - 1, faction);
        let before = spawned_upto(r, n - 1);
        let a = before.units[n - 1];
        let ran = Ranks {
            units: before.units.update(n - 1, churned_unit(a)),
            ..before
        };
        assert(same_names(before.units, ran.units));
        lemma_same_count(before.units, ran.units, faction);
        let after = spawned_upto(r, n);
        if after != ran {
            lemma_joined_count(ran.units, after.units.last(), faction);
            assert(after.units =~= ran.units.push(after.units.last()));
        }
    }
}

/// How many troops of a side come onto the field in a tick: those of cards whose time has come,
/// and those that buildings send out.
pub open spec fn come_in_tick<S: Scalar>(
    m: WorldModel<S>,
    cmds: Seq<GameCommand<S>>,
    faction: Faction,
) -> nat {
    let start = prepared(all_commanded(m, cmds, tower_snaps_spec(m.units)));
    let units = fought(start).units;
    let end = embattled(m, cmds);
    missing(start.units, m.units, faction) + missing(end.units, aged_units(units), faction)
}

/// The troops of a side add up: those that were there and those that have come are those that
/// are there and those that were lost.
pub proof fn troops_add_up<S: Scalar>(m: WorldModel<S>, cmds: Seq<GameCommand<S>>, faction: Faction)
    ensures
        troop_count(m.units, faction) + come_in_tick(m, cmds, faction) == troop_count(
            tick_spec(m, cmds).units,
            faction,
        ) + lost_in_tick(m, cmds, faction),
{
    reveal(tick_spec);
    reveal(lost_in_tick);
    let towers = tower_snaps_spec(m.units);
    let c = all_commanded(m, cmds, towers);
    lemma_commanded(m, cmds, towers);
    lemma_same_count(m.units, c.units, faction);
    let rained = volleys_spec(c.units, c.volleys).units;
    lemma_volleys(c.units, c.volleys);
    lemma_same_count(c.units, rained, faction);
    let r = Ranks { units: rained, statuses: c.statuses, next_entity: c.next_entity };
    lemma_landed_count(r, c.ghosts, faction);
    let l = landed(r, c.ghosts);
    let p = prepared(c);
    assert(same_names(l.units, p.units));
    lemma_same_count(l.units, p.units, faction);
    let f = fought(p);
    lemma_fought(p);
    lemma_same_count(p.units, f.units, faction);
    let aged = f.units.map_values(|a: Actor<S>| worn(a));
    assert(same_names(f.units, aged));
    lemma_same_count(f.units, aged, faction);
    lemma_survivors_count(aged, crumbling(f.units), faction);
    let standing = survivors(aged, crumbling(f.units));
    let ranks = Ranks {
        units: standing,
        statuses: survivors(f.statuses, crumbling(f.units)),
        next_entity: f.next_entity,
    };
    lemma_spawned_count(ranks, standing.len() as int, faction);
    let w = worked(f);
    let s = spawned_upto(ranks, standing.len() as int);
    lemma_shots(s.units, f.shots);
    lemma_same_count(s.units, w.units, faction);
    let snaps = snapshot(p.units);
    let down = settled_down(w.units, snaps);
    lemma_settled(w.units, snaps);
    lemma_same_count(w.units, down, faction);
    let x = WorldModel { units: down, ..w };
    let doomed = falling(down, x.timer.phase);
    lemma_survivors_count(down, doomed, faction);
    let left = survivors(down, doomed);
    let drained = left.map_values(|a: Actor<S>| crate::match_flow::drained(a, x.timer.phase));
    assert(same_names(left, drained));
    lemma_same_count(left, drained, faction);
    lemma_survivors_count(drained, siding(drained, Faction::Player), faction);
    lemma_survivors_count(drained, siding(drained, Faction::Enemy), faction);
}

} // verus!
