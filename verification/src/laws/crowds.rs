//! What crowds and structures do to bodies on the ground.

use vstd::prelude::*;

use crate::combat::grid::in_circle_spec;
use crate::combat::nearest::{circle_misses_nobody, lemma_quotient, margin, sane_pos};
use crate::combat::physics::{
    cleared_of, forces_upto, listed_forces, pair_forces, push_out_spec, push_spec, pushed_spec,
    unblocked,
};
use crate::combat::picture::circles_list_once;
use crate::combat::targeting::grid_of;
use crate::combat::UnitSnap;
use crate::components::{Actor, UnitKind};
use crate::constants::monster_radius_max;
use crate::fixed::{abs, lemma_quotient_ordered, quotient, Fixed};
use crate::laws::strides::lemma_numbers;
use crate::scalar::Scalar;
use crate::skirmish::{
    all_paired, clear_of_buildings, clear_of_towers, kept_off, monster_snap, nudged, paired,
    row_paired, shove, shoved, BuildingCard, Monster, Tower,
};
use crate::vector::Vec3;

verus! {

/// A push is shared between the two by the mass of the other: the force on the one is the push
/// times the share of the other's mass, the force on the other points the other way, with the
/// share of the one's mass. Nobody else feels it.
pub proof fn pushes_are_shared<S: Scalar>(forces: Seq<Vec3<S>>, snaps: Seq<UnitSnap<S>>, i: int, j: int)
    requires
        0 <= i < j < snaps.len(),
        forces.len() == snaps.len(),
        !snaps[j].flying,
    ensures
        ({
            let (a, b) = (snaps[i], snaps[j]);
            let after = pair_forces(forces, snaps, i, j);
            let both = a.mass.plus(b.mass);
            &&& after.len() == forces.len()
            &&& forall|k: int| 0 <= k < forces.len() && k != i && k != j ==> (#[trigger] after[k]) == forces[k]
            &&& push_spec(a, b) matches Some(f) ==> {
                &&& after[i].x == forces[i].x.plus(f.x.times(b.mass.over(both)))
                &&& after[i].z == forces[i].z.plus(f.z.times(b.mass.over(both)))
                &&& after[j].x == forces[j].x.minus(f.x.times(a.mass.over(both)))
                &&& after[j].z == forces[j].z.minus(f.z.times(a.mass.over(both)))
            }
            &&& push_spec(a, b).is_none() ==> after == forces
        }),
{
}

proof fn lemma_shares(f: int, s: int, t: int)
    requires
        0 <= s <= t,
    ensures
        abs(quotient(f * s, 65536)) <= abs(quotient(f * t, 65536)),
        f >= 0 ==> quotient(f * s, 65536) >= 0,
        f <= 0 ==> quotient(f * s, 65536) <= 0,
{
    if f >= 0 {
        assert(0 <= f * s <= f * t) by (nonlinear_arith)
            requires
                f >= 0,
                0 <= s <= t,
        ;
        lemma_quotient_ordered(0, f * s);
        lemma_quotient_ordered(f * s, f * t);
    } else {
        assert(f * t <= f * s <= 0) by (nonlinear_arith)
            requires
                f < 0,
                0 <= s <= t,
        ;
        lemma_quotient_ordered(f * s, 0);
        lemma_quotient_ordered(f * t, f * s);
    }
    lemma_quotient(0, 65536, 0);
}

/// In fixed point: of two that push each other the heavier feels no more of it than the lighter, in
/// either direction of the ground, and the two are pushed in opposite directions.
pub proof fn the_heavy_push_the_light(forces: Seq<Vec3<Fixed>>, snaps: Seq<UnitSnap<Fixed>>, i: int, j: int)
    requires
        0 <= i < j < snaps.len(),
        forces.len() == snaps.len(),
        !snaps[j].flying,
        push_spec(snaps[i], snaps[j]).is_some(),
        forces[i] == Vec3::<Fixed>::origin(),
        forces[j] == Vec3::<Fixed>::origin(),
        0 < snaps[i].mass.raw <= 0x100_0000,
        0 < snaps[j].mass.raw <= 0x100_0000,
    ensures
        ({
            let f = push_spec(snaps[i], snaps[j])->0;
            let after = pair_forces(forces, snaps, i, j);
            let (ax, az) = (after[i].x.raw as int, after[i].z.raw as int);
            let (bx, bz) = (after[j].x.raw as int, after[j].z.raw as int);
            &&& snaps[i].mass.raw >= snaps[j].mass.raw ==> abs(ax) <= abs(bx) + 1 && abs(az) <= abs(bz) + 1
            &&& snaps[i].mass.raw <= snaps[j].mass.raw ==> abs(bx) <= abs(ax) + 1 && abs(bz) <= abs(az) + 1
            &&& f.x.raw >= 0 ==> ax >= 0 && bx <= 0
            &&& f.x.raw <= 0 ==> ax <= 0 && bx >= 0
            &&& f.z.raw >= 0 ==> az >= 0 && bz <= 0
            &&& f.z.raw <= 0 ==> az <= 0 && bz >= 0
        }),
{
    let (a, b) = (snaps[i], snaps[j]);
    let f = push_spec(a, b)->0;
    lemma_numbers();
    let both = a.mass.plus(b.mass);
    let m = both.raw as int;
    assert(m == a.mass.raw + b.mass.raw);
    let (s, t) = (b.mass.over(both), a.mass.over(both));
    vstd::arithmetic::div_mod::lemma_div_pos_is_pos(a.mass.raw * 65536, m);
    vstd::arithmetic::div_mod::lemma_div_pos_is_pos(b.mass.raw * 65536, m);
    assert(a.mass.raw * 65536 / m <= 65536 && b.mass.raw * 65536 / m <= 65536) by {
        vstd::arithmetic::div_mod::lemma_div_is_ordered(a.mass.raw * 65536, m * 65536, m);
        vstd::arithmetic::div_mod::lemma_div_is_ordered(b.mass.raw * 65536, m * 65536, m);
        vstd::arithmetic::div_mod::lemma_div_multiples_vanish(65536, m);
        assert(m * 65536 == 65536 * m);
    }
    assert(s.raw == b.mass.raw * 65536 / m && t.raw == a.mass.raw * 65536 / m);
    if a.mass.raw >= b.mass.raw {
        vstd::arithmetic::div_mod::lemma_div_is_ordered(b.mass.raw * 65536, a.mass.raw * 65536, m);
    } else {
        vstd::arithmetic::div_mod::lemma_div_is_ordered(a.mass.raw * 65536, b.mass.raw * 65536, m);
    }
    let (lo, hi) = if s.raw <= t.raw { (s.raw as int, t.raw as int) } else { (t.raw as int, s.raw as int) };
    lemma_shares(f.x.raw as int, lo, hi);
    lemma_shares(f.z.raw as int, lo, hi);
    lemma_shares(f.x.raw as int, hi, hi);
    lemma_shares(f.z.raw as int, hi, hi);
}

proof fn lemma_nobody_before<S: Scalar>(forces: Seq<Vec3<S>>, snaps: Seq<UnitSnap<S>>, i: int, list: Seq<u32>)
    requires
        forall|k: int| 0 <= k < list.len() ==> (#[trigger] list[k]) <= i,
    ensures
        listed_forces(forces, snaps, i, list) == forces,
    decreases list.len(),
{
    if list.len() > 0 {
        assert(list[list.len() - 1] <= i);
        lemma_nobody_before(forces, snaps, i, list.drop_last());
    }
}

proof fn lemma_one_partner<S: Scalar>(forces: Seq<Vec3<S>>, snaps: Seq<UnitSnap<S>>, list: Seq<u32>)
    requires
        list.no_duplicates(),
        forall|k: int| 0 <= k < list.len() ==> (#[trigger] list[k]) <= 1,
    ensures
        listed_forces(forces, snaps, 0, list) == (if list.contains(1u32) {
            pair_forces(forces, snaps, 0, 1)
        } else {
            forces
        }),
    decreases list.len(),
{
    if list.len() > 0 {
        let rest = list.drop_last();
        let n = list.len() - 1;
        assert(rest.no_duplicates()) by {
            assert forall|j: int, k: int| 0 <= j < rest.len() && 0 <= k < rest.len() && j != k implies rest[j]
                != rest[k] by {
                assert(list[j] != list[k]);
            }
        }
        assert forall|k: int| 0 <= k < rest.len() implies (#[trigger] rest[k]) <= 1 by {
            assert(list[k] <= 1);
        }
        lemma_one_partner(forces, snaps, rest);
        assert(list[n] <= 1);
        if rest.contains(1u32) {
            let k = choose|k: int| 0 <= k < rest.len() && rest[k] == 1u32;
            assert(list[k] == 1u32);
            assert(list[k] != list[n]);
        } else if list.contains(1u32) {
            let k = choose|k: int| 0 <= k < list.len() && list[k] == 1u32;
            if k < n {
                assert(rest[k] == 1u32);
            }
        }
    }
}

/// Two troops on the ground that overlap push each other, each exactly once; in fixed point, for
/// bodies of a radius of less than one and a half.
pub proof fn overlapping_pairs_push_once(a: UnitSnap<Fixed>, b: UnitSnap<Fixed>)
    requires
        a.kind == UnitKind::Troop,
        b.kind == UnitKind::Troop,
        !a.flying,
        !b.flying,
        sane_pos(a.pos),
        sane_pos(b.pos),
        0 < a.radius.raw < 98304,
        0 < b.radius.raw < 98304,
        push_spec(a, b).is_some(),
    ensures
        forces_upto(seq![a, b], 2) == pair_forces(seq![Vec3::<Fixed>::origin(), Vec3::<Fixed>::origin()], seq![a, b], 0, 1),
{
    let snaps = seq![a, b];
    lemma_numbers();
    let radius = a.radius.plus(monster_radius_max());
    assert(radius.raw == a.radius.raw + 98304);
    let list = in_circle_spec(grid_of(snaps), a.pos, radius);
    let other = in_circle_spec(grid_of(snaps), b.pos, b.radius.plus(monster_radius_max()));
    circles_list_once(snaps, a.pos, radius);
    circles_list_once(snaps, b.pos, b.radius.plus(monster_radius_max()));
    assert(margin(radius.raw as int) <= 2);
    circle_misses_nobody(snaps, a.pos, radius, 1);
    let none = Seq::new(snaps.len(), |k: int| Vec3::<Fixed>::origin());
    assert(none =~= seq![Vec3::<Fixed>::origin(), Vec3::<Fixed>::origin()]);
    assert forall|k: int| 0 <= k < list.len() implies (#[trigger] list[k]) <= 1 by {
        assert(list[k] < snaps.len());
    }
    assert forall|k: int| 0 <= k < other.len() implies (#[trigger] other[k]) <= 1 by {
        assert(other[k] < snaps.len());
    }
    lemma_one_partner(none, snaps, list);
    reveal_with_fuel(forces_upto, 3);
    assert(forces_upto(snaps, 1) == listed_forces(none, snaps, 0, list));
    lemma_nobody_before(forces_upto(snaps, 1), snaps, 1, other);
}

proof fn lemma_one_obstacle<S: Scalar>(pos: Vec3<S>, radius: S, units: Seq<Actor<S>>, kind: UnitKind, k: int)
    requires
        kind != UnitKind::Troop,
        forall|j: int| 0 <= j < units.len() && j != k ==> (#[trigger] units[j]).unit.kind == UnitKind::Troop,
    ensures
        cleared_of(pos, radius, units, kind) == (if 0 <= k < units.len() && units[k].unit.kind == kind {
            push_out_spec(pos, radius, units[k].pos, units[k].unit.radius)
        } else {
            pos
        }),
    decreases units.len(),
{
    if units.len() > 0 {
        let rest = units.drop_last();
        assert forall|j: int| 0 <= j < rest.len() && j != k implies (#[trigger] rest[j]).unit.kind == UnitKind::Troop by {
            assert(units[j].unit.kind == UnitKind::Troop);
        }
        lemma_one_obstacle(pos, radius, rest, kind, k);
        if k != units.len() - 1 {
            assert(units[units.len() - 1].unit.kind == UnitKind::Troop);
        }
    }
}

/// A troop on the ground is kept out of a tower or a building, whatever else is around; other
/// troops are no obstacle.
pub proof fn structures_block_the_way<S: Scalar>(a: Actor<S>, units: Seq<Actor<S>>, k: int)
    requires
        a.unit.kind == UnitKind::Troop,
        !a.flying,
        0 <= k < units.len(),
        units[k].unit.kind != UnitKind::Troop,
        forall|j: int| 0 <= j < units.len() && j != k ==> (#[trigger] units[j]).unit.kind == UnitKind::Troop,
    ensures
        unblocked(a, units).pos == push_out_spec(a.pos, a.unit.radius, units[k].pos, units[k].unit.radius),
        unblocked(a, units) == (Actor { pos: unblocked(a, units).pos, ..a }),
{
    lemma_one_obstacle(a.pos, a.unit.radius, units, UnitKind::Tower, k);
    let p = cleared_of(a.pos, a.unit.radius, units, UnitKind::Tower);
    lemma_one_obstacle(p, a.unit.radius, units, UnitKind::Building, k);
}

/// In the compact battle bodies push as they do elsewhere: by the same pushes, shared by mass, with
/// the same cap, and out of structures by as much.
pub proof fn monsters_push_alike<S: Scalar>(a: Monster<S>, b: Monster<S>, forces: Seq<Vec3<S>>, unit: Actor<S>, force: Vec3<S>)
    requires
        forces.len() == 2,
        !a.flying,
        !b.flying,
        unit.pos == a.pos,
    ensures
        shove(&a, &b) == push_spec(monster_snap(&a), monster_snap(&b)),
        paired(forces, seq![a, b], 0, 1) == pair_forces(forces, seq![monster_snap(&a), monster_snap(&b)], 0, 1),
        shoved(a, force) == (Monster { pos: pushed_spec(unit, force).pos, ..a }),
        nudged(a.pos, a.radius, b.pos, b.radius) == push_out_spec(a.pos, a.radius, b.pos, b.radius),
{
}

/// Two monsters push each other once.
pub proof fn monsters_push_once<S: Scalar>(a: Monster<S>, b: Monster<S>)
    ensures
        all_paired(seq![a, b], 2) == paired(seq![Vec3::<S>::origin(), Vec3::<S>::origin()], seq![a, b], 0, 1),
{
    let ms = seq![a, b];
    let none = Seq::new(ms.len(), |k: int| Vec3::<S>::origin());
    assert(none =~= seq![Vec3::<S>::origin(), Vec3::<S>::origin()]);
    reveal_with_fuel(all_paired, 3);
    reveal_with_fuel(row_paired, 3);
}

/// A monster on the ground is kept out of towers and out of buildings.
pub proof fn monsters_are_kept_out<S: Scalar>(m: Monster<S>, t: Tower<S>, b: BuildingCard<S>)
    requires
        !m.flying,
    ensures
        kept_off(m, seq![t], Seq::empty()) == (Monster { pos: push_out_spec(m.pos, m.radius, t.pos, t.radius), ..m }),
        kept_off(m, Seq::empty(), seq![b]) == (Monster { pos: push_out_spec(m.pos, m.radius, b.pos, b.radius), ..m }),
        kept_off(m, seq![t], seq![b]).pos == push_out_spec(
            push_out_spec(m.pos, m.radius, t.pos, t.radius),
            m.radius,
            b.pos,
            b.radius,
        ),
{
    reveal_with_fuel(clear_of_towers, 2);
    reveal_with_fuel(clear_of_buildings, 2);
    assert(seq![t].drop_last() =~= Seq::empty());
    assert(seq![b].drop_last() =~= Seq::empty());
}

} // verus!
