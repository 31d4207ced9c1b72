//! Whom units go for.

use vstd::prelude::*;

use crate::buffs::{channels_spec, BuffModel};
use crate::combat::grid::{
    column, lemma_ring_in_bounds, reach, ring_cells, row, scan_bucket, scan_cells, search, settled,
    Seeker,
};
use crate::combat::nearest::{grid_finds_the_nearest, margin, sane_pos, FAR};
use crate::combat::picture::{grid_is_exact, lemma_unit_behind, names_are_found, MOST_UNITS};
use crate::combat::targeting::{
    accepts_static, grid_of, nearest_monster_spec, nearest_static_is_nearest, nearest_static_spec,
    seeker_of, snap_of, snapshot, snapshot_is_complete, sought, targeting_spec,
};
use crate::combat::{nearest, targeting, UnitSnap};
use crate::components::{Actor, Attacker, TargetPolicy, UnitKind};
use crate::constants::monster_radius_max;
use crate::fixed::Fixed;
use crate::identity::distinct;
use crate::laws::strikes::gap;
use crate::scalar::Scalar;

verus! {

/// Whether a search has found a troop that the seeker accepts.
spec fn caught<S: Scalar>(best: Option<(S, u32)>, snaps: Seq<UnitSnap<S>>, seeker: Seeker<S>) -> bool {
    best matches Some((d2, i)) ==> i < snaps.len() && snaps[i as int].kind == UnitKind::Troop && seeker.accepts(
        &snaps[i as int],
    ) && d2 == seeker.pos.distance_squared(snaps[i as int].pos)
}

proof fn lemma_bucket_caught<S: Scalar>(
    best: Option<(S, u32)>,
    snaps: Seq<UnitSnap<S>>,
    seeker: Seeker<S>,
    bucket: Seq<u32>,
)
    requires
        caught(best, snaps, seeker),
        forall|k: int|
            0 <= k < bucket.len() ==> (#[trigger] bucket[k]) < snaps.len() && snaps[bucket[k] as int].kind
                == UnitKind::Troop,
    ensures
        caught(scan_bucket(best, snaps, seeker, bucket), snaps, seeker),
    decreases bucket.len(),
{
    if bucket.len() > 0 {
        let rest = bucket.drop_last();
        assert forall|k: int| 0 <= k < rest.len() implies (#[trigger] rest[k]) < snaps.len() && snaps[rest[k] as int].kind
            == UnitKind::Troop by {
            assert(bucket[k] < snaps.len());
        }
        lemma_bucket_caught(best, snaps, seeker, rest);
        assert(bucket[bucket.len() - 1] < snaps.len());
    }
}

proof fn lemma_cells_caught<S: Scalar>(
    best: Option<(S, u32)>,
    snaps: Seq<UnitSnap<S>>,
    seeker: Seeker<S>,
    cells: Seq<int>,
)
    requires
        snaps.len() <= MOST_UNITS,
        caught(best, snaps, seeker),
        forall|c: int| 0 <= c < cells.len() ==> 0 <= (#[trigger] cells[c]) < 384,
    ensures
        caught(scan_cells(best, snaps, seeker, grid_of(snaps), cells), snaps, seeker),
    decreases cells.len(),
{
    if cells.len() > 0 {
        let rest = cells.drop_last();
        assert forall|c: int| 0 <= c < rest.len() implies 0 <= (#[trigger] rest[c]) < 384 by {
            assert(0 <= cells[c] < 384);
        }
        lemma_cells_caught(best, snaps, seeker, rest);
        grid_is_exact(snaps);
        let c = cells[cells.len() - 1];
        let g = grid_of(snaps);
        assert forall|k: int| 0 <= k < g[c].len() implies (#[trigger] g[c][k]) < snaps.len() && snaps[g[c][k] as int].kind
            == UnitKind::Troop by {}
        lemma_bucket_caught(scan_cells(best, snaps, seeker, g, rest), snaps, seeker, g[c]);
    }
}

proof fn lemma_search_caught<S: Scalar>(
    best: Option<(S, u32)>,
    snaps: Seq<UnitSnap<S>>,
    seeker: Seeker<S>,
    r: int,
    rings: int,
)
    requires
        snaps.len() <= MOST_UNITS,
        caught(best, snaps, seeker),
        0 <= r,
    ensures
        caught(search(best, snaps, seeker, grid_of(snaps), r, rings), snaps, seeker),
    decreases rings - r,
{
    let (cx, cz) = (column(seeker.pos.x), row(seeker.pos.z));
    let cells = ring_cells(cx, cz, r);
    assert(0 <= cx < 16 && 0 <= cz < 24);
    lemma_ring_in_bounds(cx, cz, r);
    lemma_cells_caught(best, snaps, seeker, cells);
    let b = scan_cells(best, snaps, seeker, grid_of(snaps), cells);
    if !(settled(b, r) || r >= rings) {
        lemma_search_caught(b, snaps, seeker, r + 1, rings);
    }
}

/// Whether `a` may go for `b` at a range: an enemy within it from edge to edge; a flyer only if `a`
/// hits air.
pub open spec fn sees<S: Scalar>(a: Actor<S>, b: Actor<S>, range: S) -> bool {
    &&& b.unit.faction != a.unit.faction
    &&& b.entity != a.entity
    &&& b.unit.kind == UnitKind::Troop && b.flying ==> (a.attacker->0).hits_air
    &&& gap(a, b).at_most(range)
}

/// Whether unit `j` can be found by the grid: it lies within reason and is not wider than the grid
/// allows.
pub open spec fn findable(a: Actor<Fixed>, b: Actor<Fixed>, range: Fixed) -> bool {
    &&& sane_pos(a.pos)
    &&& sane_pos(b.pos)
    &&& 0 <= range.raw <= FAR
    &&& 0 <= a.unit.radius.raw <= FAR
    &&& 0 <= b.unit.radius.raw
    &&& b.unit.kind == UnitKind::Troop ==> b.unit.radius.raw + margin(range.raw + a.unit.radius.raw + 98304) <= 98304
}

proof fn lemma_place<S: Scalar>(units: Seq<Actor<S>>, p: int) -> (q: int)
    requires
        0 <= p < units.len(),
    ensures
        0 <= q < snapshot(units).len(),
        snapshot(units)[q] == snap_of(&units[p]),
{
    snapshot_is_complete(units);
    assert(snapshot(units).contains(snap_of(&units[p])));
    choose|q: int| 0 <= q < snapshot(units).len() && snapshot(units)[q] == snap_of(&units[p])
}

proof fn lemma_max_center(a: Actor<Fixed>, att: Attacker<Fixed>, range: Fixed)
    requires
        0 <= range.raw <= FAR,
        0 <= a.unit.radius.raw <= FAR,
    ensures
        seeker_of(&a, &att, range).max_center().raw == range.raw + a.unit.radius.raw + 98304,
        monster_radius_max::<Fixed>().raw == 98304,
{
    nearest::lemma_quotient(150int * 65536, 100, 98304);
}

/// A troop that is free to look goes for the nearest enemy in sight, be it a troop or a structure;
/// one that goes for structures alone, for the nearest of those. Whoever is in sight, what it
/// chooses is in sight and no further away.
pub proof fn seekers_choose_the_nearest(
    units: Seq<Actor<Fixed>>,
    next: u64,
    statuses: Seq<Option<Seq<BuffModel<Fixed>>>>,
    i: int,
    j: int,
    sight: Fixed,
    siege: bool,
)
    requires
        distinct(units, next),
        units.len() <= u32::MAX,
        0 <= i < units.len(),
        0 <= j < units.len(),
        units[i].attacker matches Some(att) && !att.engaged,
        units[i].targeting == Some(TargetPolicy::Seek { aggro_range: sight, building_only: siege }),
        !channels_spec(statuses[i]).cannot_seek,
        sees(units[i], units[j], sight),
        siege ==> units[j].unit.kind != UnitKind::Troop,
        findable(units[i], units[j], sight),
    ensures
        exists|t: int|
            0 <= t < units.len() && {
                let a = units[i];
                let b = #[trigger] units[t];
                &&& (targeting_spec(units, statuses)[i].attacker->0).target == Some(b.entity)
                &&& sees(a, b, sight)
                &&& siege ==> b.unit.kind != UnitKind::Troop
                &&& !a.pos.distance_squared(units[j].pos).less(a.pos.distance_squared(b.pos))
            },
{
    let snaps = snapshot(units);
    let a = units[i];
    let att = a.attacker->0;
    let seeker = seeker_of(&a, &att, sight);
    snapshot_is_complete(units);
    let q = lemma_place(units, j);
    nearest_static_is_nearest(snaps, seeker, sight);
    lemma_search_caught(None, snaps, seeker, 0, reach(seeker.max_center()));
    lemma_max_center(a, att, sight);
    let monster = nearest_monster_spec(snaps, seeker);
    let fixture = nearest_static_spec(snaps, seeker, sight);
    if units[j].unit.kind == UnitKind::Troop {
        grid_finds_the_nearest(snaps, seeker, q);
    } else {
        assert(accepts_static(seeker, sight, snaps[q]));
    }
    let in_sight = if siege { fixture } else { targeting::merge_nearest(monster, fixture) };
    let p = (in_sight->0).1 as int;
    let t = lemma_unit_behind(units, p);
    assert(units[t].entity == snaps[p].entity);
    assert(sought(a, att, sight, siege, snaps) == Some(units[t].entity));
}

proof fn lemma_nobody_in_sight(units: Seq<Actor<Fixed>>, i: int, sight: Fixed)
    requires
        units.len() <= u32::MAX,
        0 <= i < units.len(),
        units[i].attacker.is_some(),
        forall|j: int| 0 <= j < units.len() ==> !sees(units[i], #[trigger] units[j], sight),
    ensures
        ({
            let seeker = seeker_of(&units[i], &(units[i].attacker->0), sight);
            &&& nearest_monster_spec(snapshot(units), seeker).is_none()
            &&& nearest_static_spec(snapshot(units), seeker, sight).is_none()
        }),
{
    let snaps = snapshot(units);
    let a = units[i];
    let seeker = seeker_of(&a, &(a.attacker->0), sight);
    snapshot_is_complete(units);
    nearest_static_is_nearest(snaps, seeker, sight);
    lemma_search_caught(None, snaps, seeker, 0, reach(seeker.max_center()));
    if let Some((_, p)) = nearest_monster_spec(snaps, seeker) {
        let t = lemma_unit_behind(units, p as int);
        assert(sees(a, units[t], sight));
    }
    if let Some((_, p)) = nearest_static_spec(snaps, seeker, sight) {
        let t = lemma_unit_behind(units, p as int);
        assert(sees(a, units[t], sight));
    }
}

/// A troop that sees nobody marches on the nearest enemy structure on the field: whatever
/// structure there is, the one that it chooses is no further away.
pub proof fn seekers_fall_back_on_structures(
    units: Seq<Actor<Fixed>>,
    next: u64,
    statuses: Seq<Option<Seq<BuffModel<Fixed>>>>,
    i: int,
    j: int,
    sight: Fixed,
    siege: bool,
)
    requires
        distinct(units, next),
        units.len() <= u32::MAX,
        0 <= i < units.len(),
        0 <= j < units.len(),
        units[i].attacker matches Some(att) && !att.engaged,
        units[i].targeting == Some(TargetPolicy::Seek { aggro_range: sight, building_only: siege }),
        !channels_spec(statuses[i]).cannot_seek,
        forall|k: int| 0 <= k < units.len() ==> !sees(units[i], #[trigger] units[k], sight),
        units[j].unit.kind != UnitKind::Troop,
        units[j].unit.faction != units[i].unit.faction,
    ensures
        exists|t: int|
            0 <= t < units.len() && {
                let b = #[trigger] units[t];
                &&& (targeting_spec(units, statuses)[i].attacker->0).target == Some(b.entity)
                &&& b.unit.kind != UnitKind::Troop
                &&& b.unit.faction != units[i].unit.faction
                &&& !units[i].pos.distance_squared(units[j].pos).less(units[i].pos.distance_squared(b.pos))
            },
{
    let snaps = snapshot(units);
    let a = units[i];
    let att = a.attacker->0;
    let seeker = seeker_of(&a, &att, sight);
    snapshot_is_complete(units);
    lemma_nobody_in_sight(units, i, sight);
    let far = Fixed::infinity();
    nearest_static_is_nearest(snaps, seeker, far);
    let q = lemma_place(units, j);
    assert(units[j].entity != units[i].entity);
    assert(accepts_static(seeker, far, snaps[q]));
    let p = (nearest_static_spec(snaps, seeker, far)->0).1 as int;
    let t = lemma_unit_behind(units, p);
    assert(sought(a, att, sight, siege, snaps) == Some(units[t].entity));
}

/// Without an enemy in sight and without an enemy structure on the field, a troop has no target.
pub proof fn nobody_to_go_for(
    units: Seq<Actor<Fixed>>,
    statuses: Seq<Option<Seq<BuffModel<Fixed>>>>,
    i: int,
    sight: Fixed,
    siege: bool,
)
    requires
        units.len() <= u32::MAX,
        0 <= i < units.len(),
        units[i].attacker matches Some(att) && !att.engaged,
        units[i].targeting == Some(TargetPolicy::Seek { aggro_range: sight, building_only: siege }),
        !channels_spec(statuses[i]).cannot_seek,
        forall|k: int|
            0 <= k < units.len() ==> !sees(units[i], #[trigger] units[k], sight) && (units[k].unit.kind
                == UnitKind::Troop || units[k].unit.faction == units[i].unit.faction),
    ensures
        (targeting_spec(units, statuses)[i].attacker->0).target.is_none(),
{
    let snaps = snapshot(units);
    let a = units[i];
    let att = a.attacker->0;
    let seeker = seeker_of(&a, &att, sight);
    snapshot_is_complete(units);
    lemma_nobody_in_sight(units, i, sight);
    let far = Fixed::infinity();
    nearest_static_is_nearest(snaps, seeker, far);
    if let Some((_, p)) = nearest_static_spec(snaps, seeker, far) {
        let t = lemma_unit_behind(units, p as int);
        assert(!sees(a, units[t], sight));
    }
}

/// A tower or building stays with its target while that is an enemy it can hit in reach; otherwise
/// it takes the nearest enemy troop in reach, and none if there is none.
pub proof fn guards_choose_the_nearest(
    units: Seq<Actor<Fixed>>,
    next: u64,
    statuses: Seq<Option<Seq<BuffModel<Fixed>>>>,
    i: int,
    j: int,
)
    requires
        distinct(units, next),
        units.len() <= u32::MAX,
        0 <= i < units.len(),
        0 <= j < units.len(),
        units[i].attacker matches Some(att) && att.target.is_none() && findable(units[i], units[j], att.attack_range)
            && sees(units[i], units[j], att.attack_range),
        units[i].targeting == Some(TargetPolicy::<Fixed>::Guard),
        units[j].unit.kind == UnitKind::Troop,
        !channels_spec(statuses[i]).cannot_seek,
    ensures
        exists|t: int|
            0 <= t < units.len() && {
                let a = units[i];
                let b = #[trigger] units[t];
                &&& (targeting_spec(units, statuses)[i].attacker->0).target == Some(b.entity)
                &&& sees(a, b, (a.attacker->0).attack_range)
                &&& b.unit.kind == UnitKind::Troop
                &&& !a.pos.distance_squared(units[j].pos).less(a.pos.distance_squared(b.pos))
            },
{
    let snaps = snapshot(units);
    let a = units[i];
    let att = a.attacker->0;
    let seeker = seeker_of(&a, &att, att.attack_range);
    snapshot_is_complete(units);
    let q = lemma_place(units, j);
    lemma_search_caught(None, snaps, seeker, 0, reach(seeker.max_center()));
    lemma_max_center(a, att, att.attack_range);
    grid_finds_the_nearest(snaps, seeker, q);
    let p = (nearest_monster_spec(snaps, seeker)->0).1 as int;
    let t = lemma_unit_behind(units, p);
    assert(units[t].entity == snaps[p].entity);
}

/// A guard keeps an enemy in reach that it can hit, whoever comes nearer, and shoots at nobody out
/// of reach: whatever it aims at after looking is an enemy in reach.
pub proof fn guards_aim_within_reach<S: Scalar>(
    units: Seq<Actor<S>>,
    next: u64,
    statuses: Seq<Option<Seq<BuffModel<S>>>>,
    i: int,
    k: int,
)
    requires
        distinct(units, next),
        units.len() <= MOST_UNITS,
        0 <= i < units.len(),
        0 <= k < units.len(),
        units[i].attacker.is_some(),
        units[i].targeting == Some(TargetPolicy::<S>::Guard),
        !channels_spec(statuses[i]).cannot_seek,
    ensures
        ({
            let a = units[i];
            let att = a.attacker->0;
            let b = units[k];
            let after = targeting_spec(units, statuses)[i];
            &&& att.target == Some(b.entity) && b.unit.faction != a.unit.faction && (b.flying ==> att.hits_air)
                && !att.attack_range.less(gap(a, b)) ==> after == a
            &&& (after.attacker->0).target == Some(b.entity) ==> b.unit.faction != a.unit.faction && (
            !att.attack_range.less(gap(a, b)) || gap(a, b).at_most(att.attack_range))
        }),
{
    let snaps = snapshot(units);
    let a = units[i];
    let att = a.attacker->0;
    let seeker = seeker_of(&a, &att, att.attack_range);
    snapshot_is_complete(units);
    names_are_found(units, next, units[k].entity);
    lemma_search_caught(None, snaps, seeker, 0, reach(seeker.max_center()));
    let after = targeting_spec(units, statuses)[i];
    if (after.attacker->0).target == Some(units[k].entity) {
        if let Some((_, p)) = nearest_monster_spec(snaps, seeker) {
            let t = lemma_unit_behind(units, p as int);
            if t != k {
                assert(units[t].entity != units[k].entity);
            }
        }
    }
}

/// A troop that fights stays with its target while that is an enemy within its reach and half a
/// tenth more; a target that is gone, or out of that reach, is let go, and the troop is free again.
pub proof fn fighters_let_go_out_of_reach<S: Scalar>(
    units: Seq<Actor<S>>,
    next: u64,
    statuses: Seq<Option<Seq<BuffModel<S>>>>,
    i: int,
    k: int,
)
    requires
        distinct(units, next),
        units.len() <= MOST_UNITS,
        0 <= i < units.len(),
        0 <= k < units.len(),
        units[i].attacker matches Some(att) && att.engaged && att.target == Some(units[k].entity),
        units[i].targeting matches Some(TargetPolicy::Seek { .. }),
        !channels_spec(statuses[i]).cannot_seek,
    ensures
        ({
            let (a, b) = (units[i], units[k]);
            let att = a.attacker->0;
            let after = targeting_spec(units, statuses)[i];
            let lost = b.unit.faction == a.unit.faction || att.attack_range.plus(S::ratio(5, 100)).less(gap(a, b));
            &&& !lost ==> after == a
            &&& lost ==> !(after.attacker->0).engaged
        }),
{
    snapshot_is_complete(units);
    names_are_found(units, next, units[k].entity);
}

} // verus!
