//! The choice of targets.
//!
//! Troops seek: the nearest enemy within sight, be it troop, tower or building; with none in
//! sight they march on the nearest enemy structure. While engaged they stay with their target
//! until it is gone or out of reach. Structures guard: the nearest enemy troop in reach, for
//! as long as it stays in reach.

use std::collections::HashMap;
use vstd::prelude::*;

use super::grid::{
    cell_of, column, entries_below, nearest_in_grid, row, Seeker, SpatialGrid,
};
use super::{can_target, edge_dist, UnitSnap};
use crate::buffs::{channels_of, channels_spec, status_models, statuses_wf, BuffModel, Buffs};
use crate::components::{Actor, Attacker, TargetPolicy, UnitKind};
use crate::constants::{reach_slack, CELLS};
use crate::scalar::Scalar;

verus! {

broadcast use vstd::std_specs::hash::group_hash_axioms;

/// A unit in the picture of the field.
#[verifier::allow_in_spec]
pub fn snap_of<S: Scalar>(a: &Actor<S>) -> UnitSnap<S>
    returns
        (UnitSnap {
            entity: a.entity,
            kind: a.unit.kind,
            faction: a.unit.faction,
            pos: a.pos,
            radius: a.unit.radius,
            mass: a.unit.mass,
            flying: a.flying,
        }),
{
    UnitSnap {
        entity: a.entity,
        kind: a.unit.kind,
        faction: a.unit.faction,
        pos: a.pos,
        radius: a.unit.radius,
        mass: a.unit.mass,
        flying: a.flying,
    }
}

/// The units of one kind, in order.
pub open spec fn of_kind<S: Scalar>(units: Seq<Actor<S>>, kind: UnitKind) -> Seq<UnitSnap<S>>
    decreases units.len(),
{
    if units.len() == 0 {
        Seq::empty()
    } else {
        let rest = of_kind(units.drop_last(), kind);
        if units.last().unit.kind == kind { rest.push(snap_of(&units.last())) } else { rest }
    }
}

/// The picture of the field: troops, towers and buildings, each in their own order.
pub open spec fn snapshot<S: Scalar>(units: Seq<Actor<S>>) -> Seq<UnitSnap<S>> {
    of_kind(units, UnitKind::Troop) + of_kind(units, UnitKind::Tower) + of_kind(
        units,
        UnitKind::Building,
    )
}

/// The grid of a picture: the places of the troops, by cell.
pub open spec fn grid_of<S: Scalar>(snaps: Seq<UnitSnap<S>>) -> Seq<Seq<u32>>
    decreases snaps.len(),
{
    if snaps.len() == 0 {
        Seq::new(CELLS as nat, |c: int| Seq::<u32>::empty())
    } else {
        let g = grid_of(snaps.drop_last());
        let c = cell_of(snaps.last().pos);
        if snaps.last().kind == UnitKind::Troop {
            g.update(c, g[c].push((snaps.len() - 1) as u32))
        } else {
            g
        }
    }
}

/// Where each entity stands in a picture.
pub open spec fn index_of<S: Scalar>(snaps: Seq<UnitSnap<S>>) -> Map<u64, u32>
    decreases snaps.len(),
{
    if snaps.len() == 0 {
        Map::empty()
    } else {
        index_of(snaps.drop_last()).insert(snaps.last().entity, (snaps.len() - 1) as u32)
    }
}

/// The unit with this entity, if it is in the picture.
pub open spec fn lookup<S: Scalar>(snaps: Seq<UnitSnap<S>>, entity: u64) -> Option<UnitSnap<S>> {
    if index_of(snaps).contains_key(entity) {
        Some(snaps[index_of(snaps)[entity] as int])
    } else {
        None
    }
}

/// The grid of a picture has all cells, and points into the picture.
pub proof fn lemma_grid_of<S: Scalar>(snaps: Seq<UnitSnap<S>>)
    ensures
        grid_of(snaps).len() == CELLS,
        entries_below(grid_of(snaps), snaps.len() as int),
    decreases snaps.len(),
{
    if snaps.len() > 0 {
        let last = snaps.last();
        lemma_grid_of(snaps.drop_last());
        let g = grid_of(snaps.drop_last());
        let c = cell_of(last.pos);
        assert(0 <= column(last.pos.x) < 16);
        assert(0 <= row(last.pos.z) < 24);
        assert(0 <= c < CELLS);
        let h = grid_of(snaps);
        assert forall|d: int, k: int| 0 <= d < h.len() && 0 <= k < h[d].len() implies (
        #[trigger] h[d][k]) < snaps.len() by {
            if d == c && last.kind == UnitKind::Troop {
                if k < g[c].len() {
                    assert(g[c][k] < snaps.len() - 1);
                }
            } else {
                assert(g[d][k] < snaps.len() - 1);
            }
        }
    }
}

/// The index points into the picture.
pub proof fn lemma_index_of<S: Scalar>(snaps: Seq<UnitSnap<S>>)
    ensures
        forall|e: u64| #[trigger]
            index_of(snaps).contains_key(e) ==> index_of(snaps)[e] < snaps.len(),
    decreases snaps.len(),
{
    if snaps.len() > 0 {
        lemma_index_of(snaps.drop_last());
        let before = index_of(snaps.drop_last());
        assert forall|e: u64| #[trigger] index_of(snaps).contains_key(e) implies index_of(snaps)[e]
            < snaps.len() by {
            if e != snaps.last().entity {
                assert(before.contains_key(e));
            }
        }
    }
}

/// The picture of the field that one tick works with.
#[derive(Debug)]
pub struct WorldSnaps<S> {
    pub snaps: Vec<UnitSnap<S>>,
    pub grid: SpatialGrid,
    pub index: HashMap<u64, u32>,
}

impl<S: Scalar> WorldSnaps<S> {
    /// Grid and index are those of the units in the picture.
    pub open spec fn wf(&self) -> bool {
        &&& self.grid@ == grid_of(self.snaps@)
        &&& self.index@ == index_of(self.snaps@)
        &&& self.grid@.len() == CELLS
        &&& entries_below(self.grid@, self.snaps@.len() as int)
    }

    /// Takes the picture of the field.
    pub fn take(units: &Vec<Actor<S>>) -> (r: Self)
        ensures
            r.wf(),
            r.snaps@ == snapshot(units@),
    {
        let mut snaps: Vec<UnitSnap<S>> = Vec::new();
        push_kind(units, UnitKind::Troop, &mut snaps);
        push_kind(units, UnitKind::Tower, &mut snaps);
        push_kind(units, UnitKind::Building, &mut snaps);
        assert(snaps@ =~= snapshot(units@));
        proof {
            lemma_grid_of(snaps@);
        }
        let mut grid: SpatialGrid = SpatialGrid::new();
        let mut index: HashMap<u64, u32> = HashMap::new();
        let n: usize = snaps.len();
        assert(snaps@.take(0) =~= Seq::<UnitSnap<S>>::empty());
        assert(index@ =~= Map::<u64, u32>::empty());
        for i in 0..n
            invariant
                n == snaps@.len(),
                grid@.len() == CELLS,
                grid@ == grid_of(snaps@.take(i as int)),
                index@ == index_of(snaps@.take(i as int)),
        {
            let s: UnitSnap<S> = snaps[i];
            assert(snaps@.take(i + 1).drop_last() =~= snaps@.take(i as int));
            if s.kind == UnitKind::Troop {
                grid.insert(s.pos, i as u32);
            }
            index.insert(s.entity, i as u32);
        }
        assert(snaps@.take(n as int) =~= snaps@);
        WorldSnaps { snaps, grid, index }
    }

    /// The unit with this entity, if it is in the picture.
    pub fn get(&self, entity: u64) -> (r: Option<UnitSnap<S>>)
        requires
            self.wf(),
        ensures
            r == lookup(self.snaps@, entity),
    {
        proof {
            lemma_index_of(self.snaps@);
        }
        match self.index.get(&entity) {
            Some(i) => Some(self.snaps[*i as usize]),
            None => None,
        }
    }
}

fn push_kind<S: Scalar>(units: &Vec<Actor<S>>, kind: UnitKind, out: &mut Vec<UnitSnap<S>>)
    ensures
        final(out)@ == old(out)@ + of_kind(units@, kind),
{
    let n: usize = units.len();
    assert(units@.take(0) =~= Seq::<Actor<S>>::empty());
    assert(out@ =~= old(out)@ + of_kind(units@.take(0), kind));
    for i in 0..n
        invariant
            n == units@.len(),
            out@ == old(out)@ + of_kind(units@.take(i as int), kind),
    {
        assert(units@.take(i + 1).drop_last() =~= units@.take(i as int));
        if units[i].unit.kind == kind {
            out.push(snap_of(&units[i]));
        }
        assert(out@ =~= old(out)@ + of_kind(units@.take(i + 1), kind));
    }
    assert(units@.take(n as int) =~= units@);
}

/// The nearest acceptable troop.
pub open spec fn nearest_monster_spec<S: Scalar>(
    snaps: Seq<UnitSnap<S>>,
    seeker: Seeker<S>,
) -> Option<(S, u32)> {
    nearest_in_grid(snaps, seeker, grid_of(snaps), seeker.max_center())
}

/// Whether `s` is an enemy structure in range.
pub open spec fn accepts_static<S: Scalar>(seeker: Seeker<S>, range: S, s: UnitSnap<S>) -> bool {
    &&& s.is_building_kind()
    &&& s.faction != seeker.faction
    &&& s.entity != seeker.entity
    &&& edge_dist(seeker.pos, seeker.radius, s.pos, s.radius).at_most(range)
}

/// The nearest enemy structure in range: of equally near ones the first.
pub open spec fn nearest_static_spec<S: Scalar>(
    snaps: Seq<UnitSnap<S>>,
    seeker: Seeker<S>,
    range: S,
) -> Option<(S, u32)>
    decreases snaps.len(),
{
    if snaps.len() == 0 {
        None
    } else {
        let best = nearest_static_spec(snaps.drop_last(), seeker, range);
        let d2 = seeker.pos.distance_squared(snaps.last().pos);
        if accepts_static(seeker, range, snaps.last()) && (best.is_none() || d2.less((best->0).0)) {
            Some((d2, (snaps.len() - 1) as u32))
        } else {
            best
        }
    }
}

fn nearest_static<S: Scalar>(snaps: &Vec<UnitSnap<S>>, seeker: &Seeker<S>, range: S) -> (r: Option<
    (S, u32),
>)
    ensures
        r == nearest_static_spec(snaps@, *seeker, range),
        r matches Some((_, i)) ==> i < snaps@.len(),
{
    let mut best: Option<(S, u32)> = None;
    let n: usize = snaps.len();
    for i in 0..n
        invariant
            n == snaps@.len(),
            best == nearest_static_spec(snaps@.take(i as int), *seeker, range),
            best matches Some((_, k)) ==> k < n,
    {
        let s: &UnitSnap<S> = &snaps[i];
        assert(snaps@.take(i + 1).drop_last() =~= snaps@.take(i as int));
        if s.is_building_kind() && s.faction != seeker.faction && s.entity != seeker.entity
            && edge_dist(seeker.pos, seeker.radius, s.pos, s.radius).at_most(range) {
            let d2: S = seeker.pos.distance_squared(s.pos);
            let wins: bool = match best {
                Some((d, _)) => d2.less(d),
                None => true,
            };
            if wins {
                best = Some((d2, i as u32));
            }
        }
    }
    assert(snaps@.take(n as int) =~= snaps@);
    best
}

/// The nearer of a troop and a structure; the troop, if both are equally near.
#[verifier::allow_in_spec]
pub fn merge_nearest<S: Scalar>(monster: Option<(S, u32)>, fixture: Option<(S, u32)>) -> Option<
    (S, u32),
>
    returns
        (match (monster, fixture) {
            (Some(m), Some(s)) => if m.0.at_most(s.0) { Some(m) } else { Some(s) },
            (Some(m), None) => Some(m),
            (None, s) => s,
        }),
{
    match (monster, fixture) {
        (Some(m), Some(s)) => if m.0.at_most(s.0) {
            Some(m)
        } else {
            Some(s)
        },
        (Some(m), None) => Some(m),
        (None, s) => s,
    }
}

/// Who looks for a target, and how far.
#[verifier::allow_in_spec]
pub fn seeker_of<S: Scalar>(a: &Actor<S>, att: &Attacker<S>, range: S) -> Seeker<S>
    returns
        (Seeker {
            entity: a.entity,
            faction: a.unit.faction,
            pos: a.pos,
            radius: a.unit.radius,
            range,
            hits_air: att.hits_air,
        }),
{
    Seeker {
        entity: a.entity,
        faction: a.unit.faction,
        pos: a.pos,
        radius: a.unit.radius,
        range,
        hits_air: att.hits_air,
    }
}

/// The entity behind a search result.
pub open spec fn found_entity<S: Scalar>(snaps: Seq<UnitSnap<S>>, found: Option<(S, u32)>) -> Option<u64> {
    match found {
        Some((_, i)) => Some(snaps[i as int].entity),
        None => None,
    }
}

/// Whether a guard keeps its target: an enemy it can hit, still in reach.
pub open spec fn guard_keeps<S: Scalar>(a: Actor<S>, att: Attacker<S>, snaps: Seq<UnitSnap<S>>) -> bool {
    att.target matches Some(e) && lookup(snaps, e) matches Some(s) && {
        &&& s.faction != a.unit.faction
        &&& can_target(att.hits_air, false, &s)
        &&& !att.attack_range.less(edge_dist(a.pos, a.unit.radius, s.pos, s.radius))
    }
}

/// A guard with its target for this tick.
pub open spec fn guarding<S: Scalar>(a: Actor<S>, att: Attacker<S>, snaps: Seq<UnitSnap<S>>) -> Attacker<S> {
    if guard_keeps(a, att, snaps) {
        att
    } else {
        Attacker {
            target: found_entity(
                snaps,
                nearest_monster_spec(snaps, seeker_of(&a, &att, att.attack_range)),
            ),
            ..att
        }
    }
}

/// Whether a seeker keeps its target: an enemy, and if engaged still in reach.
pub open spec fn seeker_keeps<S: Scalar>(a: Actor<S>, att: Attacker<S>, snaps: Seq<UnitSnap<S>>) -> bool {
    att.target matches Some(e) && lookup(snaps, e) matches Some(s) && {
        &&& s.faction != a.unit.faction
        &&& !(att.engaged && att.attack_range.plus(reach_slack()).less(
            edge_dist(a.pos, a.unit.radius, s.pos, s.radius),
        ))
    }
}

/// The target of a troop that is not engaged: the nearest in sight, else the nearest structure.
pub open spec fn sought<S: Scalar>(
    a: Actor<S>,
    att: Attacker<S>,
    aggro_range: S,
    building_only: bool,
    snaps: Seq<UnitSnap<S>>,
) -> Option<u64> {
    let seeker = seeker_of(&a, &att, aggro_range);
    let fixture = nearest_static_spec(snaps, seeker, aggro_range);
    let in_sight = if building_only {
        fixture
    } else {
        merge_nearest(nearest_monster_spec(snaps, seeker), fixture)
    };
    found_entity(
        snaps,
        if in_sight.is_some() {
            in_sight
        } else {
            nearest_static_spec(snaps, seeker, S::infinity())
        },
    )
}

/// A seeker with its target for this tick.
pub open spec fn seeking<S: Scalar>(
    a: Actor<S>,
    att: Attacker<S>,
    aggro_range: S,
    building_only: bool,
    snaps: Seq<UnitSnap<S>>,
) -> Attacker<S> {
    let lost = att.target.is_some() && !seeker_keeps(a, att, snaps);
    if att.engaged && !lost {
        att
    } else {
        Attacker { target: sought(a, att, aggro_range, building_only, snaps), engaged: false, ..att }
    }
}

/// A unit with its target for this tick; unchanged if it cannot attack or may not look.
pub open spec fn targeted<S: Scalar>(
    a: Actor<S>,
    status: Option<Seq<BuffModel<S>>>,
    snaps: Seq<UnitSnap<S>>,
) -> Actor<S> {
    match (a.attacker, a.targeting) {
        (Some(att), Some(policy)) if !channels_spec(status).cannot_seek => Actor {
            attacker: Some(
                match policy {
                    TargetPolicy::Guard => guarding(a, att, snaps),
                    TargetPolicy::Seek { aggro_range, building_only } => seeking(
                        a,
                        att,
                        aggro_range,
                        building_only,
                        snaps,
                    ),
                },
            ),
            ..a
        },
        _ => a,
    }
}

/// All units with their targets for this tick.
pub open spec fn targeting_spec<S: Scalar>(
    units: Seq<Actor<S>>,
    statuses: Seq<Option<Seq<BuffModel<S>>>>,
) -> Seq<Actor<S>> {
    Seq::new(units.len(), |i: int| targeted(units[i], statuses[i], snapshot(units)))
}

fn nearest_monster<S: Scalar>(world: &WorldSnaps<S>, seeker: &Seeker<S>) -> (r: Option<(S, u32)>)
    requires
        world.wf(),
    ensures
        r == nearest_monster_spec(world.snaps@, *seeker),
        r matches Some((_, i)) ==> i < world.snaps@.len(),
{
    world.grid.query_nearest(&world.snaps, seeker, seeker.max_center())
}

fn entity_at<S: Scalar>(snaps: &Vec<UnitSnap<S>>, found: Option<(S, u32)>) -> (r: Option<u64>)
    requires
        found matches Some((_, i)) ==> i < snaps@.len(),
    ensures
        r == found_entity(snaps@, found),
{
    match found {
        Some((_, i)) => Some(snaps[i as usize].entity),
        None => None,
    }
}

fn guard<S: Scalar>(a: &Actor<S>, att: Attacker<S>, world: &WorldSnaps<S>) -> (r: Attacker<S>)
    requires
        world.wf(),
    ensures
        r == guarding(*a, att, world.snaps@),
{
    let keeps: bool = match att.target {
        Some(e) => match world.get(e) {
            Some(s) => s.faction != a.unit.faction && can_target(att.hits_air, false, &s)
                && !att.attack_range.less(edge_dist(a.pos, a.unit.radius, s.pos, s.radius)),
            None => false,
        },
        None => false,
    };
    if keeps {
        att
    } else {
        let found: Option<(S, u32)> = nearest_monster(world, &seeker_of(a, &att, att.attack_range));
        Attacker { target: entity_at(&world.snaps, found), ..att }
    }
}

fn seek<S: Scalar>(
    a: &Actor<S>,
    att: Attacker<S>,
    aggro_range: S,
    building_only: bool,
    world: &WorldSnaps<S>,
) -> (r: Attacker<S>)
    requires
        world.wf(),
    ensures
        r == seeking(*a, att, aggro_range, building_only, world.snaps@),
{
    let lost: bool = match att.target {
        Some(e) => match world.get(e) {
            Some(s) => s.faction == a.unit.faction || (att.engaged && att.attack_range.plus(
                reach_slack(),
            ).less(edge_dist(a.pos, a.unit.radius, s.pos, s.radius))),
            None => true,
        },
        None => false,
    };
    if att.engaged && !lost {
        return att;
    }
    let seeker: Seeker<S> = seeker_of(a, &att, aggro_range);
    let fixture: Option<(S, u32)> = nearest_static(&world.snaps, &seeker, aggro_range);
    let in_sight: Option<(S, u32)> = if building_only {
        fixture
    } else {
        merge_nearest(nearest_monster(world, &seeker), fixture)
    };
    let found: Option<(S, u32)> = if in_sight.is_some() {
        in_sight
    } else {
        nearest_static(&world.snaps, &seeker, S::infinity())
    };
    Attacker { target: entity_at(&world.snaps, found), engaged: false, ..att }
}

/// Gives every unit that may look for one its target, and hands out the picture of the field
/// that the choice was made on.
pub fn targeting<S: Scalar>(units: &mut Vec<Actor<S>>, buffs: &Vec<Option<Buffs<S>>>) -> (r: WorldSnaps<
    S,
>)
    requires
        buffs@.len() == old(units)@.len(),
        statuses_wf(buffs@),
    ensures
        final(units)@ == targeting_spec(old(units)@, status_models(buffs@)),
        r.wf(),
        r.snaps@ == snapshot(old(units)@),
{
    let world: WorldSnaps<S> = WorldSnaps::take(units);
    let n: usize = units.len();
    let ghost st = status_models(buffs@);
    let ghost before = units@;
    for i in 0..n
        invariant
            n == before.len(),
            n == units@.len(),
            buffs@.len() == n,
            st == status_models(buffs@),
            statuses_wf(buffs@),
            world.wf(),
            world.snaps@ == snapshot(before),
            forall|j: int| i <= j < n ==> units@[j] == before[j],
            forall|j: int| 0 <= j < i ==> units@[j] == targeted(before[j], st[j], snapshot(before)),
    {
        let a: Actor<S> = units[i];
        assert(buffs@[i as int] matches Some(b) ==> b.wf());
        match (a.attacker, a.targeting) {
            (Some(att), Some(policy)) => {
                if !channels_of(&buffs[i]).cannot_seek {
                    let chosen: Attacker<S> = match policy {
                        TargetPolicy::Guard => guard(&a, att, &world),
                        TargetPolicy::Seek { aggro_range, building_only } => seek(
                            &a,
                            att,
                            aggro_range,
                            building_only,
                            &world,
                        ),
                    };
                    units[i] = Actor { attacker: Some(chosen), ..a };
                }
            },
            _ => {},
        }
    }
    assert(units@ =~= targeting_spec(before, st));
    world
}

/// An engaged unit whose target is there and in reach stays with it, whoever comes nearer.
pub proof fn engaged_units_hold_on<S: Scalar>(
    a: Actor<S>,
    status: Option<Seq<BuffModel<S>>>,
    snaps: Seq<UnitSnap<S>>,
)
    requires
        a.attacker matches Some(att) && att.engaged && seeker_keeps(a, att, snaps),
        a.targeting matches Some(TargetPolicy::Seek { .. }),
    ensures
        targeted(a, status, snaps) == a,
{
}

/// A unit that may not look around changes nothing about its target.
pub proof fn blinded_units_do_not_look<S: Scalar>(
    a: Actor<S>,
    status: Option<Seq<BuffModel<S>>>,
    snaps: Seq<UnitSnap<S>>,
)
    requires
        channels_spec(status).cannot_seek,
    ensures
        targeted(a, status, snaps) == a,
{
}

/// Looking for targets changes nothing but targets.
pub proof fn looking_only_targets<S: Scalar>(
    a: Actor<S>,
    status: Option<Seq<BuffModel<S>>>,
    snaps: Seq<UnitSnap<S>>,
)
    ensures
        targeted(a, status, snaps) == (Actor { attacker: targeted(a, status, snaps).attacker, ..a }),
        a.attacker matches Some(att) ==> targeted(a, status, snaps).attacker matches Some(b) && b == (
        Attacker { target: b.target, engaged: b.engaged, ..att }),
{
}

/// What `nearest_static_spec` finds is an enemy structure in range, and none is nearer.
pub proof fn nearest_static_is_nearest<S: Scalar>(snaps: Seq<UnitSnap<S>>, seeker: Seeker<S>, range: S)
    requires
        snaps.len() <= u32::MAX,
    ensures
        match nearest_static_spec(snaps, seeker, range) {
            Some((d2, i)) => {
                &&& i < snaps.len()
                &&& accepts_static(seeker, range, snaps[i as int])
                &&& d2 == seeker.pos.distance_squared(snaps[i as int].pos)
                &&& forall|j: int|
                    0 <= j < snaps.len() && accepts_static(seeker, range, #[trigger] snaps[j])
                        ==> !seeker.pos.distance_squared(snaps[j].pos).less(d2)
            },
            None => forall|j: int|
                0 <= j < snaps.len() ==> !accepts_static(seeker, range, #[trigger] snaps[j]),
        },
    decreases snaps.len(),
{
    if snaps.len() > 0 {
        let rest = snaps.drop_last();
        nearest_static_is_nearest(rest, seeker, range);
        let before = nearest_static_spec(rest, seeker, range);
        let last = seeker.pos.distance_squared(snaps.last().pos);
        S::less_irreflexive(last);
        assert(forall|j: int| 0 <= j < rest.len() ==> rest[j] == snaps[j]);
        match nearest_static_spec(snaps, seeker, range) {
            Some((d2, i)) => {
                assert forall|j: int|
                    0 <= j < snaps.len() && accepts_static(
                        seeker,
                        range,
                        #[trigger] snaps[j],
                    ) implies !seeker.pos.distance_squared(snaps[j].pos).less(d2) by {
                    if j < rest.len() {
                        assert(accepts_static(seeker, range, rest[j]));
                        if let Some((b, _)) = before {
                            if d2 != b && seeker.pos.distance_squared(snaps[j].pos).less(d2) {
                                S::less_transitive(seeker.pos.distance_squared(snaps[j].pos), d2, b);
                            }
                        }
                    }
                }
            },
            None => {
                assert forall|j: int| 0 <= j < snaps.len() implies !accepts_static(
                    seeker,
                    range,
                    #[trigger] snaps[j],
                ) by {
                    if j < rest.len() {
                        assert(!accepts_static(seeker, range, rest[j]));
                    }
                }
            },
        }
    }
}

/// Units that go for structures alone never choose a troop.
pub proof fn siege_units_choose_structures<S: Scalar>(
    a: Actor<S>,
    att: Attacker<S>,
    aggro_range: S,
    snaps: Seq<UnitSnap<S>>,
)
    requires
        snaps.len() <= u32::MAX,
    ensures
        sought(a, att, aggro_range, true, snaps) matches Some(e) ==> exists|i: int|
            0 <= i < snaps.len() && (#[trigger] snaps[i]).entity == e && snaps[i].is_building_kind()
                && snaps[i].faction != a.unit.faction,
{
    let seeker = seeker_of(&a, &att, aggro_range);
    nearest_static_is_nearest(snaps, seeker, aggro_range);
    nearest_static_is_nearest(snaps, seeker, S::infinity());
}

/// Everyone on the field is in the picture, once.
pub proof fn snapshot_is_complete<S: Scalar>(units: Seq<Actor<S>>)
    ensures
        snapshot(units).len() == units.len(),
        forall|i: int| 0 <= i < units.len() ==> snapshot(units).contains(snap_of(&#[trigger] units[i])),
{
    lemma_kinds_add_up(units);
    assert forall|i: int| 0 <= i < units.len() implies snapshot(units).contains(
        snap_of(&#[trigger] units[i]),
    ) by {
        let k = units[i].unit.kind;
        let j = lemma_of_kind_contains(units, i);
        let troops = of_kind(units, UnitKind::Troop);
        let towers = of_kind(units, UnitKind::Tower);
        let at = match k {
            UnitKind::Troop => j,
            UnitKind::Tower => troops.len() + j,
            UnitKind::Building => troops.len() + towers.len() + j,
        };
        assert(snapshot(units)[at] == snap_of(&units[i]));
    }
}

/// The picture goes by kind: troops before towers before buildings.
pub proof fn snapshot_is_ranked<S: Scalar>(units: Seq<Actor<S>>)
    ensures
        forall|i: int, j: int|
            0 <= i <= j < snapshot(units).len() ==> (#[trigger] snapshot(units)[i]).kind.rank() <= (
            #[trigger] snapshot(units)[j]).kind.rank(),
{
    lemma_of_kind_is_of_kind(units, UnitKind::Troop);
    lemma_of_kind_is_of_kind(units, UnitKind::Tower);
    lemma_of_kind_is_of_kind(units, UnitKind::Building);
}

proof fn lemma_of_kind_is_of_kind<S: Scalar>(units: Seq<Actor<S>>, kind: UnitKind)
    ensures
        forall|i: int| 0 <= i < of_kind(units, kind).len() ==> (#[trigger] of_kind(units, kind)[i]).kind == kind,
    decreases units.len(),
{
    if units.len() > 0 {
        lemma_of_kind_is_of_kind(units.drop_last(), kind);
    }
}

proof fn lemma_kinds_add_up<S: Scalar>(units: Seq<Actor<S>>)
    ensures
        of_kind(units, UnitKind::Troop).len() + of_kind(units, UnitKind::Tower).len() + of_kind(
            units,
            UnitKind::Building,
        ).len() == units.len(),
    decreases units.len(),
{
    if units.len() > 0 {
        lemma_kinds_add_up(units.drop_last());
    }
}

proof fn lemma_of_kind_contains<S: Scalar>(units: Seq<Actor<S>>, i: int) -> (j: int)
    requires
        0 <= i < units.len(),
    ensures
        0 <= j < of_kind(units, units[i].unit.kind).len(),
        of_kind(units, units[i].unit.kind)[j] == snap_of(&units[i]),
    decreases units.len(),
{
    if i == units.len() - 1 {
        of_kind(units, units[i].unit.kind).len() - 1
    } else {
        let j = lemma_of_kind_contains(units.drop_last(), i);
        assert(units.drop_last()[i] == units[i]);
        j
    }
}

} // verus!
