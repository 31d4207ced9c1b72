//! Bodies on the ground: crowds push apart, the river is kept clear, structures block the way.
//! Flyers take no part.

use vstd::prelude::*;

use super::attack::lemma_circle_below;
use super::grid::in_circle_spec;
use super::targeting::{grid_of, index_of, WorldSnaps};
use super::UnitSnap;
use crate::components::{Actor, UnitKind};
use crate::constants::{
    bridge_half_width, bridges, max_steering_force, monster_radius_max, river_half_width,
    small_distance, tick_dt,
};
use crate::scalar::{one, zero, Scalar};
use crate::vector::Vec3;

verus! {

broadcast use vstd::std_specs::hash::group_hash_axioms;

/// Whether a unit stands on the ground and can be pushed.
#[verifier::allow_in_spec]
pub fn pushable<S: Scalar>(s: &UnitSnap<S>) -> bool
    returns
        (s.kind == UnitKind::Troop && !s.flying),
{
    s.kind == UnitKind::Troop && !s.flying
}

/// The push between two troops: stronger the closer they are, none unless they overlap.
pub open spec fn push_spec<S: Scalar>(a: UnitSnap<S>, b: UnitSnap<S>) -> Option<Vec3<S>> {
    let diff = a.pos.minus(b.pos).flat();
    let dist = diff.length();
    if dist.less(a.radius.plus(b.radius)) && small_distance::<S>().less(dist) {
        Some(diff.normalized().over(dist))
    } else {
        None
    }
}

/// The forces after the pair `i`, `j` is considered; each pair counts once, at its smaller place.
pub open spec fn pair_forces<S: Scalar>(
    forces: Seq<Vec3<S>>,
    snaps: Seq<UnitSnap<S>>,
    i: int,
    j: int,
) -> Seq<Vec3<S>> {
    let (a, b) = (snaps[i], snaps[j]);
    if j <= i || b.flying {
        forces
    } else {
        match push_spec(a, b) {
            None => forces,
            Some(f) => {
                let mass = a.mass.plus(b.mass);
                forces.update(i, forces[i].plus(f.times(b.mass.over(mass)))).update(
                    j,
                    forces[j].minus(f.times(a.mass.over(mass))),
                )
            },
        }
    }
}

/// The forces after the pairs of `i` with the listed units.
pub open spec fn listed_forces<S: Scalar>(
    forces: Seq<Vec3<S>>,
    snaps: Seq<UnitSnap<S>>,
    i: int,
    list: Seq<u32>,
) -> Seq<Vec3<S>>
    decreases list.len(),
{
    if list.len() == 0 {
        forces
    } else {
        pair_forces(
            listed_forces(forces, snaps, i, list.drop_last()),
            snaps,
            i,
            list.last() as int,
        )
    }
}

/// The forces that the first `n` units of the picture take part in.
pub open spec fn forces_upto<S: Scalar>(snaps: Seq<UnitSnap<S>>, n: int) -> Seq<Vec3<S>>
    decreases n,
{
    if n <= 0 {
        Seq::new(snaps.len(), |k: int| Vec3::<S>::origin())
    } else {
        let before = forces_upto(snaps, n - 1);
        let s = snaps[n - 1];
        if pushable(&s) {
            listed_forces(
                before,
                snaps,
                n - 1,
                in_circle_spec(grid_of(snaps), s.pos, s.radius.plus(monster_radius_max())),
            )
        } else {
            before
        }
    }
}

/// A unit after it was pushed: as far as a capped force takes it in one tick.
pub open spec fn pushed_spec<S: Scalar>(a: Actor<S>, force: Vec3<S>) -> Actor<S> {
    let d = force.flat();
    let mag = d.length();
    if small_distance::<S>().less(mag) {
        let capped = if max_steering_force::<S>().less(mag) {
            d.times(max_steering_force::<S>().over(mag))
        } else {
            d
        };
        a.moved(a.pos.plus(capped.times(tick_dt())))
    } else {
        a
    }
}

/// A unit after the crowd pushed it.
pub open spec fn separated_spec<S: Scalar>(a: Actor<S>, snaps: Seq<UnitSnap<S>>) -> Actor<S> {
    if a.unit.kind == UnitKind::Troop && !a.flying && index_of(snaps).contains_key(a.entity) {
        pushed_spec(a, forces_upto(snaps, snaps.len() as int)[index_of(snaps)[a.entity] as int])
    } else {
        a
    }
}

/// All units after the crowd pushed them.
pub open spec fn separate_spec<S: Scalar>(units: Seq<Actor<S>>, snaps: Seq<UnitSnap<S>>) -> Seq<Actor<S>> {
    Seq::new(units.len(), |i: int| separated_spec(units[i], snaps))
}

fn push<S: Scalar>(a: &UnitSnap<S>, b: &UnitSnap<S>) -> (r: Option<Vec3<S>>)
    ensures
        r == push_spec(*a, *b),
{
    let diff: Vec3<S> = a.pos.minus(b.pos).flat();
    let dist: S = diff.length();
    if dist.less(a.radius.plus(b.radius)) && small_distance::<S>().less(dist) {
        Some(diff.normalized().over(dist))
    } else {
        None
    }
}

fn pushed<S: Scalar>(a: &Actor<S>, force: Vec3<S>) -> (r: Actor<S>)
    ensures
        r == pushed_spec(*a, force),
{
    let d: Vec3<S> = force.flat();
    let mag: S = d.length();
    if small_distance::<S>().less(mag) {
        let capped: Vec3<S> = if max_steering_force::<S>().less(mag) {
            d.times(max_steering_force::<S>().over(mag))
        } else {
            d
        };
        a.moved(a.pos.plus(capped.times(tick_dt())))
    } else {
        *a
    }
}

fn forces<S: Scalar>(world: &WorldSnaps<S>) -> (forces: Vec<Vec3<S>>)
    requires
        world.wf(),
    ensures
        forces@ == forces_upto(world.snaps@, world.snaps@.len() as int),
        forces@.len() == world.snaps@.len(),
{
    let n: usize = world.snaps.len();
    let ghost snaps = world.snaps@;
    let mut forces: Vec<Vec3<S>> = Vec::new();
    for k in 0..n
        invariant
            forces@.len() == k,
            forall|j: int| 0 <= j < k ==> forces@[j] == Vec3::<S>::origin(),
    {
        forces.push(Vec3::origin());
    }
    assert(forces@ =~= forces_upto(snaps, 0));
    for i in 0..n
        invariant
            n == snaps.len(),
            snaps == world.snaps@,
            world.wf(),
            forces@.len() == n,
            forces@ == forces_upto(snaps, i as int),
    {
        let a: UnitSnap<S> = world.snaps[i];
        if pushable(&a) {
            let radius: S = a.radius.plus(monster_radius_max());
            let near: Vec<u32> = world.grid.in_circle(a.pos, radius);
            proof {
                lemma_circle_below(world.grid@, snaps.len() as int, a.pos, radius);
            }
            let ghost before = forces@;
            let m: usize = near.len();
            assert(near@.take(0) =~= Seq::<u32>::empty());
            for k in 0..m
                invariant
                    m == near@.len(),
                    n == snaps.len(),
                    snaps == world.snaps@,
                    i < n,
                    a == snaps[i as int],
                    forall|k: int| 0 <= k < near@.len() ==> (#[trigger] near@[k]) < snaps.len(),
                    forces@.len() == n,
                    forces@ == listed_forces(before, snaps, i as int, near@.take(k as int)),
            {
                assert(near@.take(k + 1).drop_last() =~= near@.take(k as int));
                let j: usize = near[k] as usize;
                if j > i {
                    let b: UnitSnap<S> = world.snaps[j];
                    if !b.flying {
                        if let Some(f) = push(&a, &b) {
                            let mass: S = a.mass.plus(b.mass);
                            let fi: Vec3<S> = forces[i].plus(f.times(b.mass.over(mass)));
                            let fj: Vec3<S> = forces[j].minus(f.times(a.mass.over(mass)));
                            forces[i] = fi;
                            forces[j] = fj;
                        }
                    }
                }
            }
            assert(near@.take(m as int) =~= near@);
        }
    }
    forces
}

/// Pushes troops on the ground apart, by the positions of the picture.
pub fn separate_monsters<S: Scalar>(units: &mut Vec<Actor<S>>, world: &WorldSnaps<S>)
    requires
        world.wf(),
    ensures
        final(units)@ == separate_spec(old(units)@, world.snaps@),
{
    let forces: Vec<Vec3<S>> = forces(world);
    let n: usize = units.len();
    let ghost before = units@;
    for i in 0..n
        invariant
            n == before.len(),
            n == units@.len(),
            world.wf(),
            forces@.len() == world.snaps@.len(),
            forces@ == forces_upto(world.snaps@, world.snaps@.len() as int),
            forall|j: int| i <= j < n ==> units@[j] == before[j],
            forall|j: int| 0 <= j < i ==> units@[j] == separated_spec(before[j], world.snaps@),
    {
        let a: Actor<S> = units[i];
        if a.unit.kind == UnitKind::Troop && !a.flying {
            proof {
                super::targeting::lemma_index_of(world.snaps@);
            }
            if let Some(k) = world.index.get(&a.entity) {
                units[i] = pushed(&a, forces[*k as usize]);
            }
        }
    }
    assert(units@ =~= separate_spec(before, world.snaps@));
}

/// Whether `x` is on a bridge.
#[verifier::allow_in_spec]
pub fn on_bridge<S: Scalar>(x: S) -> bool
    returns
        (x.minus(bridges::<S>().0).magnitude().less(bridge_half_width()) || x.minus(
            bridges::<S>().1,
        ).magnitude().less(bridge_half_width())),
{
    x.minus(bridges::<S>().0).magnitude().less(bridge_half_width()) || x.minus(
        bridges::<S>().1,
    ).magnitude().less(bridge_half_width())
}

/// A position off the river: at the nearer bank unless it was on land or on a bridge, at the
/// far bank from the very middle.
#[verifier::allow_in_spec]
pub fn ashore<S: Scalar>(p: Vec3<S>) -> Vec3<S>
    returns
        (if p.z.magnitude().less(river_half_width()) && !on_bridge(p.x) {
            Vec3 {
                z: (if zero::<S>().at_most(p.z) { one::<S>() } else { one::<S>().negated() }).times(
                    river_half_width(),
                ),
                ..p
            }
        } else {
            p
        }),
{
    if p.z.magnitude().less(river_half_width()) && !on_bridge(p.x) {
        let sign: S = if zero::<S>().at_most(p.z) { one() } else { one::<S>().negated() };
        Vec3 { z: sign.times(river_half_width()), ..p }
    } else {
        p
    }
}

/// A unit kept out of the river; only troops on the ground are.
#[verifier::allow_in_spec]
pub fn dried<S: Scalar>(a: Actor<S>) -> Actor<S>
    returns
        (if a.unit.kind == UnitKind::Troop && !a.flying { a.moved(ashore(a.pos)) } else { a }),
{
    if a.unit.kind == UnitKind::Troop && !a.flying {
        a.moved(ashore(a.pos))
    } else {
        a
    }
}

/// Puts troops on the ground that were pushed into the river back on the bank.
pub fn keep_out_of_river<S: Scalar>(units: &mut Vec<Actor<S>>)
    ensures
        final(units)@ == old(units)@.map_values(|a: Actor<S>| dried(a)),
{
    let n: usize = units.len();
    let ghost before = units@;
    for i in 0..n
        invariant
            n == before.len(),
            n == units@.len(),
            forall|j: int| i <= j < n ==> units@[j] == before[j],
            forall|j: int| 0 <= j < i ==> units@[j] == dried(before[j]),
    {
        let a: Actor<S> = units[i];
        units[i] = dried(a);
    }
    assert(units@ =~= before.map_values(|a: Actor<S>| dried(a)));
}

/// A position moved out of a disc of radius `min_dist`, along the line from its middle.
pub open spec fn push_out_spec<S: Scalar>(pos: Vec3<S>, radius: S, center: Vec3<S>, static_radius: S) -> Vec3<S> {
    let diff = pos.minus(center).flat();
    let dist = diff.length();
    let min_dist = static_radius.plus(radius);
    if dist.less(min_dist) && small_distance::<S>().less(dist) {
        pos.plus(diff.normalized().times(min_dist.minus(dist)))
    } else {
        pos
    }
}

fn push_out<S: Scalar>(pos: Vec3<S>, radius: S, center: Vec3<S>, static_radius: S) -> (r: Vec3<S>)
    ensures
        r == push_out_spec(pos, radius, center, static_radius),
{
    let diff: Vec3<S> = pos.minus(center).flat();
    let dist: S = diff.length();
    let min_dist: S = static_radius.plus(radius);
    if dist.less(min_dist) && small_distance::<S>().less(dist) {
        pos.plus(diff.normalized().times(min_dist.minus(dist)))
    } else {
        pos
    }
}

/// A position moved out of every structure of one kind, one after the other.
pub open spec fn cleared_of<S: Scalar>(
    pos: Vec3<S>,
    radius: S,
    units: Seq<Actor<S>>,
    kind: UnitKind,
) -> Vec3<S>
    decreases units.len(),
{
    if units.len() == 0 {
        pos
    } else {
        let before = cleared_of(pos, radius, units.drop_last(), kind);
        let b = units.last();
        if b.unit.kind == kind {
            push_out_spec(before, radius, b.pos, b.unit.radius)
        } else {
            before
        }
    }
}

/// A unit outside of all structures: first of the towers, then of the buildings.
pub open spec fn unblocked<S: Scalar>(a: Actor<S>, units: Seq<Actor<S>>) -> Actor<S> {
    if a.unit.kind == UnitKind::Troop && !a.flying {
        a.moved(
            cleared_of(
                cleared_of(a.pos, a.unit.radius, units, UnitKind::Tower),
                a.unit.radius,
                units,
                UnitKind::Building,
            ),
        )
    } else {
        a
    }
}

fn clear_of<S: Scalar>(
    pos: Vec3<S>,
    radius: S,
    units: &Vec<Actor<S>>,
    kind: UnitKind,
    Ghost(model): Ghost<Seq<Actor<S>>>,
) -> (r: Vec3<S>)
    requires
        kind != UnitKind::Troop,
        units@.len() == model.len(),
        forall|k: int| 0 <= k < model.len() ==> same_fixture(#[trigger] units@[k], model[k]),
    ensures
        r == cleared_of(pos, radius, model, kind),
{
    let mut p: Vec3<S> = pos;
    let n: usize = units.len();
    assert(model.take(0) =~= Seq::<Actor<S>>::empty());
    for k in 0..n
        invariant
            n == units@.len(),
            n == model.len(),
            kind != UnitKind::Troop,
            forall|k: int| 0 <= k < model.len() ==> same_fixture(#[trigger] units@[k], model[k]),
            p == cleared_of(pos, radius, model.take(k as int), kind),
    {
        assert(model.take(k + 1).drop_last() =~= model.take(k as int));
        assert(same_fixture(units@[k as int], model[k as int]));
        if units[k].unit.kind == kind {
            p = push_out(p, radius, units[k].pos, units[k].unit.radius);
        }
    }
    assert(model.take(n as int) =~= model);
    p
}

/// The same unit, unless it is a troop, which may have moved.
pub open spec fn same_fixture<S: Scalar>(a: Actor<S>, b: Actor<S>) -> bool {
    a.unit == b.unit && (a.unit.kind != UnitKind::Troop ==> a == b)
}

/// Moves troops on the ground out of towers and buildings.
pub fn separate_from_statics<S: Scalar>(units: &mut Vec<Actor<S>>)
    ensures
        final(units)@ == old(units)@.map_values(|a: Actor<S>| unblocked(a, old(units)@)),
{
    let n: usize = units.len();
    let ghost before = units@;
    for i in 0..n
        invariant
            n == before.len(),
            n == units@.len(),
            forall|j: int| i <= j < n ==> units@[j] == before[j],
            forall|j: int| 0 <= j < i ==> units@[j] == unblocked(before[j], before),
    {
        let a: Actor<S> = units[i];
        if a.unit.kind == UnitKind::Troop && !a.flying {
            assert forall|k: int| 0 <= k < before.len() implies same_fixture(
                #[trigger] units@[k],
                before[k],
            ) by {
                assert(units@[k] == before[k] || units@[k] == unblocked(before[k], before));
            }
            let p: Vec3<S> = clear_of(a.pos, a.unit.radius, units, UnitKind::Tower, Ghost(before));
            let p: Vec3<S> = clear_of(p, a.unit.radius, units, UnitKind::Building, Ghost(before));
            units[i] = a.moved(p);
        }
    }
    assert(units@ =~= before.map_values(|a: Actor<S>| unblocked(a, before)));
}

/// Physics moves nothing but troops on the ground.
pub proof fn flyers_and_structures_are_untouched<S: Scalar>(
    a: Actor<S>,
    snaps: Seq<UnitSnap<S>>,
    units: Seq<Actor<S>>,
)
    requires
        a.flying || a.unit.kind != UnitKind::Troop,
    ensures
        separated_spec(a, snaps) == a,
        dried(a) == a,
        unblocked(a, units) == a,
{
}

/// Physics changes nothing but positions.
pub proof fn physics_only_moves<S: Scalar>(a: Actor<S>, snaps: Seq<UnitSnap<S>>, units: Seq<Actor<S>>)
    ensures
        separated_spec(a, snaps) == a.moved(separated_spec(a, snaps).pos),
        dried(a) == a.moved(dried(a).pos),
        unblocked(a, units) == a.moved(unblocked(a, units).pos),
{
}

/// Who is kept out of the river is out of it, or on a bridge, and is left alone from then on.
pub proof fn ashore_is_stable<S: Scalar>(p: Vec3<S>)
    ensures
        ashore(ashore(p)) == ashore(p),
        on_bridge(p.x) || !ashore(p).z.magnitude().less(river_half_width()),
{
    S::unit_factor(125, 100);
    S::less_irreflexive(river_half_width());
}

} // verus!
