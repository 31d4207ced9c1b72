//! What attacks do: who is hurt, how much and how often.

use vstd::prelude::*;

use crate::buffs::{channels_spec, stat_spec, BuffModel};
use crate::combat::{attack, nearest, UnitSnap};
use crate::combat::attack::{
    attacking_spec, blast_fixtures, blast_listed, blasted, hurt_entity, lemma_position_from,
    position, turn, turns, Blast, Fray,
};
use crate::combat::grid::in_circle_spec;
use crate::combat::nearest::{circle_misses_nobody, margin, sane_pos, FAR};
use crate::combat::picture::{
    circles_list_once, named_apart, names_are_found, picture_is_named_apart, MOST_UNITS,
};
use crate::combat::projectile::{fly, move_projectiles_spec};
use crate::combat::targeting::{grid_of, snap_of, snapshot, snapshot_is_complete};
use crate::components::{Actor, Attacker, Projectile, StatKind, UnitKind};
use crate::constants::monster_radius_max;
use crate::fixed::Fixed;
use crate::identity::distinct;
use crate::scalar::{one, zero, Scalar};

verus! {

/// The distance on the ground from edge to edge.
pub open spec fn gap<S: Scalar>(a: Actor<S>, b: Actor<S>) -> S {
    a.pos.minus(b.pos).flat().length().minus(a.unit.radius).minus(b.unit.radius)
}

/// The damage that a unit deals now: more by its factor with a charge that is wound up.
pub open spec fn force<S: Scalar>(a: Actor<S>) -> S {
    let damage = (a.attacker->0).damage;
    match a.charge {
        Some(c) => if c.windup.at_most(c.progress) { damage.times(c.damage_mult) } else { damage },
        None => damage,
    }
}

/// Whether `b` stands around `a` within its splash: an enemy whose disc the splash touches, a
/// flyer only if `a` hits air.
pub open spec fn splashed<S: Scalar>(a: Actor<S>, b: Actor<S>) -> bool {
    let att = a.attacker->0;
    &&& zero::<S>().less(att.splash_radius)
    &&& b.unit.faction != a.unit.faction
    &&& b.flying ==> att.hits_air
    &&& b.pos.minus(a.pos).flat().length().at_most(att.splash_radius.plus(b.unit.radius))
}

/// Whether unit `i` is about to attack unit `k`: it may attack, the other is its target, an enemy
/// and in reach from edge to edge, and the cooldown is over.
pub open spec fn attacks<S: Scalar>(
    units: Seq<Actor<S>>,
    i: int,
    k: int,
    status: Option<Seq<BuffModel<S>>>,
) -> bool {
    let (a, b) = (units[i], units[k]);
    &&& 0 <= i < units.len()
    &&& 0 <= k < units.len()
    &&& a.attacker matches Some(att) && {
        &&& att.target == Some(b.entity)
        &&& !att.attack_range.plus(S::ratio(5, 100)).less(gap(a, b))
        &&& !zero::<S>().less(
            att.cooldown.minus(S::ratio(1, 30).times(stat_spec(status, one(), StatKind::AttackSpeed))),
        )
    }
    &&& b.unit.faction != a.unit.faction
    &&& !channels_spec(status).cannot_attack
}

proof fn lemma_hurt_one<S: Scalar>(units: Seq<Actor<S>>, next: u64, e: u64, damage: S, p: int)
    requires
        distinct(units, next),
        0 <= p < units.len(),
    ensures
        hurt_entity(units, e, damage).len() == units.len(),
        hurt_entity(units, e, damage)[p] == (if units[p].entity == e { units[p].hurt(damage) } else { units[p] }),
        distinct(hurt_entity(units, e, damage), next),
{
    lemma_position_from(units, e, 0);
    let after = hurt_entity(units, e, damage);
    if let Some(k) = position(units, e) {
        if k != p {
            assert(units[k].entity != units[p].entity);
        }
    }
    assert forall|i: int| 0 <= i < after.len() implies (#[trigger] after[i]).entity < next by {
        assert(units[i].entity < next);
    }
    assert forall|i: int, j: int| 0 <= i < after.len() && 0 <= j < after.len() && i != j implies (
    #[trigger] after[i]).entity != (#[trigger] after[j]).entity by {
        assert(units[i].entity != units[j].entity);
    }
}

/// A blast over a list that holds each place once hurts the unit behind place `q` once if it is
/// listed and reached, and not at all otherwise.
proof fn lemma_listed_once<S: Scalar>(
    units: Seq<Actor<S>>,
    next: u64,
    blast: Blast<S>,
    snaps: Seq<UnitSnap<S>>,
    list: Seq<u32>,
    p: int,
    q: int,
)
    requires
        distinct(units, next),
        named_apart(snaps),
        snaps.len() <= MOST_UNITS,
        list.no_duplicates(),
        forall|k: int| 0 <= k < list.len() ==> (#[trigger] list[k]) < snaps.len(),
        0 <= p < units.len(),
        0 <= q < snaps.len(),
        snaps[q].entity == units[p].entity,
    ensures
        ({
            let after = blast_listed(units, blast, snaps, list);
            &&& after.len() == units.len()
            &&& distinct(after, next)
            &&& after[p] == (if list.contains(q as u32) && blast.reaches(&snaps[q]) {
                units[p].hurt(blast.damage)
            } else {
                units[p]
            })
        }),
    decreases list.len(),
{
    if list.len() > 0 {
        let rest = list.drop_last();
        assert(rest.no_duplicates()) by {
            assert forall|j: int, k: int| 0 <= j < rest.len() && 0 <= k < rest.len() && j != k implies rest[j]
                != rest[k] by {
                assert(list[j] != list[k]);
            }
        }
        assert forall|k: int| 0 <= k < rest.len() implies (#[trigger] rest[k]) < snaps.len() by {
            assert(list[k] < snaps.len());
        }
        lemma_listed_once(units, next, blast, snaps, rest, p, q);
        let before = blast_listed(units, blast, snaps, rest);
        let l = list.last();
        assert(list[list.len() - 1] == l);
        assert(list.contains(l));
        let s = snaps[l as int];
        lemma_hurt_one(before, next, s.entity, blast.damage, p);
        if l as int == q {
            if rest.contains(q as u32) {
                let k = choose|k: int| 0 <= k < rest.len() && rest[k] == q as u32;
                assert(list[k] != list[list.len() - 1]);
            }
        } else {
            assert(s.entity != snaps[q].entity) by {
                if (l as int) < q {
                    assert(snaps[l as int].entity != snaps[q].entity);
                } else {
                    assert(snaps[q].entity != snaps[l as int].entity);
                }
            }
            if rest.contains(q as u32) {
                let k = choose|k: int| 0 <= k < rest.len() && rest[k] == q as u32;
                assert(list[k] == q as u32);
            }
            if list.contains(q as u32) {
                let k = choose|k: int| 0 <= k < list.len() && list[k] == q as u32;
                assert(k < rest.len());
                assert(rest[k] == q as u32);
            }
        }
    }
}

/// A blast over the structures of a picture hurts the one behind place `q` once if it is reached.
proof fn lemma_fixtures_once<S: Scalar>(
    units: Seq<Actor<S>>,
    next: u64,
    blast: Blast<S>,
    snaps: Seq<UnitSnap<S>>,
    n: int,
    p: int,
    q: int,
)
    requires
        distinct(units, next),
        named_apart(snaps),
        0 <= n <= snaps.len(),
        0 <= p < units.len(),
        0 <= q < snaps.len(),
        snaps[q].entity == units[p].entity,
    ensures
        ({
            let after = blast_fixtures(units, blast, snaps.take(n));
            &&& after.len() == units.len()
            &&& distinct(after, next)
            &&& after[p] == (if q < n && snaps[q].kind != UnitKind::Troop && blast.reaches(&snaps[q]) {
                units[p].hurt(blast.damage)
            } else {
                units[p]
            })
        }),
    decreases n,
{
    if n > 0 {
        let part = snaps.take(n);
        assert(part.drop_last() =~= snaps.take(n - 1));
        assert(part.last() == snaps[n - 1]);
        lemma_fixtures_once(units, next, blast, snaps, n - 1, p, q);
        let before = blast_fixtures(units, blast, snaps.take(n - 1));
        lemma_hurt_one(before, next, snaps[n - 1].entity, blast.damage, p);
        if q < n - 1 {
            assert(snaps[q].entity != snaps[n - 1].entity);
        } else if q > n - 1 {
            assert(snaps[n - 1].entity != snaps[q].entity);
        }
    }
}

/// What a blast does to one unit: it is hurt once if it is reached, and not more than once.
proof fn lemma_blasted<S: Scalar>(units: Seq<Actor<S>>, next: u64, blast: Blast<S>, snaps: Seq<UnitSnap<S>>, p: int, q: int)
    requires
        distinct(units, next),
        named_apart(snaps),
        snaps.len() <= MOST_UNITS,
        0 <= p < units.len(),
        0 <= q < snaps.len(),
        snaps[q].entity == units[p].entity,
    ensures
        ({
            let after = blasted(units, blast, snaps);
            let near = in_circle_spec(grid_of(snaps), blast.center, blast.radius.plus(monster_radius_max()));
            &&& after.len() == units.len()
            &&& after[p] == (if blast.reaches(&snaps[q]) && (snaps[q].kind != UnitKind::Troop || near.contains(
                q as u32,
            )) {
                units[p].hurt(blast.damage)
            } else {
                units[p]
            })
        }),
{
    let near = in_circle_spec(grid_of(snaps), blast.center, blast.radius.plus(monster_radius_max()));
    circles_list_once(snaps, blast.center, blast.radius.plus(monster_radius_max()));
    lemma_listed_once(units, next, blast, snaps, near, p, q);
    let mid = blast_listed(units, blast, snaps, near);
    assert(mid[p].entity == units[p].entity);
    lemma_fixtures_once(mid, next, blast, snaps, snaps.len() as int, p, q);
    assert(snaps.take(snaps.len() as int) =~= snaps);
    if near.contains(q as u32) {
        let k = choose|k: int| 0 <= k < near.len() && near[k] == q as u32;
        assert(snaps[near[k] as int].kind == UnitKind::Troop);
    }
}

proof fn lemma_place_of<S: Scalar>(units: Seq<Actor<S>>, p: int) -> (q: int)
    requires
        0 <= p < units.len(),
    ensures
        0 <= q < snapshot(units).len(),
        snapshot(units)[q] == snap_of(&units[p]),
{
    snapshot_is_complete(units);
    assert(snapshot(units).contains(snap_of(&units[p])));
    choose|q: int| 0 <= q < snapshot(units).len() && snapshot(units)[q] == snap_of(&units[p])
}

/// A blow: the target of a striker loses the damage of one blow, once and no more, even if the
/// striker splashes. Of the others nobody loses more than that, and only enemies within the
/// splash lose anything. The striker starts its cooldown anew and has spent a ready charge; no
/// shot comes of it.
pub proof fn blows_land_once<S: Scalar>(
    f: Fray<S>,
    next: u64,
    i: int,
    k: int,
    status: Option<Seq<BuffModel<S>>>,
    j: int,
)
    requires
        distinct(f.units, next),
        f.units.len() <= MOST_UNITS,
        attacks(f.units, i, k, status),
        !(f.units[i].attacker->0).ranged,
        0 <= j < f.units.len(),
    ensures
        ({
            let after = turn(f, i, status, snapshot(f.units));
            let (a, b, c, d) = (f.units[i], f.units[j], after.units[j], force(f.units[i]));
            &&& after.units.len() == f.units.len()
            &&& after.shots == f.shots
            &&& c.health.max == b.health.max
            &&& j == k ==> c.health.current == b.health.current.minus(d)
            &&& j != k ==> c.health.current == b.health.current || splashed(a, b) && c.health.current
                == b.health.current.minus(d)
            &&& j != k && b.unit.kind != UnitKind::Troop && splashed(a, b) ==> c.health.current
                == b.health.current.minus(d)
            &&& j != i ==> c == (Actor { health: c.health, ..b })
            &&& j == i ==> c.attacker == Some(
                Attacker { cooldown: (a.attacker->0).interval, engaged: true, ..a.attacker->0 },
            ) && c.pos == a.pos && c.unit == a.unit
            &&& j == i ==> (a.charge matches Some(w) ==> c.charge matches Some(x) && x.windup == w.windup
                && x.progress == (if w.windup.at_most(w.progress) { zero::<S>() } else { w.progress }))
        }),
{
    let snaps = snapshot(f.units);
    let a = f.units[i];
    let att = a.attacker->0;
    let after = turn(f, i, status, snaps);
    snapshot_is_complete(f.units);
    names_are_found(f.units, next, f.units[k].entity);
    picture_is_named_apart(f.units, next);
    let target = snap_of(&f.units[k]);
    let ready = f.units.update(
        i,
        Actor {
            attacker: Some(Attacker { engaged: true, cooldown: att.interval, ..att }),
            charge: attack::spent(a.charge),
            ..a
        },
    );
    assert(distinct(ready, next)) by {
        assert forall|x: int| 0 <= x < ready.len() implies (#[trigger] ready[x]).entity < next by {
            assert(f.units[x].entity < next);
        }
        assert forall|x: int, y: int| 0 <= x < ready.len() && 0 <= y < ready.len() && x != y implies (
        #[trigger] ready[x]).entity != (#[trigger] ready[y]).entity by {
            assert(f.units[x].entity != f.units[y].entity);
        }
    }
    let d = force(a);
    lemma_hurt_one(ready, next, target.entity, d, j);
    let hit = hurt_entity(ready, target.entity, d);
    let blast = Blast {
        attacker: a.unit.faction,
        spared: target.entity,
        hits_air: att.hits_air,
        center: a.pos,
        radius: att.splash_radius,
        damage: d,
    };
    let q = lemma_place_of(f.units, j);
    assert(hit[j].entity == f.units[j].entity);
    lemma_blasted(hit, next, blast, snaps, j, q);
    if j != k {
        assert(f.units[j].entity != f.units[k].entity);
    }
}

/// In fixed point the splash misses nobody: every other enemy within it loses the damage of the
/// blow exactly once, as long as everything lies within reason and no troop is wider than the
/// grid allows.
pub proof fn splash_misses_nobody(
    f: Fray<Fixed>,
    next: u64,
    i: int,
    k: int,
    status: Option<Seq<BuffModel<Fixed>>>,
    j: int,
)
    requires
        distinct(f.units, next),
        f.units.len() <= u32::MAX,
        attacks(f.units, i, k, status),
        !(f.units[i].attacker->0).ranged,
        0 <= j < f.units.len(),
        j != k,
        splashed(f.units[i], f.units[j]),
        sane_pos(f.units[i].pos),
        sane_pos(f.units[j].pos),
        0 < (f.units[i].attacker->0).splash_radius.raw <= FAR,
        0 <= f.units[j].unit.radius.raw,
        ({
            let wide = (f.units[i].attacker->0).splash_radius.raw + 98304;
            f.units[j].unit.radius.raw + margin(wide) <= 98304
        }),
    ensures
        turn(f, i, status, snapshot(f.units)).units[j].health.current == f.units[j].health.current.minus(
            force(f.units[i]),
        ),
{
    let snaps = snapshot(f.units);
    let a = f.units[i];
    let att = a.attacker->0;
    blows_land_once(f, next, i, k, status, j);
    snapshot_is_complete(f.units);
    if f.units[j].unit.kind == UnitKind::Troop {
        names_are_found(f.units, next, f.units[k].entity);
        picture_is_named_apart(f.units, next);
        let target = snap_of(&f.units[k]);
        let ready = f.units.update(
            i,
            Actor {
                attacker: Some(Attacker { engaged: true, cooldown: att.interval, ..att }),
                charge: attack::spent(a.charge),
                ..a
            },
        );
        assert(distinct(ready, next)) by {
            assert forall|x: int| 0 <= x < ready.len() implies (#[trigger] ready[x]).entity < next by {
                assert(f.units[x].entity < next);
            }
            assert forall|x: int, y: int| 0 <= x < ready.len() && 0 <= y < ready.len() && x != y implies (
            #[trigger] ready[x]).entity != (#[trigger] ready[y]).entity by {
                assert(f.units[x].entity != f.units[y].entity);
            }
        }
        let d = force(a);
        lemma_hurt_one(ready, next, target.entity, d, j);
        let hit = hurt_entity(ready, target.entity, d);
        let blast = Blast {
            attacker: a.unit.faction,
            spared: target.entity,
            hits_air: att.hits_air,
            center: a.pos,
            radius: att.splash_radius,
            damage: d,
        };
        let q = lemma_place_of(f.units, j);
        lemma_blasted(hit, next, blast, snaps, j, q);
        assert(f.units[j].entity != f.units[k].entity);
        let wide = att.splash_radius.plus(monster_radius_max());
        assert(monster_radius_max::<Fixed>().raw == 98304) by {
            vstd::arithmetic::div_mod::lemma_fundamental_div_mod_converse(150int * 65536int, 100, 98304, 0);
        }
        assert(wide.raw == att.splash_radius.raw + 98304);
        nearest::lemma_distance_is_even(a.pos, f.units[j].pos);
        circle_misses_nobody(snaps, a.pos, wide, q);
    }
}

/// A shooter hurts nobody at once: one shot flies at its target, with the damage, the splash and
/// the side of the one who fired it, from above them.
pub proof fn shooters_fire_one_shot<S: Scalar>(
    f: Fray<S>,
    next: u64,
    i: int,
    k: int,
    status: Option<Seq<BuffModel<S>>>,
)
    requires
        distinct(f.units, next),
        f.units.len() <= MOST_UNITS,
        attacks(f.units, i, k, status),
        (f.units[i].attacker->0).ranged,
    ensures
        ({
            let after = turn(f, i, status, snapshot(f.units));
            let a = f.units[i];
            let att = a.attacker->0;
            let shot = after.shots.last();
            &&& after.shots == f.shots.push(shot)
            &&& shot.target == f.units[k].entity
            &&& shot.damage == force(a)
            &&& shot.splash_radius == att.splash_radius
            &&& shot.hits_air == att.hits_air
            &&& shot.attacker == a.unit.faction
            &&& shot.pos.x == a.pos.x && shot.pos.z == a.pos.z
            &&& shot.pos.y == a.pos.y.plus(
                match a.unit.kind {
                    UnitKind::Troop => S::ratio(150, 100),
                    UnitKind::Tower => S::ratio(350, 100),
                    UnitKind::Building => S::ratio(120, 100),
                },
            )
            &&& after.units.len() == f.units.len()
            &&& forall|j: int| 0 <= j < f.units.len() && j != i ==> after.units[j] == f.units[j]
            &&& after.units[i].health == a.health
            &&& after.units[i].attacker == Some(
                Attacker { cooldown: att.interval, engaged: true, ..att },
            )
        }),
{
    snapshot_is_complete(f.units);
    names_are_found(f.units, next, f.units[k].entity);
}

/// Nobody attacks what is out of reach, and who may not attack does nothing.
pub proof fn no_attack_out_of_reach<S: Scalar>(
    f: Fray<S>,
    next: u64,
    i: int,
    k: int,
    status: Option<Seq<BuffModel<S>>>,
)
    requires
        distinct(f.units, next),
        f.units.len() <= MOST_UNITS,
        0 <= i < f.units.len(),
        0 <= k < f.units.len(),
        f.units[i].attacker matches Some(att) && att.target == Some(f.units[k].entity) && (
        channels_spec(status).cannot_attack || att.attack_range.plus(S::ratio(5, 100)).less(
            gap(f.units[i], f.units[k]),
        )),
    ensures
        turn(f, i, status, snapshot(f.units)) == f,
{
    snapshot_is_complete(f.units);
    names_are_found(f.units, next, f.units[k].entity);
}

/// Before its cooldown is over a unit with its target in reach does nothing but wait.
pub proof fn attacks_wait_for_the_cooldown<S: Scalar>(
    f: Fray<S>,
    next: u64,
    i: int,
    k: int,
    status: Option<Seq<BuffModel<S>>>,
)
    requires
        distinct(f.units, next),
        f.units.len() <= MOST_UNITS,
        0 <= i < f.units.len(),
        0 <= k < f.units.len(),
        !channels_spec(status).cannot_attack,
        f.units[i].attacker matches Some(att) && att.target == Some(f.units[k].entity)
            && !att.attack_range.plus(S::ratio(5, 100)).less(gap(f.units[i], f.units[k])) && zero::<S>().less(
            att.cooldown.minus(S::ratio(1, 30).times(stat_spec(status, one(), StatKind::AttackSpeed))),
        ),
    ensures
        ({
            let after = turn(f, i, status, snapshot(f.units));
            let att = f.units[i].attacker->0;
            &&& after.shots == f.shots
            &&& after.units == f.units.update(
                i,
                Actor {
                    attacker: Some(
                        Attacker {
                            engaged: true,
                            cooldown: att.cooldown.minus(
                                S::ratio(1, 30).times(stat_spec(status, one(), StatKind::AttackSpeed)),
                            ),
                            ..att
                        },
                    ),
                    ..f.units[i]
                },
            )
        }),
{
    snapshot_is_complete(f.units);
    names_are_found(f.units, next, f.units[k].entity);
}

/// Whether a shot reaches its target within the tick: it flies 14 units a second, and needs to
/// come no nearer than half the target's radius.
pub open spec fn arrives<S: Scalar>(shot: Projectile<S>, b: Actor<S>) -> bool {
    b.pos.minus(shot.pos).length().at_most(
        S::ratio(14, 1).times(S::ratio(1, 30)).plus(b.unit.radius.times(S::ratio(50, 100))),
    )
}

/// A shot that arrives hurts its target by its damage, once; every other enemy around the target
/// within its splash but the towers, and nobody else, is hurt by as much, once. It is gone then.
pub proof fn shots_land_once<S: Scalar>(f: Fray<S>, next: u64, shot: Projectile<S>, k: int, j: int)
    requires
        distinct(f.units, next),
        0 <= k < f.units.len(),
        0 <= j < f.units.len(),
        f.units[k].entity == shot.target,
        arrives(shot, f.units[k]),
    ensures
        ({
            let after = fly(f, shot);
            let (t, b, c) = (f.units[k], f.units[j], after.units[j]);
            let inside = zero::<S>().less(shot.splash_radius) && b.unit.kind != UnitKind::Tower && b.unit.faction
                != shot.attacker && (b.flying ==> shot.hits_air) && b.pos.minus(t.pos).flat().length().at_most(
                shot.splash_radius.plus(b.unit.radius),
            );
            &&& after.shots == f.shots
            &&& after.units.len() == f.units.len()
            &&& c == (Actor { health: c.health, ..b })
            &&& c.health.max == b.health.max
            &&& c.health.current == (if j == k || inside {
                b.health.current.minus(shot.damage)
            } else {
                b.health.current
            })
        }),
{
    lemma_position_from(f.units, shot.target, 0);
    let p = position(f.units, shot.target)->0;
    if p != k {
        assert(f.units[p].entity != f.units[k].entity);
    }
    if j != k {
        assert(f.units[j].entity != f.units[k].entity);
    }
    lemma_hurt_one(f.units, next, shot.target, shot.damage, j);
}

/// A shot whose target is gone vanishes; one that does not arrive flies on, straight towards its
/// target by a thirtieth of 14 units, and hurts nobody.
pub proof fn shots_fly_on<S: Scalar>(f: Fray<S>, next: u64, shot: Projectile<S>)
    requires
        distinct(f.units, next),
    ensures
        (forall|k: int| 0 <= k < f.units.len() ==> (#[trigger] f.units[k]).entity != shot.target) ==> fly(f, shot)
            == f,
        forall|k: int|
            0 <= k < f.units.len() && (#[trigger] f.units[k]).entity == shot.target && !arrives(
                shot,
                f.units[k],
            ) ==> {
                let after = fly(f, shot);
                &&& after.units == f.units
                &&& after.shots == f.shots.push(Projectile { pos: after.shots.last().pos, ..shot })
                &&& after.shots.last().pos == shot.pos.plus(
                    f.units[k].pos.minus(shot.pos).normalized().times(S::ratio(14, 1).times(S::ratio(1, 30))),
                )
            },
{
    lemma_position_from(f.units, shot.target, 0);
    if let Some(p) = position(f.units, shot.target) {
        assert forall|k: int| 0 <= k < f.units.len() && (#[trigger] f.units[k]).entity == shot.target implies k == p by {
            if k != p {
                assert(f.units[k].entity != f.units[p].entity);
            }
        }
    }
}

/// All shots fly in the same tick, each after the others before it: no shot stays out.
pub proof fn every_shot_flies<S: Scalar>(units: Seq<Actor<S>>, shots: Seq<Projectile<S>>, shot: Projectile<S>)
    ensures
        move_projectiles_spec(units, shots.push(shot)) == fly(move_projectiles_spec(units, shots), shot),
        move_projectiles_spec(units, Seq::empty()) == (Fray { units, shots: Seq::empty() }),
{
    assert(shots.push(shot).drop_last() =~= shots);
}

/// Every unit takes its turn to attack, one after the other, each under its own buffs and by the picture
/// of the start; the last is the last of the list.
pub proof fn everyone_takes_a_turn<S: Scalar>(
    units: Seq<Actor<S>>,
    shots: Seq<Projectile<S>>,
    statuses: Seq<Option<Seq<BuffModel<S>>>>,
    snaps: Seq<UnitSnap<S>>,
    n: nat,
)
    ensures
        ({
            let f = Fray { units, shots };
            &&& turns(f, 0, statuses, snaps) == f
            &&& turns(f, n as int + 1, statuses, snaps) == turn(
                turns(f, n as int, statuses, snaps),
                n as int,
                statuses[n as int],
                snaps,
            )
            &&& attacking_spec(units, shots, statuses, snaps) == turns(f, units.len() as int, statuses, snaps)
        }),
{
}

} // verus!
