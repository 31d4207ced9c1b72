//! What the compact battle promises of aims, guards, buildings, shots and crowds.

use vstd::prelude::*;

use crate::combat::attack::Blast;
use crate::combat::picture::named_apart;
use crate::combat::UnitSnap;
use crate::components::{Faction, Projectile, UnitKind};
use crate::constants::{card_spec, MonsterSpec};
use crate::fixed::Fixed;
use crate::laws::skirmishes::{
    apart, caught, comes_round, lemma_due, lemma_monster_found, lemma_seen, lemma_struck,
    lemma_swept, lemma_unseen, lemma_wounded, loses, wounded,
};
use crate::scalar::{zero, Scalar};
use crate::skirmish::{
    aimed, all_flown, bodies, building_turn, building_turns, eligible, flown, holds_on, in_sights,
    landed, monster_place, nearest_spec, prey_spec, recruit_spec, roll_call, struck, swept,
    tower_shots, tower_turn, watched, BuildingCard, Camp, Gun, Hatch, Monster, Tower,
};
use crate::vector::Vec3;

verus! {

/// Whether a monster could go for a unit at all: an enemy, a flyer only if it hits air, a troop
/// only if it does not go for structures alone.
pub open spec fn foe<S: Scalar>(m: Monster<S>, s: UnitSnap<S>) -> bool {
    &&& s.faction != m.faction
    &&& s.entity != m.entity
    &&& s.flying ==> m.hits_air
    &&& m.building_only ==> s.kind != UnitKind::Troop
}

/// Whether a monster notices a unit.
pub open spec fn notices<S: Scalar>(m: Monster<S>, s: UnitSnap<S>) -> bool {
    foe(m, s) && apart(m, s).at_most(m.aggro_range)
}

/// Whether one unit is nearer to a monster than another; of equally near ones the first counts.
pub open spec fn not_behind(m: Monster<Fixed>, snaps: Seq<UnitSnap<Fixed>>, k: int, j: int) -> bool {
    let (a, b) = (m.pos.distance_squared(snaps[k].pos).raw, m.pos.distance_squared(snaps[j].pos).raw);
    a < b || a == b && k <= j
}

proof fn lemma_nearest(m: Monster<Fixed>, snaps: Seq<UnitSnap<Fixed>>, marching: bool, n: int) -> (k: int)
    requires
        0 <= n <= snaps.len(),
    ensures
        match nearest_spec(m, snaps.take(n), marching) {
            None => forall|j: int| 0 <= j < n ==> !eligible(&m, &#[trigger] snaps[j], marching),
            Some((d, e)) => {
                &&& 0 <= k < n
                &&& snaps[k].entity == e
                &&& eligible(&m, &snaps[k], marching)
                &&& d == m.pos.distance_squared(snaps[k].pos)
                &&& forall|j: int|
                    0 <= j < n && eligible(&m, &#[trigger] snaps[j], marching) ==> not_behind(m, snaps, k, j)
            },
        },
    decreases n,
{
    if n > 0 {
        assert(snaps.take(n).drop_last() =~= snaps.take(n - 1));
        assert(snaps.take(n).last() == snaps[n - 1]);
        let k = lemma_nearest(m, snaps, marching, n - 1);
        let best = nearest_spec(m, snaps.take(n - 1), marching);
        let d2 = m.pos.distance_squared(snaps[n - 1].pos);
        if eligible(&m, &snaps[n - 1], marching) && (best.is_none() || d2.less((best->0).0)) {
            assert forall|j: int| 0 <= j < n && eligible(&m, &#[trigger] snaps[j], marching) implies not_behind(
                m,
                snaps,
                n - 1,
                j,
            ) by {
                if j < n - 1 {
                    assert(not_behind(m, snaps, k, j));
                }
            }
            n - 1
        } else {
            k
        }
    } else {
        0
    }
}

/// A monster without a target goes for the nearest enemy that it notices, the first in the roll of
/// equally near ones. In fixed point.
pub proof fn monsters_choose_the_nearest(m: Monster<Fixed>, snaps: Seq<UnitSnap<Fixed>>, j: int)
    requires
        m.target.is_none(),
        0 <= j < snaps.len(),
        notices(m, snaps[j]),
    ensures
        aimed(m, snaps).target matches Some(e) && exists|k: int|
            0 <= k < snaps.len() && (#[trigger] snaps[k]).entity == e && notices(m, snaps[k]) && not_behind(
                m,
                snaps,
                k,
                j,
            ),
{
    let k = lemma_nearest(m, snaps, false, snaps.len() as int);
    assert(snaps.take(snaps.len() as int) =~= snaps);
    assert(eligible(&m, &snaps[j], false));
    assert(not_behind(m, snaps, k, j));
    assert(notices(m, snaps[k]));
}

/// A monster without a target that notices nobody heads for the nearest enemy structure, however
/// far; if there is none, for nobody. In fixed point.
pub proof fn monsters_head_for_structures(m: Monster<Fixed>, snaps: Seq<UnitSnap<Fixed>>, j: int)
    requires
        m.target.is_none(),
        forall|k: int| 0 <= k < snaps.len() ==> !notices(m, #[trigger] snaps[k]),
    ensures
        0 <= j < snaps.len() && foe(m, snaps[j]) && snaps[j].kind != UnitKind::Troop ==> (aimed(m, snaps).target matches Some(
            e,
        ) && exists|k: int|
            0 <= k < snaps.len() && (#[trigger] snaps[k]).entity == e && foe(m, snaps[k]) && snaps[k].kind
                != UnitKind::Troop && not_behind(m, snaps, k, j)),
        (forall|k: int| 0 <= k < snaps.len() && foe(m, #[trigger] snaps[k]) ==> snaps[k].kind == UnitKind::Troop)
            ==> aimed(m, snaps).target.is_none(),
{
    let p = lemma_nearest(m, snaps, false, snaps.len() as int);
    let k = lemma_nearest(m, snaps, true, snaps.len() as int);
    assert(snaps.take(snaps.len() as int) =~= snaps);
    if nearest_spec(m, snaps, false).is_some() {
        assert(notices(m, snaps[p]));
    }
    if nearest_spec(m, snaps, true).is_some() {
        if 0 <= j < snaps.len() && foe(m, snaps[j]) && snaps[j].kind != UnitKind::Troop {
            assert(eligible(&m, &snaps[j], true));
            assert(not_behind(m, snaps, k, j));
        }
        assert(foe(m, snaps[k]) && snaps[k].kind != UnitKind::Troop);
    } else if 0 <= j < snaps.len() {
        assert(!eligible(&m, &snaps[j], true));
    }
}

/// A monster whose target is gone, has changed sides or was pushed out of reach looks anew, and is
/// not engaged any more.
pub proof fn lost_targets_are_let_go<S: Scalar>(m: Monster<S>, snaps: Seq<UnitSnap<S>>, e: u64, k: int)
    requires
        named_apart(snaps),
        m.target == Some(e),
        (forall|q: int| 0 <= q < snaps.len() ==> (#[trigger] snaps[q]).entity != e) || 0 <= k < snaps.len()
            && snaps[k].entity == e && (snaps[k].faction == m.faction || m.engaged && m.attack_range.plus(
            S::ratio(5, 100),
        ).less(apart(m, snaps[k]))),
    ensures
        !aimed(m, snaps).engaged,
        aimed(m, snaps).target == aimed(Monster { target: None, engaged: false, ..m }, snaps).target,
        aimed(m, snaps).pos == m.pos,
        aimed(m, snaps).health == m.health,
{
    let bare = Monster { target: None, engaged: false, ..m };
    if forall|q: int| 0 <= q < snaps.len() ==> (#[trigger] snaps[q]).entity != e {
        lemma_unseen(snaps, e, 0);
    } else {
        lemma_seen(snaps, k, 0);
    }
    assert(!holds_on(m, snaps));
    lemma_same_search(m, bare, snaps, false);
    lemma_same_search(m, bare, snaps, true);
}

proof fn lemma_same_search<S: Scalar>(m: Monster<S>, n: Monster<S>, snaps: Seq<UnitSnap<S>>, marching: bool)
    requires
        n == (Monster { target: n.target, engaged: n.engaged, ..m }),
    ensures
        nearest_spec(m, snaps, marching) == nearest_spec(n, snaps, marching),
    decreases snaps.len(),
{
    if snaps.len() > 0 {
        lemma_same_search(m, n, snaps.drop_last(), marching);
    }
}

/// Whether a guard can shoot at a monster: an enemy in range from edge to edge, a flyer only if the
/// guard hits air.
pub open spec fn guarded<S: Scalar>(
    pos: Vec3<S>,
    radius: S,
    faction: Faction,
    range: S,
    hits_air: bool,
    m: Monster<S>,
) -> bool {
    &&& m.faction != faction
    &&& m.flying ==> hits_air
    &&& pos.minus(m.pos).flat().length().minus(radius).minus(m.radius).at_most(range)
}

/// Whether monster `k` is nearer to a point than monster `j`; of equally near ones the first counts.
pub open spec fn not_beyond(pos: Vec3<Fixed>, monsters: Seq<Monster<Fixed>>, k: int, j: int) -> bool {
    let (a, b) = (pos.distance_squared(monsters[k].pos).raw, pos.distance_squared(monsters[j].pos).raw);
    a < b || a == b && k <= j
}

proof fn lemma_prey(
    pos: Vec3<Fixed>,
    radius: Fixed,
    faction: Faction,
    range: Fixed,
    hits_air: bool,
    monsters: Seq<Monster<Fixed>>,
    n: int,
) -> (k: int)
    requires
        0 <= n <= monsters.len(),
    ensures
        match prey_spec(pos, radius, faction, range, hits_air, monsters.take(n)) {
            None => forall|j: int|
                0 <= j < n ==> !guarded(pos, radius, faction, range, hits_air, #[trigger] monsters[j]),
            Some((d, e)) => {
                &&& 0 <= k < n
                &&& monsters[k].entity == e
                &&& guarded(pos, radius, faction, range, hits_air, monsters[k])
                &&& d == pos.distance_squared(monsters[k].pos)
                &&& forall|j: int|
                    0 <= j < n && guarded(pos, radius, faction, range, hits_air, #[trigger] monsters[j])
                        ==> not_beyond(pos, monsters, k, j)
            },
        },
    decreases n,
{
    if n > 0 {
        assert(monsters.take(n).drop_last() =~= monsters.take(n - 1));
        assert(monsters.take(n).last() == monsters[n - 1]);
        let k = lemma_prey(pos, radius, faction, range, hits_air, monsters, n - 1);
        let best = prey_spec(pos, radius, faction, range, hits_air, monsters.take(n - 1));
        let last = monsters[n - 1];
        let here = guarded(pos, radius, faction, range, hits_air, last);
        assert(in_sights(pos, radius, faction, range, hits_air, &last) == here);
        if here && (best.is_none() || pos.distance_squared(last.pos).less((best->0).0)) {
            assert forall|j: int|
                0 <= j < n && guarded(
                    pos,
                    radius,
                    faction,
                    range,
                    hits_air,
                    #[trigger] monsters[j],
                ) implies not_beyond(pos, monsters, n - 1, j) by {
                if j < n - 1 {
                    assert(not_beyond(pos, monsters, k, j));
                }
            }
            n - 1
        } else {
            k
        }
    } else {
        0
    }
}

/// A guard stays with its target as long as it can shoot at it. Otherwise it takes the nearest
/// monster that it can shoot at, and none if there is none. In fixed point.
pub proof fn watchers_choose_the_nearest(
    pos: Vec3<Fixed>,
    radius: Fixed,
    faction: Faction,
    range: Fixed,
    hits_air: bool,
    target: Option<u64>,
    monsters: Seq<Monster<Fixed>>,
    j: int,
)
    requires
        forall|a: int, b: int|
            0 <= a < b < monsters.len() ==> (#[trigger] monsters[a]).entity != (#[trigger] monsters[b]).entity,
        0 <= j < monsters.len(),
        guarded(pos, radius, faction, range, hits_air, monsters[j]),
    ensures
        target == Some(monsters[j].entity) ==> watched(pos, radius, faction, range, hits_air, target, monsters) == target,
        target.is_none() ==> (watched(pos, radius, faction, range, hits_air, target, monsters) matches Some(e)
            && exists|k: int|
            0 <= k < monsters.len() && (#[trigger] monsters[k]).entity == e && guarded(
                pos,
                radius,
                faction,
                range,
                hits_air,
                monsters[k],
            ) && not_beyond(pos, monsters, k, j)),
{
    let k = lemma_prey(pos, radius, faction, range, hits_air, monsters, monsters.len() as int);
    assert(monsters.take(monsters.len() as int) =~= monsters);
    if target == Some(monsters[j].entity) {
        lemma_monster_found(monsters, monsters[j].entity, 0);
        let p = monster_place(monsters, monsters[j].entity, 0)->0;
        if p < j {
            assert(monsters[p].entity != monsters[j].entity);
        } else if j < p {
            assert(monsters[j].entity != monsters[p].entity);
        }
    }
    if target.is_none() {
        assert(not_beyond(pos, monsters, k, j));
    }
}

/// Whoever a guard watches is a monster that it can shoot at.
pub proof fn watchers_aim_within_range<S: Scalar>(
    pos: Vec3<S>,
    radius: S,
    faction: Faction,
    range: S,
    hits_air: bool,
    target: Option<u64>,
    monsters: Seq<Monster<S>>,
)
    ensures
        watched(pos, radius, faction, range, hits_air, target, monsters) matches Some(e) ==> exists|k: int|
            0 <= k < monsters.len() && (#[trigger] monsters[k]).entity == e && guarded(
                pos,
                radius,
                faction,
                range,
                hits_air,
                monsters[k],
            ),
{
    if let Some(e) = target {
        lemma_monster_found(monsters, e, 0);
    }
    lemma_prey_is_guarded(pos, radius, faction, range, hits_air, monsters);
}

proof fn lemma_prey_is_guarded<S: Scalar>(
    pos: Vec3<S>,
    radius: S,
    faction: Faction,
    range: S,
    hits_air: bool,
    monsters: Seq<Monster<S>>,
)
    ensures
        prey_spec(pos, radius, faction, range, hits_air, monsters) matches Some((_, e)) ==> exists|k: int|
            0 <= k < monsters.len() && (#[trigger] monsters[k]).entity == e && guarded(
                pos,
                radius,
                faction,
                range,
                hits_air,
                monsters[k],
            ),
    decreases monsters.len(),
{
    if monsters.len() > 0 {
        let rest = monsters.drop_last();
        lemma_prey_is_guarded(pos, radius, faction, range, hits_air, rest);
        if let Some((_, e)) = prey_spec(pos, radius, faction, range, hits_air, rest) {
            let k = choose|k: int|
                0 <= k < rest.len() && (#[trigger] rest[k]).entity == e && guarded(
                    pos,
                    radius,
                    faction,
                    range,
                    hits_air,
                    rest[k],
                );
            assert(monsters[k] == rest[k]);
        }
        assert(monsters[monsters.len() - 1] == monsters.last());
    }
}

/// A tower with a target fires when its timer comes round: one shot of two hundred, without splash,
/// from above the tower. Without a target the timer stands still.
pub proof fn towers_fire_in_time<S: Scalar>(t: Tower<S>, monsters: Seq<Monster<S>>)
    ensures
        ({
            let e = watched(t.pos, t.radius, t.faction, t.attack_range, true, t.target, monsters);
            let (n, shot) = tower_turn(t, monsters);
            &&& n.target == e
            &&& n == (Tower { target: e, timer: n.timer, ..t })
            &&& e.is_none() ==> shot.is_none() && n.timer == t.timer
            &&& e.is_some() && t.timer.elapsed + 33_333_333 < t.timer.duration ==> shot.is_none()
                && n.timer.elapsed == t.timer.elapsed + 33_333_333
            &&& e.is_some() && comes_round(t.timer, 33_333_333) ==> (shot matches Some(p) && {
                &&& Some(p.target) == e
                &&& p.damage == S::ratio(200, 1)
                &&& p.splash_radius == zero::<S>()
                &&& p.hits_air
                &&& p.attacker == t.faction
                &&& p.pos.x == t.pos.x
                &&& p.pos.y == t.pos.y.plus(S::ratio(350, 100))
                &&& p.pos.z == t.pos.z
            })
        }),
{
    if comes_round(t.timer, 33_333_333) {
        lemma_due(t.timer, 33_333_333);
    }
}

/// What the turn of a building comes to: its lifetime runs, and it is gone when that is over.
/// Its gun fires at its target when the cooldown is over, which then starts anew, and cools down
/// otherwise; its hatch sends out one troop per interval, where the building stands.
pub proof fn buildings_do_their_work<S: Scalar>(c: Camp<S>, b: BuildingCard<S>, monsters: Seq<Monster<S>>)
    ensures
        ({
            let dt = S::ratio(1, 30);
            let after = building_turn(c, b, monsters);
            let n = after.buildings.last();
            &&& b.lifetime.minus(dt).at_most(zero()) ==> after == c
            &&& !b.lifetime.minus(dt).at_most(zero()) ==> {
                &&& after.buildings == c.buildings.push(n)
                &&& after.towers == c.towers
                &&& n.lifetime == b.lifetime.minus(dt)
                &&& n == (BuildingCard { lifetime: n.lifetime, attack: n.attack, spawner: n.spawner, ..b })
                &&& b.attack matches Some(g) ==> ({
                    let e = watched(b.pos, b.radius, b.faction, g.range, g.hits_air, g.target, monsters);
                    let due = e.is_some() && g.cooldown.minus(dt).at_most(zero());
                    let p = after.shots.last();
                    &&& n.attack == Some(
                        Gun { target: e, cooldown: if due { g.interval } else { g.cooldown.minus(dt) }, ..g },
                    )
                    &&& !due ==> after.shots == c.shots
                    &&& due ==> {
                        &&& after.shots == c.shots.push(p)
                        &&& Some(p.target) == e
                        &&& p.damage == g.damage
                        &&& p.splash_radius == zero::<S>()
                        &&& p.hits_air == g.hits_air
                        &&& p.attacker == b.faction
                        &&& p.pos.x == b.pos.x
                        &&& p.pos.y == b.pos.y.plus(S::ratio(120, 100))
                        &&& p.pos.z == b.pos.z
                    }
                })
                &&& b.attack.is_none() ==> n.attack.is_none() && after.shots == c.shots
                &&& b.spawner matches Some(h) ==> ({
                    let due = h.cooldown.minus(dt).at_most(zero());
                    let m = after.monsters.last();
                    &&& n.spawner == Some(
                        Hatch { cooldown: if due { h.interval_secs } else { h.cooldown.minus(dt) }, ..h },
                    )
                    &&& !due ==> after.monsters == c.monsters
                    &&& due && (card_spec::<S>(h.card_id) matches Some(x) && x.kind is Troop) ==> {
                        &&& after.monsters == c.monsters.push(m)
                        &&& m.entity == c.next_entity
                        &&& c.next_entity < u64::MAX ==> after.next_entity == c.next_entity + 1
                        &&& m.faction == b.faction
                        &&& m.card == h.card_id
                        &&& m.pos.x == b.pos.x
                        &&& m.pos.z == b.pos.z
                        &&& m.health.current == ((card_spec::<S>(h.card_id)->0).kind->Troop_0).hp
                    }
                })
                &&& b.spawner.is_none() ==> n.spawner.is_none() && after.monsters == c.monsters && after.next_entity
                    == c.next_entity
            }
        }),
{
}

/// A monster comes with the traits of its card, in full health, without a target, a stun or a rage;
/// flyers hover.
pub proof fn recruits_have_their_traits<S: Scalar>(entity: u64, faction: Faction, card: u8, spec: MonsterSpec<S>, pos: Vec3<S>)
    ensures
        ({
            let m = recruit_spec(entity, faction, card, spec, pos);
            let height = S::ratio(2, 1).times(spec.radius);
            &&& m.entity == entity && m.faction == faction && m.card == card
            &&& m.pos.x == pos.x && m.pos.z == pos.z
            &&& m.pos.y == pos.y.plus(height.plus(if spec.flying { S::ratio(160, 100) } else { S::ratio(0, 1) }))
            &&& m.health.current == spec.hp && m.health.max == spec.hp
            &&& m.radius == spec.radius && m.mass == spec.mass
            &&& m.damage == spec.damage && m.splash_radius == spec.splash_radius
            &&& m.attack_range == spec.attack_range && m.aggro_range == spec.aggro_range
            &&& m.speed == spec.speed
            &&& m.ranged == spec.ranged && m.hits_air == spec.hits_air
            &&& m.flying == spec.flying && m.building_only == spec.building_only
            &&& m.target.is_none() && !m.engaged
            &&& m.stun_secs == S::ratio(0, 1) && m.rage_secs == S::ratio(0, 1) && m.rage_mult == S::ratio(1, 1)
            &&& m.timer.elapsed == 0 && m.timer.duration == spec.attack_interval.nanos()
            &&& match spec.charge {
                Some(s) => m.charge matches Some(w) && w.progress == S::ratio(0, 1) && w.windup == s.windup_secs
                    && w.speed_mult == s.speed_mult && w.damage_mult == s.damage_mult,
                None => m.charge.is_none(),
            }
        }),
{
}

/// Whether a shot reaches a unit within the tick: it flies 14 units a second, and needs to come no
/// nearer than half the unit's radius.
pub open spec fn gets_there<S: Scalar>(shot: Projectile<S>, s: UnitSnap<S>) -> bool {
    s.pos.minus(shot.pos).length().at_most(
        S::ratio(14, 1).times(S::ratio(1, 30)).plus(s.radius.times(S::ratio(50, 100))),
    )
}

proof fn lemma_bodies<S: Scalar>(snaps: Seq<UnitSnap<S>>, blast: Blast<S>, e: u64)
    ensures
        caught(bodies(snaps), blast, e) == exists|q: int|
            0 <= q < snaps.len() && (#[trigger] snaps[q]).entity == e && snaps[q].kind != UnitKind::Tower && blast.reaches(
                &snaps[q],
            ),
        forall|q: int| 0 <= q < bodies(snaps).len() ==> snaps.contains(#[trigger] bodies(snaps)[q]),
        named_apart(snaps) ==> named_apart(bodies(snaps)),
    decreases snaps.len(),
{
    if snaps.len() > 0 {
        let rest = snaps.drop_last();
        let n = snaps.len() - 1;
        let last = snaps.last();
        lemma_bodies(rest, blast, e);
        let (all, part) = (bodies(snaps), bodies(rest));
        assert forall|q: int| 0 <= q < all.len() implies snaps.contains(#[trigger] all[q]) by {
            if q < part.len() {
                assert(all[q] == part[q]);
                assert(rest.contains(part[q]));
                let k = choose|k: int| 0 <= k < rest.len() && rest[k] == part[q];
                assert(snaps[k] == part[q]);
            } else {
                assert(snaps[n] == last);
            }
        }
        if named_apart(snaps) {
            assert(named_apart(rest)) by {
                assert forall|i: int, j: int| 0 <= i < j < rest.len() implies (#[trigger] rest[i]).entity != (
                #[trigger] rest[j]).entity by {
                    assert(snaps[i].entity != snaps[j].entity);
                }
            }
            assert forall|i: int, j: int| 0 <= i < j < all.len() implies (#[trigger] all[i]).entity != (
            #[trigger] all[j]).entity by {
                if j < part.len() {
                    assert(part[i].entity != part[j].entity);
                } else {
                    assert(all[j] == last);
                    assert(all[i] == part[i]);
                    assert(rest.contains(part[i]));
                    let k = choose|k: int| 0 <= k < rest.len() && rest[k] == part[i];
                    assert(snaps[k].entity != snaps[n].entity);
                }
            }
        }
        if caught(all, blast, e) {
            let q = choose|q: int| 0 <= q < all.len() && (#[trigger] all[q]).entity == e && blast.reaches(&all[q]);
            if q < part.len() {
                assert(part[q].entity == e && blast.reaches(&part[q]));
                assert(caught(part, blast, e));
                let k = choose|k: int|
                    0 <= k < rest.len() && (#[trigger] rest[k]).entity == e && rest[k].kind != UnitKind::Tower
                        && blast.reaches(&rest[k]);
                assert(snaps[k] == rest[k]);
            } else {
                assert(snaps[n].entity == e && snaps[n].kind != UnitKind::Tower && blast.reaches(&snaps[n]));
            }
        }
        if exists|q: int|
            0 <= q < snaps.len() && (#[trigger] snaps[q]).entity == e && snaps[q].kind != UnitKind::Tower && blast.reaches(
                &snaps[q],
            ) {
            let q = choose|q: int|
                0 <= q < snaps.len() && (#[trigger] snaps[q]).entity == e && snaps[q].kind != UnitKind::Tower
                    && blast.reaches(&snaps[q]);
            if q < n {
                assert(rest[q] == snaps[q]);
                assert(caught(part, blast, e));
                let k = choose|k: int| 0 <= k < part.len() && (#[trigger] part[k]).entity == e && blast.reaches(&part[k]);
                assert(all[k] == part[k]);
            } else {
                assert(all[part.len() as int] == last);
            }
        }
    }
}

/// A shot that arrives hurts its target by its damage, once; with a splash every other enemy around
/// the target but the towers is hurt by as much, once, and nobody else is. It is gone then.
pub proof fn bolts_land_once<S: Scalar>(c: Camp<S>, shot: Projectile<S>, k: int, j: int)
    requires
        named_apart(roll_call(c)),
        0 <= k < roll_call(c).len(),
        0 <= j < roll_call(c).len(),
        roll_call(c)[k].entity == shot.target,
        gets_there(shot, roll_call(c)[k]),
    ensures
        ({
            let (t, s) = (roll_call(c)[k], roll_call(c)[j]);
            let inside = zero::<S>().less(shot.splash_radius) && s.kind != UnitKind::Tower && s.faction
                != shot.attacker && (s.flying ==> shot.hits_air) && s.pos.minus(t.pos).flat().length().at_most(
                shot.splash_radius.plus(s.radius),
            );
            &&& wounded(c, flown(c, shot))
            &&& loses(c, flown(c, shot), j, j == k || inside, shot.damage)
        }),
{
    let snaps = roll_call(c);
    let t = snaps[k];
    lemma_seen(snaps, k, 0);
    lemma_struck(c, shot.target, shot.damage, j);
    let hit = struck(c, shot.target, shot.damage);
    let blast = Blast {
        attacker: shot.attacker,
        spared: shot.target,
        hits_air: shot.hits_air,
        center: t.pos,
        radius: shot.splash_radius,
        damage: shot.damage,
    };
    lemma_bodies(snaps, blast, snaps[j].entity);
    lemma_swept(hit, blast, bodies(snaps), j);
    lemma_wounded(c, hit, swept(hit, blast, bodies(snaps)));
    if caught(bodies(snaps), blast, snaps[j].entity) {
        let q = choose|q: int|
            0 <= q < snaps.len() && (#[trigger] snaps[q]).entity == snaps[j].entity && snaps[q].kind != UnitKind::Tower
                && blast.reaches(&snaps[q]);
        if q < j {
            assert(snaps[q].entity != snaps[j].entity);
        } else if j < q {
            assert(snaps[j].entity != snaps[q].entity);
        }
    }
    if j < k {
        assert(snaps[j].entity != snaps[k].entity);
    } else if k < j {
        assert(snaps[k].entity != snaps[j].entity);
    }
    assert(flown(c, shot) == landed(c, shot, t.pos));
}

/// A shot whose target is gone vanishes; one that does not arrive flies on, straight towards its
/// target by a thirtieth of 14 units, and hurts nobody. All shots fly in the same tick, in order.
pub proof fn bolts_fly_on<S: Scalar>(c: Camp<S>, shots: Seq<Projectile<S>>, shot: Projectile<S>, k: int)
    requires
        named_apart(roll_call(c)),
    ensures
        (forall|q: int| 0 <= q < roll_call(c).len() ==> (#[trigger] roll_call(c)[q]).entity != shot.target) ==> flown(
            c,
            shot,
        ) == c,
        0 <= k < roll_call(c).len() && roll_call(c)[k].entity == shot.target && !gets_there(shot, roll_call(c)[k]) ==> {
            let p = flown(c, shot).shots.last();
            &&& flown(c, shot) == (Camp { shots: c.shots.push(p), ..c })
            &&& p == (Projectile { pos: p.pos, ..shot })
            &&& p.pos == shot.pos.plus(
                roll_call(c)[k].pos.minus(shot.pos).normalized().times(S::ratio(14, 1).times(S::ratio(1, 30))),
            )
        },
        all_flown(c, Seq::empty()) == c,
        all_flown(c, shots.push(shot)) == flown(all_flown(c, shots), shot),
{
    assert(shots.push(shot).drop_last() =~= shots);
    if forall|q: int| 0 <= q < roll_call(c).len() ==> (#[trigger] roll_call(c)[q]).entity != shot.target {
        lemma_unseen(roll_call(c), shot.target, 0);
    }
    if 0 <= k < roll_call(c).len() && roll_call(c)[k].entity == shot.target {
        lemma_seen(roll_call(c), k, 0);
    }
}

/// Every building takes its turn, one after the other, by the monsters of the start.
pub proof fn buildings_take_turns<S: Scalar>(
    c: Camp<S>,
    buildings: Seq<BuildingCard<S>>,
    b: BuildingCard<S>,
    monsters: Seq<Monster<S>>,
)
    ensures
        building_turns(c, Seq::empty(), monsters) == c,
        building_turns(c, buildings.push(b), monsters) == building_turn(building_turns(c, buildings, monsters), b, monsters),
{
    assert(buildings.push(b).drop_last() =~= buildings);
}

/// The towers fire one after the other, each its own shot.
pub proof fn towers_take_turns<S: Scalar>(towers: Seq<Tower<S>>, monsters: Seq<Monster<S>>, n: nat)
    ensures
        tower_shots(towers, monsters, 0).len() == 0,
        tower_shots(towers, monsters, n as int + 1) == (match tower_turn(towers[n as int], monsters).1 {
            Some(p) => tower_shots(towers, monsters, n as int).push(p),
            None => tower_shots(towers, monsters, n as int),
        }),
{
}

} // verus!
