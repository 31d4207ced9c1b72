//! What the compact battle promises: how monsters aim, strike and march, what guards do, and how
//! shots land.

use vstd::prelude::*;

use crate::combat::UnitSnap;
use crate::combat::attack::Blast;
use crate::combat::movement::steering_goal;
use crate::combat::nearest::{sane_pos, FAR};
use crate::combat::picture::named_apart;
use crate::components::{Charge, Health};
use crate::fixed::{abs, Fixed};
use crate::laws::strides::{lemma_numbers, lemma_step_along, lemma_way_length};
use crate::scalar::{zero, Scalar};
use crate::skirmish::{
    aimed, attack_step, building_place, calmed, clashed, discharged, monster_place, monster_turn,
    monster_turns, place_from, roll_call, seen, struck, swept, timer_spec, tower_place, AttackTimer,
    BuildingCard, Camp, Monster, Tower,
};
use crate::vector::Vec3;

verus! {

/// The health of unit `k` of the roll call.
pub open spec fn life<S: Scalar>(c: Camp<S>, k: int) -> Health<S> {
    let (m, t) = (c.monsters.len(), c.towers.len());
    if k < m {
        c.monsters[k].health
    } else if k < m + t {
        c.towers[k - m].health
    } else {
        c.buildings[k - m - t].health
    }
}

/// The same battle, but for the health of those on the field.
pub open spec fn wounded<S: Scalar>(c: Camp<S>, d: Camp<S>) -> bool {
    &&& d.shots == c.shots
    &&& d.next_entity == c.next_entity
    &&& d.monsters.len() == c.monsters.len()
    &&& d.towers.len() == c.towers.len()
    &&& d.buildings.len() == c.buildings.len()
    &&& forall|k: int|
        0 <= k < c.monsters.len() ==> (#[trigger] d.monsters[k]) == (Monster {
            health: d.monsters[k].health,
            ..c.monsters[k]
        })
    &&& forall|k: int|
        0 <= k < c.towers.len() ==> (#[trigger] d.towers[k]) == (Tower { health: d.towers[k].health, ..c.towers[k] })
    &&& forall|k: int|
        0 <= k < c.buildings.len() ==> (#[trigger] d.buildings[k]) == (BuildingCard {
            health: d.buildings[k].health,
            ..c.buildings[k]
        })
}

/// A unit has lost so much health in a blow, or none.
pub open spec fn loses<S: Scalar>(c: Camp<S>, d: Camp<S>, k: int, hit: bool, damage: S) -> bool {
    &&& life(d, k).max == life(c, k).max
    &&& life(d, k).current == (if hit { life(c, k).current.minus(damage) } else { life(c, k).current })
}

/// The distance on the ground from edge to edge.
pub open spec fn apart<S: Scalar>(m: Monster<S>, s: UnitSnap<S>) -> S {
    m.pos.minus(s.pos).flat().length().minus(m.radius).minus(s.radius)
}

/// Whether a unit is in reach of a monster.
pub open spec fn reaches<S: Scalar>(m: Monster<S>, s: UnitSnap<S>) -> bool {
    let reach = m.attack_range.plus(S::ratio(5, 100));
    apart(m, s).at_most(reach) && !reach.less(apart(m, s))
}

/// The damage that a monster deals now: more by its factor with a charge that is wound up.
pub open spec fn brunt<S: Scalar>(m: Monster<S>) -> S {
    match m.charge {
        Some(c) => if c.windup.at_most(c.progress) { m.damage.times(c.damage_mult) } else { m.damage },
        None => m.damage,
    }
}

/// Whether a monster is under rage in this tick: its rage lasts beyond it.
pub open spec fn raging<S: Scalar>(m: Monster<S>) -> bool {
    zero::<S>().less(m.rage_secs) && zero::<S>().less(m.rage_secs.minus(S::ratio(1, 30)))
}

/// By how many nanoseconds a blow is nearer after a tick.
pub open spec fn pace<S: Scalar>(m: Monster<S>) -> u64 {
    if raging(m) { S::ratio(1, 30).times(m.rage_mult).nanos() } else { 33_333_333 }
}

/// Whether a timer comes round with a step.
pub open spec fn comes_round(t: AttackTimer, step: u64) -> bool {
    t.duration == 0 || t.duration <= t.elapsed + step < t.duration * 0x1_0000_0000
}

/// Whether monster `i` is busy with unit `k`: it is not stunned, and the other is its target, an
/// enemy and in reach.
pub open spec fn engages<S: Scalar>(c: Camp<S>, i: int, k: int) -> bool {
    let (m, s) = (c.monsters[i], roll_call(c)[k]);
    &&& 0 <= i < c.monsters.len()
    &&& 0 <= k < roll_call(c).len()
    &&& m.target == Some(s.entity)
    &&& s.faction != m.faction
    &&& reaches(m, s)
    &&& !zero::<S>().less(m.stun_secs)
}

pub proof fn lemma_monster_found<S: Scalar>(list: Seq<Monster<S>>, e: u64, from: int)
    requires
        0 <= from,
    ensures
        match monster_place(list, e, from) {
            Some(p) => from <= p < list.len() && list[p].entity == e,
            None => forall|q: int| from <= q < list.len() ==> (#[trigger] list[q]).entity != e,
        },
    decreases list.len() - from,
{
    if from < list.len() && list[from].entity != e {
        lemma_monster_found(list, e, from + 1);
    }
}

proof fn lemma_tower_found<S: Scalar>(list: Seq<Tower<S>>, e: u64, from: int)
    requires
        0 <= from,
    ensures
        match tower_place(list, e, from) {
            Some(p) => from <= p < list.len() && list[p].entity == e,
            None => forall|q: int| from <= q < list.len() ==> (#[trigger] list[q]).entity != e,
        },
    decreases list.len() - from,
{
    if from < list.len() && list[from].entity != e {
        lemma_tower_found(list, e, from + 1);
    }
}

proof fn lemma_building_found<S: Scalar>(list: Seq<BuildingCard<S>>, e: u64, from: int)
    requires
        0 <= from,
    ensures
        match building_place(list, e, from) {
            Some(p) => from <= p < list.len() && list[p].entity == e,
            None => forall|q: int| from <= q < list.len() ==> (#[trigger] list[q]).entity != e,
        },
    decreases list.len() - from,
{
    if from < list.len() && list[from].entity != e {
        lemma_building_found(list, e, from + 1);
    }
}

pub proof fn lemma_seen<S: Scalar>(snaps: Seq<UnitSnap<S>>, k: int, from: int)
    requires
        named_apart(snaps),
        0 <= from <= k < snaps.len(),
    ensures
        place_from(snaps, snaps[k].entity, from) == Some(k),
    decreases snaps.len() - from,
{
    if from < k {
        assert(snaps[from].entity != snaps[k].entity);
        lemma_seen(snaps, k, from + 1);
    }
}

pub proof fn lemma_unseen<S: Scalar>(snaps: Seq<UnitSnap<S>>, e: u64, from: int)
    requires
        0 <= from,
        forall|q: int| from <= q < snaps.len() ==> (#[trigger] snaps[q]).entity != e,
    ensures
        place_from(snaps, e, from).is_none(),
    decreases snaps.len() - from,
{
    if from < snaps.len() {
        lemma_unseen(snaps, e, from + 1);
    }
}

proof fn lemma_roll<S: Scalar>(c: Camp<S>, k: int)
    requires
        0 <= k < roll_call(c).len(),
    ensures
        ({
            let (m, t) = (c.monsters.len(), c.towers.len());
            &&& roll_call(c).len() == m + t + c.buildings.len()
            &&& k < m ==> roll_call(c)[k].entity == c.monsters[k].entity
            &&& m <= k < m + t ==> roll_call(c)[k].entity == c.towers[k - m].entity
            &&& m + t <= k ==> roll_call(c)[k].entity == c.buildings[k - m - t].entity
        }),
{
}

/// A blow hurts the one whom it is for, once, and nobody else.
pub proof fn lemma_struck<S: Scalar>(c: Camp<S>, e: u64, damage: S, k: int)
    requires
        named_apart(roll_call(c)),
        0 <= k < roll_call(c).len(),
    ensures
        ({
            let d = struck(c, e, damage);
            &&& roll_call(d) == roll_call(c)
            &&& wounded(c, d)
            &&& loses(c, d, k, roll_call(c)[k].entity == e, damage)
        }),
{
    let d = struck(c, e, damage);
    let snaps = roll_call(c);
    let (m, t) = (c.monsters.len() as int, c.towers.len() as int);
    lemma_monster_found(c.monsters, e, 0);
    lemma_tower_found(c.towers, e, 0);
    lemma_building_found(c.buildings, e, 0);
    assert(roll_call(d) =~= snaps);
    assert(snaps.len() == m + t + c.buildings.len());
    let place = if monster_place(c.monsters, e, 0).is_some() {
        monster_place(c.monsters, e, 0)->0
    } else if tower_place(c.towers, e, 0).is_some() {
        m + tower_place(c.towers, e, 0)->0
    } else if building_place(c.buildings, e, 0).is_some() {
        m + t + building_place(c.buildings, e, 0)->0
    } else {
        -1
    };
    lemma_roll(c, k);
    if place >= 0 {
        lemma_roll(c, place);
        assert(snaps[place].entity == e);
        if k < place {
            assert(snaps[k].entity != snaps[place].entity);
        } else if place < k {
            assert(snaps[place].entity != snaps[k].entity);
        }
    }
}

/// Whether a blast reaches someone of this name in a list.
pub open spec fn caught<S: Scalar>(list: Seq<UnitSnap<S>>, blast: Blast<S>, e: u64) -> bool {
    exists|q: int| 0 <= q < list.len() && (#[trigger] list[q]).entity == e && blast.reaches(&list[q])
}

/// A blast hurts everyone whom it reaches once.
pub proof fn lemma_swept<S: Scalar>(c: Camp<S>, blast: Blast<S>, list: Seq<UnitSnap<S>>, k: int)
    requires
        named_apart(roll_call(c)),
        named_apart(list),
        0 <= k < roll_call(c).len(),
    ensures
        ({
            let d = swept(c, blast, list);
            &&& roll_call(d) == roll_call(c)
            &&& wounded(c, d)
            &&& loses(c, d, k, caught(list, blast, roll_call(c)[k].entity), blast.damage)
        }),
    decreases list.len(),
{
    let e = roll_call(c)[k].entity;
    if list.len() > 0 {
        let rest = list.drop_last();
        let n = list.len() - 1;
        assert(named_apart(rest)) by {
            assert forall|i: int, j: int| 0 <= i < j < rest.len() implies (#[trigger] rest[i]).entity != (
            #[trigger] rest[j]).entity by {
                assert(list[i].entity != list[j].entity);
            }
        }
        lemma_swept(c, blast, rest, k);
        let before = swept(c, blast, rest);
        lemma_struck(before, list.last().entity, blast.damage, k);
        if caught(rest, blast, e) {
            let q = choose|q: int| 0 <= q < rest.len() && (#[trigger] rest[q]).entity == e && blast.reaches(&rest[q]);
            assert(list[q] == rest[q]);
            assert(list[q].entity != list[n].entity);
            assert(caught(list, blast, e));
        } else if caught(list, blast, e) {
            let q = choose|q: int| 0 <= q < list.len() && (#[trigger] list[q]).entity == e && blast.reaches(&list[q]);
            if q < n {
                assert(rest[q] == list[q]);
            }
            assert(q == n);
        } else if blast.reaches(&list.last()) {
            assert(list[n] == list.last());
        }
    }
}

proof fn lemma_aims_on<S: Scalar>(c: Camp<S>, i: int, k: int)
    requires
        named_apart(roll_call(c)),
        engages(c, i, k),
    ensures
        seen(roll_call(c), roll_call(c)[k].entity) == Some(roll_call(c)[k]),
        aimed(calmed(c.monsters[i]), roll_call(c)) == calmed(c.monsters[i]),
{
    lemma_seen(roll_call(c), k, 0);
}

/// When a blow is due, the target of a monster that strikes loses the damage of one blow, once,
/// even if the monster splashes. With a splash every other enemy whose disc it touches loses as
/// much, flyers only if the monster hits air; nobody else loses anything. The timer starts anew,
/// a ready charge is spent, and no shot comes of it.
pub proof fn monsters_strike_once<S: Scalar>(c: Camp<S>, i: int, k: int, j: int)
    requires
        named_apart(roll_call(c)),
        engages(c, i, k),
        !c.monsters[i].ranged,
        comes_round(c.monsters[i].timer, pace(c.monsters[i])),
        0 <= j < roll_call(c).len(),
    ensures
        ({
            let (m, s) = (c.monsters[i], roll_call(c)[j]);
            let after = monster_turn(c, i, roll_call(c));
            let n = after.monsters[i];
            let splashed = zero::<S>().less(m.splash_radius) && s.faction != m.faction && (s.flying ==> m.hits_air)
                && s.pos.minus(m.pos).flat().length().at_most(m.splash_radius.plus(s.radius));
            &&& loses(c, after, j, j == k || splashed, brunt(m))
            &&& after.shots == c.shots
            &&& after.monsters.len() == c.monsters.len()
            &&& after.towers.len() == c.towers.len()
            &&& after.buildings.len() == c.buildings.len()
            &&& j < c.monsters.len() && j != i ==> after.monsters[j] == (Monster {
                health: after.monsters[j].health,
                ..c.monsters[j]
            })
            &&& n.pos == m.pos
            &&& n.target == m.target
            &&& n.engaged
            &&& n.timer.duration == m.timer.duration
            &&& m.timer.duration > 0 ==> n.timer.elapsed < m.timer.duration
            &&& match m.charge {
                Some(w) => n.charge == Some(
                    Charge { progress: if w.windup.at_most(w.progress) { zero() } else { w.progress }, ..w },
                ),
                None => n.charge.is_none(),
            }
        }),
{
    let snaps = roll_call(c);
    let m = calmed(c.monsters[i]);
    lemma_aims_on(c, i, k);
    lemma_due(m.timer, pace(c.monsters[i]));
    let n = Monster {
        engaged: true,
        timer: timer_spec(m.timer, pace(c.monsters[i])).0,
        charge: discharged(m.charge),
        ..m
    };
    let spent = Camp { monsters: c.monsters.update(i, n), ..c };
    assert(roll_call(spent) =~= snaps);
    let hit = struck(spent, snaps[k].entity, brunt(m));
    let after = monster_turn(c, i, snaps);
    assert(pace(c.monsters[i]) == attack_step(&m));
    assert(after == clashed(c, i, m, snaps[k], snaps));
    assert(after == (if zero::<S>().less(m.splash_radius) {
        swept(hit, around(m, snaps[k].entity), snaps)
    } else {
        hit
    }));
    lemma_blow(spent, m, k, j);
    assert(life(spent, j) == life(c, j));
    assert(wounded(spent, after));
    assert(after.monsters[i] == (Monster { health: after.monsters[i].health, ..spent.monsters[i] }));
    if j < c.monsters.len() && j != i {
        assert(after.monsters[j] == (Monster { health: after.monsters[j].health, ..spent.monsters[j] }));
    }
}

/// The splash of a monster around it.
spec fn around<S: Scalar>(m: Monster<S>, spared: u64) -> Blast<S> {
    Blast {
        attacker: m.faction,
        spared,
        hits_air: m.hits_air,
        center: m.pos,
        radius: m.splash_radius,
        damage: brunt(m),
    }
}

pub proof fn lemma_wounded<S: Scalar>(a: Camp<S>, b: Camp<S>, c: Camp<S>)
    requires
        wounded(a, b),
        wounded(b, c),
    ensures
        wounded(a, c),
{
    assert forall|k: int| 0 <= k < a.monsters.len() implies (#[trigger] c.monsters[k]) == (Monster {
        health: c.monsters[k].health,
        ..a.monsters[k]
    }) by {
        assert(b.monsters[k] == (Monster { health: b.monsters[k].health, ..a.monsters[k] }));
    }
    assert forall|k: int| 0 <= k < a.towers.len() implies (#[trigger] c.towers[k]) == (Tower {
        health: c.towers[k].health,
        ..a.towers[k]
    }) by {
        assert(b.towers[k] == (Tower { health: b.towers[k].health, ..a.towers[k] }));
    }
    assert forall|k: int| 0 <= k < a.buildings.len() implies (#[trigger] c.buildings[k]) == (BuildingCard {
        health: c.buildings[k].health,
        ..a.buildings[k]
    }) by {
        assert(b.buildings[k] == (BuildingCard { health: b.buildings[k].health, ..a.buildings[k] }));
    }
}

pub proof fn lemma_caught<S: Scalar>(snaps: Seq<UnitSnap<S>>, blast: Blast<S>, j: int)
    requires
        named_apart(snaps),
        0 <= j < snaps.len(),
    ensures
        caught(snaps, blast, snaps[j].entity) == blast.reaches(&snaps[j]),
{
    if caught(snaps, blast, snaps[j].entity) {
        let q = choose|q: int|
            0 <= q < snaps.len() && (#[trigger] snaps[q]).entity == snaps[j].entity && blast.reaches(&snaps[q]);
        if q < j {
            assert(snaps[q].entity != snaps[j].entity);
        } else if j < q {
            assert(snaps[j].entity != snaps[q].entity);
        }
    }
}

/// A blow with a splash: the target is hurt once, and so is everyone else whom the splash reaches.
proof fn lemma_blow<S: Scalar>(c: Camp<S>, m: Monster<S>, k: int, j: int)
    requires
        named_apart(roll_call(c)),
        0 <= k < roll_call(c).len(),
        0 <= j < roll_call(c).len(),
    ensures
        ({
            let snaps = roll_call(c);
            let hit = struck(c, snaps[k].entity, brunt(m));
            let all = swept(hit, around(m, snaps[k].entity), snaps);
            let s = snaps[j];
            &&& wounded(c, hit)
            &&& wounded(c, all)
            &&& loses(c, hit, j, j == k, brunt(m))
            &&& loses(
                c,
                all,
                j,
                j == k || s.faction != m.faction && (s.flying ==> m.hits_air) && s.pos.minus(
                    m.pos,
                ).flat().length().at_most(m.splash_radius.plus(s.radius)),
                brunt(m),
            )
        }),
{
    let snaps = roll_call(c);
    let blast = around(m, snaps[k].entity);
    lemma_struck(c, snaps[k].entity, brunt(m), j);
    let hit = struck(c, snaps[k].entity, brunt(m));
    lemma_swept(hit, blast, snaps, j);
    lemma_caught(snaps, blast, j);
    lemma_wounded(c, hit, swept(hit, blast, snaps));
    if j < k {
        assert(snaps[j].entity != snaps[k].entity);
    } else if k < j {
        assert(snaps[k].entity != snaps[j].entity);
    }
}

pub proof fn lemma_due(t: AttackTimer, step: u64)
    requires
        comes_round(t, step),
    ensures
        timer_spec(t, step).1,
        timer_spec(t, step).0.duration == t.duration,
        t.duration > 0 ==> timer_spec(t, step).0.elapsed < t.duration,
{
    if t.duration > 0 {
        let (total, d) = (t.elapsed + step, t.duration as int);
        vstd::arithmetic::div_mod::lemma_fundamental_div_mod(total, d);
        vstd::arithmetic::div_mod::lemma_mod_bound(total, d);
        let q = total / d;
        assert(0 < q < 0x1_0000_0000) by (nonlinear_arith)
            requires
                total == d * q + total % d,
                0 <= total % d < d,
                d <= total,
                total < d * 0x1_0000_0000,
                d > 0,
        ;
        assert(q % 0x1_0000_0000 == q) by {
            vstd::arithmetic::div_mod::lemma_small_mod(q as nat, 0x1_0000_0000);
        }
    }
}

/// When a blow of a monster that shoots is due, one shot flies: at its target, with the damage and
/// the splash of one blow, from above the monster. Nobody is hurt yet.
pub proof fn monsters_shoot_once<S: Scalar>(c: Camp<S>, i: int, k: int)
    requires
        named_apart(roll_call(c)),
        engages(c, i, k),
        c.monsters[i].ranged,
        comes_round(c.monsters[i].timer, pace(c.monsters[i])),
    ensures
        ({
            let m = c.monsters[i];
            let after = monster_turn(c, i, roll_call(c));
            let p = after.shots.last();
            &&& after.shots == c.shots.push(p)
            &&& p.target == roll_call(c)[k].entity
            &&& p.damage == brunt(m)
            &&& p.splash_radius == m.splash_radius
            &&& p.hits_air == m.hits_air
            &&& p.attacker == m.faction
            &&& p.pos.x == m.pos.x
            &&& p.pos.y == m.pos.y.plus(S::ratio(150, 100))
            &&& p.pos.z == m.pos.z
            &&& after.towers == c.towers
            &&& after.buildings == c.buildings
            &&& after.monsters.len() == c.monsters.len()
            &&& after.monsters[i].health == m.health
            &&& after.monsters[i].pos == m.pos
            &&& after.monsters[i].timer.duration == m.timer.duration
            &&& m.timer.duration > 0 ==> after.monsters[i].timer.elapsed < m.timer.duration
            &&& forall|j: int|
                0 <= j < c.monsters.len() && j != i ==> (#[trigger] after.monsters[j]) == c.monsters[j]
        }),
{
    let m = calmed(c.monsters[i]);
    lemma_aims_on(c, i, k);
    lemma_due(m.timer, pace(c.monsters[i]));
    assert(pace(c.monsters[i]) == attack_step(&m));
    assert(monster_turn(c, i, roll_call(c)) == clashed(c, i, m, roll_call(c)[k], roll_call(c)));
}

/// Before a blow is due nothing happens to anybody: the timer runs on, faster under rage, and the
/// rage itself is a thirtieth of a second older.
pub proof fn blows_wait_for_the_timer<S: Scalar>(c: Camp<S>, i: int, k: int)
    requires
        named_apart(roll_call(c)),
        engages(c, i, k),
        c.monsters[i].timer.elapsed + pace(c.monsters[i]) < c.monsters[i].timer.duration,
    ensures
        ({
            let m = c.monsters[i];
            let after = monster_turn(c, i, roll_call(c));
            let n = after.monsters[i];
            &&& after == (Camp { monsters: c.monsters.update(i, n), ..c })
            &&& n.timer.elapsed == m.timer.elapsed + pace(m)
            &&& n.rage_secs == (if zero::<S>().less(m.rage_secs) {
                m.rage_secs.minus(S::ratio(1, 30))
            } else {
                m.rage_secs
            })
            &&& n == (Monster { timer: n.timer, rage_secs: n.rage_secs, engaged: true, ..m })
        }),
{
    let m = calmed(c.monsters[i]);
    lemma_aims_on(c, i, k);
    assert(pace(c.monsters[i]) == attack_step(&m));
    assert(monster_turn(c, i, roll_call(c)) == clashed(c, i, m, roll_call(c)[k], roll_call(c)));
}

/// The speed of a monster on the march: by its factor more once its charge is wound up with this
/// tick, and again by the factor of its rage.
pub open spec fn haste<S: Scalar>(m: Monster<S>) -> S {
    let run = match m.charge {
        Some(c) => if c.windup.at_most(c.progress.plus(S::ratio(1, 30))) {
            m.speed.times(c.speed_mult)
        } else {
            m.speed
        },
        None => m.speed,
    };
    if raging(m) { run.times(m.rage_mult) } else { run }
}

/// Whether monster `i` is on its way to unit `k`: it is not stunned, and the other is its target,
/// an enemy, out of reach, and was not in reach before.
pub open spec fn approaches<S: Scalar>(c: Camp<S>, i: int, k: int) -> bool {
    let (m, s) = (c.monsters[i], roll_call(c)[k]);
    &&& 0 <= i < c.monsters.len()
    &&& 0 <= k < roll_call(c).len()
    &&& m.target == Some(s.entity)
    &&& s.faction != m.faction
    &&& !m.engaged
    &&& !apart(m, s).at_most(m.attack_range.plus(S::ratio(5, 100)))
    &&& !zero::<S>().less(m.stun_secs)
}

/// The way on the ground of a monster.
pub open spec fn way_of<S: Scalar>(m: Monster<S>, goal: Vec3<S>) -> Vec3<S> {
    Vec3 { x: goal.x.minus(m.pos.x), y: zero(), z: goal.z.minus(m.pos.z) }
}

/// On the march a monster goes as far towards its goal as its speed takes it in a thirtieth of a
/// second, but not past the goal, and no nearer to its target than it can strike from. Its charge
/// winds up by as much time. Nobody else is concerned.
pub proof fn monsters_march_at_their_speed<S: Scalar>(c: Camp<S>, i: int, k: int)
    requires
        named_apart(roll_call(c)),
        approaches(c, i, k),
    ensures
        ({
            let (m, s) = (c.monsters[i], roll_call(c)[k]);
            let goal = steering_goal(m.pos, s.pos, m.flying);
            let far = way_of(m, goal).length();
            let stop = m.attack_range.plus(m.radius).plus(s.radius);
            let left = if goal.same(s.pos) { far.minus(stop).most(zero()) } else { far };
            let after = monster_turn(c, i, roll_call(c));
            let n = after.monsters[i];
            &&& after == (Camp { monsters: c.monsters.update(i, n), ..c })
            &&& n == (Monster { pos: n.pos, charge: n.charge, rage_secs: n.rage_secs, ..m })
            &&& !S::ratio(1, 10000).less(far) ==> n.pos == m.pos && n.charge == m.charge
            &&& S::ratio(1, 10000).less(far) ==> {
                &&& n.pos == m.pos.plus(
                    way_of(m, goal).normalized().times(haste(m).times(S::ratio(1, 30)).least(left)),
                )
                &&& m.charge matches Some(w) ==> n.charge == Some(
                    Charge { progress: w.progress.plus(S::ratio(1, 30)), ..w },
                )
                &&& m.charge.is_none() ==> n.charge.is_none()
            }
        }),
{
    lemma_seen(roll_call(c), k, 0);
    let m = calmed(c.monsters[i]);
    assert(aimed(m, roll_call(c)) == m);
}

/// In fixed point: in a tick no monster gets further, in either direction of the ground, than its
/// share of a thirtieth of its speed; it never moves away from its goal nor past it.
pub proof fn monsters_do_not_outrun_their_speed(c: Camp<Fixed>, i: int, k: int)
    requires
        named_apart(roll_call(c)),
        approaches(c, i, k),
        sane_pos(c.monsters[i].pos),
        sane_pos(steering_goal(c.monsters[i].pos, roll_call(c)[k].pos, c.monsters[i].flying)),
        0 <= haste(c.monsters[i]).raw <= FAR,
        0 <= c.monsters[i].attack_range.raw <= FAR,
        0 <= c.monsters[i].radius.raw <= FAR,
        0 <= roll_call(c)[k].radius.raw <= FAR,
    ensures
        ({
            let (m, s) = (c.monsters[i], roll_call(c)[k]);
            let goal = steering_goal(m.pos, s.pos, m.flying);
            let n = monster_turn(c, i, roll_call(c)).monsters[i];
            let l = way_of(m, goal).length().raw as int;
            let v = haste(m).raw as int;
            let (wx, wz) = (goal.x.raw - m.pos.x.raw, goal.z.raw - m.pos.z.raw);
            let (dx, dz) = (n.pos.x.raw - m.pos.x.raw, n.pos.z.raw - m.pos.z.raw);
            &&& 30 * (abs(dx) * l) <= abs(wx) * v
            &&& 30 * (abs(dz) * l) <= abs(wz) * v
            &&& wx >= 0 ==> 0 <= dx <= wx
            &&& wx <= 0 ==> wx <= dx <= 0
            &&& wz >= 0 ==> 0 <= dz <= wz
            &&& wz <= 0 ==> wz <= dz <= 0
        }),
{
    let (m, b) = (c.monsters[i], roll_call(c)[k]);
    let goal = steering_goal(m.pos, b.pos, m.flying);
    monsters_march_at_their_speed(c, i, k);
    lemma_numbers();
    let way = way_of(m, goal);
    let far = way.length();
    lemma_way_length(way.x, way.z);
    let v = haste(m);
    let step = v.times(Fixed::ratio(1, 30));
    let q = v.raw * 2184 / 65536;
    assert(0 <= v.raw * 2184);
    assert(step.raw == q);
    assert(30 * q <= v.raw);
    let stop = m.attack_range.plus(m.radius).plus(b.radius);
    let left = if goal.same(b.pos) { far.minus(stop).most(zero()) } else { far };
    let s = step.least(left);
    let (x, z) = (abs(way.x.raw as int), abs(way.z.raw as int));
    if far.raw > 6 {
        assert(0 <= s.raw <= far.raw);
        lemma_step_along(m.pos, way.x, way.z, s);
        assert(30 * (x * s.raw) <= x * v.raw) by (nonlinear_arith)
            requires
                x >= 0,
                30 * s.raw <= v.raw,
        ;
        assert(30 * (z * s.raw) <= z * v.raw) by (nonlinear_arith)
            requires
                z >= 0,
                30 * s.raw <= v.raw,
        ;
    } else {
        assert(x * v.raw >= 0 && z * v.raw >= 0) by (nonlinear_arith)
            requires
                x >= 0,
                z >= 0,
                v.raw >= 0,
        ;
        let l = far.raw as int;
        assert(abs(0) * l == 0);
    }
}

/// A stunned monster loses a thirtieth of a second of its stun in a tick and its charge at once.
pub proof fn stuns_wear_off<S: Scalar>(c: Camp<S>, i: int)
    requires
        0 <= i < c.monsters.len(),
        zero::<S>().less(c.monsters[i].stun_secs),
    ensures
        ({
            let m = c.monsters[i];
            let n = monster_turn(c, i, roll_call(c)).monsters[i];
            &&& n.stun_secs == m.stun_secs.minus(S::ratio(1, 30))
            &&& m.charge matches Some(w) ==> n.charge == Some(Charge { progress: zero(), ..w })
            &&& m.charge.is_none() ==> n.charge.is_none()
            &&& n == (Monster { stun_secs: n.stun_secs, charge: n.charge, ..m })
        }),
{
}

/// Every monster takes its turn, one after the other, by the picture of the start.
pub proof fn monsters_take_turns<S: Scalar>(c: Camp<S>, n: nat, snaps: Seq<UnitSnap<S>>)
    ensures
        monster_turns(c, 0, snaps) == c,
        monster_turns(c, n as int + 1, snaps) == monster_turn(monster_turns(c, n as int, snaps), n as int, snaps),
{
}

} // verus!
