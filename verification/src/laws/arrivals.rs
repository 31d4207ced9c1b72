//! What cards bring: how many, when, where, and how strong.

use vstd::prelude::*;

use crate::arena::{opening_spec, towers_of};
use crate::cards::{play_card_spec, playable, TowerSnap};
use crate::components::{Actor, Charge, Deploying, Faction, TargetPolicy, UnitKind};
use crate::constants::{card_spec, BuildingSpec, CardKind, MonsterSpec};
use crate::match_flow::SimState;
use crate::scalar::{zero, Scalar};
use crate::sim::{expired, worn};
use crate::spawn::{landed, spawned, spawned_upto, waiting, Ranks};
use crate::vector::Vec3;
use crate::world::WorldModel;

verus! {

/// Whether a unit is a troop of a side with the traits of its card: full health, its own damage,
/// reach, sight, speed and size, no target, and an attack that takes a full interval to come.
pub open spec fn troop_of<S: Scalar>(a: Actor<S>, side: Faction, id: u8, m: MonsterSpec<S>) -> bool {
    &&& a.unit.kind == UnitKind::Troop
    &&& a.unit.faction == side
    &&& a.unit.card == Some(id)
    &&& a.unit.radius == m.radius
    &&& a.unit.mass == m.mass
    &&& a.health.current == m.hp
    &&& a.health.max == m.hp
    &&& a.mover == Some(m.speed)
    &&& a.flying == m.flying
    &&& !a.king
    &&& a.lifetime.is_none()
    &&& a.spawner.is_none()
    &&& a.attacker matches Some(att) && {
        &&& att.damage == m.damage
        &&& att.attack_range == m.attack_range
        &&& att.interval == m.attack_interval
        &&& att.cooldown == m.attack_interval
        &&& att.splash_radius == m.splash_radius
        &&& att.hits_air == m.hits_air
        &&& att.ranged == m.ranged
        &&& att.target.is_none()
        &&& !att.engaged
    }
    &&& a.targeting matches Some(TargetPolicy::Seek { aggro_range, building_only }) && aggro_range == m.aggro_range
        && building_only == m.building_only
    &&& match m.charge {
        Some(c) => a.charge == Some(
            Charge {
                progress: zero::<S>(),
                windup: c.windup_secs,
                speed_mult: c.speed_mult,
                damage_mult: c.damage_mult,
            },
        ),
        None => a.charge.is_none(),
    }
}

/// Whether a unit is a building of a side with the traits of its card: full health and its time,
/// a gun that is ready at once, and a spawner that takes a full interval.
pub open spec fn building_of<S: Scalar>(a: Actor<S>, side: Faction, id: u8, b: BuildingSpec<S>) -> bool {
    &&& a.unit.kind == UnitKind::Building
    &&& a.unit.faction == side
    &&& a.unit.card == Some(id)
    &&& a.unit.radius == S::ratio(60, 100)
    &&& a.health.current == b.hp
    &&& a.health.max == b.hp
    &&& a.mover.is_none()
    &&& a.charge.is_none()
    &&& !a.flying
    &&& !a.king
    &&& a.lifetime == Some(b.lifetime_secs)
    &&& a.targeting matches Some(TargetPolicy::Guard)
    &&& match b.attack {
        Some(g) => a.attacker matches Some(att) && att.damage == g.damage && att.attack_range == g.range
            && att.interval == g.interval && att.cooldown == zero::<S>() && att.splash_radius == zero::<S>()
            && att.hits_air == g.hits_air && att.ranged && att.target.is_none() && !att.engaged,
        None => a.attacker.is_none(),
    }
    &&& match b.spawner {
        Some(s) => a.spawner matches Some(t) && t.interval == s.interval_secs && t.card_id == s.card_id
            && t.cooldown == s.interval_secs,
        None => a.spawner.is_none(),
    }
}

/// Of the cards on their way those with one tick left land, and nothing else comes: one unit each,
/// at the point of the card, with the next name, without buffs and with the traits of the card.
pub proof fn cards_land_with_their_traits<S: Scalar>(r: Ranks<S>, ghosts: Seq<Deploying<S>>, g: Deploying<S>)
    requires
        g.ticks_left >= 1,
    ensures
        ({
            let before = landed(r, ghosts);
            let after = landed(r, ghosts.push(g));
            &&& landed(r, Seq::empty()) == r
            &&& g.ticks_left > 1 ==> after == before
            &&& card_spec::<S>(g.card).is_none() ==> after == before
            &&& g.ticks_left == 1 ==> (card_spec::<S>(g.card) matches Some(c) ==> {
                let a = after.units.last();
                &&& c.kind is Spell ==> after == before
                &&& !(c.kind is Spell) ==> {
                    &&& after.units == before.units.push(a)
                    &&& after.statuses == before.statuses.push(None)
                    &&& a.entity == before.next_entity
                    &&& before.next_entity < u64::MAX ==> after.next_entity == before.next_entity + 1
                    &&& a.pos.x == g.pos.x
                    &&& a.pos.z == g.pos.z
                }
                &&& c.kind matches CardKind::Troop(m) ==> troop_of(a, g.faction, g.card, m) && a.pos.y == S::ratio(0, 1).plus(
                    S::ratio(2, 1).times(m.radius).plus(if m.flying { S::ratio(160, 100) } else { S::ratio(0, 1) }),
                )
                &&& c.kind matches CardKind::Building(b) ==> building_of(a, g.faction, g.card, b) && a.pos.y == S::ratio(
                    0,
                    1,
                ).plus(S::ratio(70, 100))
            })
        }),
{
    assert(ghosts.push(g).drop_last() =~= ghosts);
}

/// Cards on their way one after the other.
pub open spec fn waiting_after<S: Scalar>(ghosts: Seq<Deploying<S>>, n: nat) -> Seq<Deploying<S>>
    decreases n,
{
    if n == 0 {
        ghosts
    } else {
        waiting(waiting_after(ghosts, (n - 1) as nat))
    }
}

/// A card on its way takes as many ticks as it has: it is there with one tick less after each, and
/// gone with the last; what others do does not matter.
pub proof fn cards_come_on_time<S: Scalar>(g: Deploying<S>, n: nat)
    requires
        g.ticks_left >= 1,
    ensures
        n < g.ticks_left ==> waiting_after(seq![g], n) == seq![
            Deploying { ticks_left: (g.ticks_left - n) as u32, ..g },
        ],
        n >= g.ticks_left ==> waiting_after(seq![g], n) == Seq::<Deploying<S>>::empty(),
    decreases n,
{
    if n > 0 {
        cards_come_on_time(g, (n - 1) as nat);
        reveal_with_fuel(waiting, 2);
        let before = waiting_after(seq![g], (n - 1) as nat);
        if before.len() > 0 {
            assert(before.drop_last() =~= Seq::<Deploying<S>>::empty());
            assert(waiting_after(seq![g], n) =~= (if n < g.ticks_left {
                seq![Deploying { ticks_left: (g.ticks_left - n) as u32, ..g }]
            } else {
                Seq::empty()
            }));
        }
    }
}

/// Cards on their way do not get in each other's way.
pub proof fn cards_come_side_by_side<S: Scalar>(ghosts: Seq<Deploying<S>>, g: Deploying<S>)
    requires
        g.ticks_left >= 1,
    ensures
        waiting(ghosts.push(g)) == (if g.ticks_left == 1 {
            waiting(ghosts)
        } else {
            waiting(ghosts).push(Deploying { ticks_left: (g.ticks_left - 1) as u32, ..g })
        }),
        waiting(Seq::<Deploying<S>>::empty()) == Seq::<Deploying<S>>::empty(),
{
    assert(ghosts.push(g).drop_last() =~= ghosts);
}

/// A troop card that is played sends as many on their way as it has, each of the card and for the
/// side that played it, with the time of the card: the first at the point itself, the others a
/// step behind it to the left and to the right. A building card sends one, at the point.
pub proof fn plays_send_their_units<S: Scalar>(
    m: WorldModel<S>,
    side: Faction,
    id: u8,
    pos: Vec3<S>,
    towers: Seq<TowerSnap<S>>,
    k: int,
)
    requires
        playable(m, side, id, pos, towers).is_some(),
    ensures
        ({
            let c = card_spec::<S>(id)->0;
            let after = play_card_spec(m, side, id, pos, towers);
            let n = if c.kind is Troop {
                c.count as int
            } else if c.kind is Building {
                1
            } else {
                0
            };
            &&& after.ghosts.len() == m.ghosts.len() + n
            &&& forall|j: int| 0 <= j < m.ghosts.len() ==> after.ghosts[j] == m.ghosts[j]
            &&& 0 <= k < n ==> {
                let g = after.ghosts[m.ghosts.len() + k];
                &&& g.card == id
                &&& g.faction == side
                &&& g.ticks_left == c.deploy_ticks
                &&& c.kind is Building ==> g.pos.x == pos.x && g.pos.z == pos.z
                &&& c.kind is Troop && k % 3 == 0 ==> g.pos.x == pos.x.plus(S::ratio(0, 1)) && g.pos.z == pos.z.plus(
                    S::ratio(0, 1),
                )
                &&& c.kind is Troop && k % 3 == 1 ==> g.pos.x == pos.x.plus(S::ratio(60, 100).negated())
                    && g.pos.z == pos.z.plus(S::ratio(50, 100).negated())
                &&& c.kind is Troop && k % 3 == 2 ==> g.pos.x == pos.x.plus(S::ratio(60, 100)) && g.pos.z
                    == pos.z.plus(S::ratio(50, 100).negated())
            }
            &&& after.units.len() == m.units.len()
            &&& after.shots == m.shots
            &&& !(c.kind is Spell) ==> after.units == m.units && after.statuses == m.statuses && after.volleys
                == m.volleys
            &&& after.timer == m.timer && after.state == m.state && after.tick == m.tick && after.log == m.log
        }),
{
    let c = card_spec::<S>(id)->0;
    assert(c.id == id);
}

/// What the cards are, in numbers: cost, count, health and damage of each.
pub open spec fn listed(id: int) -> (int, int, int, int) {
    seq![
        (3int, 1int, 2000int, 100int),
        (1, 3, 300, 50),
        (4, 1, 1000, 120),
        (5, 1, 5000, 150),
        (2, 3, 360, 70),
        (3, 2, 450, 80),
        (4, 1, 1600, 350),
        (5, 4, 900, 100),
        (4, 1, 1600, 150),
        (5, 1, 1900, 200),
        (3, 1, 400, 190),
        (4, 1, 1800, 210),
        (5, 1, 1100, 182),
        (3, 3, 320, 80),
        (4, 1, 1200, 160),
        (2, 0, 0, 160),
        (3, 0, 0, 300),
        (4, 0, 0, 550),
        (2, 0, 0, 0),
        (3, 1, 1400, 90),
        (3, 1, 800, 0),
    ][id]
}

/// The catalogue: every card has its number, its price, how many it brings and how strong they
/// are; what is no spell takes a second to come, and a spell takes effect at once.
pub proof fn catalogue_is_as_listed<S: Scalar>(id: u8)
    ensures
        card_spec::<S>(id).is_some() <==> id < 21,
        card_spec::<S>(id) matches Some(c) ==> {
            let (cost, count, hp, damage) = listed(id as int);
            &&& c.id == id
            &&& c.cost == S::ratio(cost as i64, 1)
            &&& c.count == count
            &&& c.deploy_ticks == (if c.kind is Spell { 0u32 } else { 30 })
            &&& id < 15 <==> c.kind is Troop
            &&& 15 <= id < 19 <==> c.kind is Spell
            &&& id >= 19 <==> c.kind is Building
            &&& c.kind matches CardKind::Troop(m) ==> m.hp == S::ratio(hp as i64, 1) && m.damage == S::ratio(
                damage as i64,
                1,
            ) && (m.flying <==> id == 13 || id == 14) && (m.building_only <==> id == 3 || id == 8)
                && (m.charge.is_some() <==> id == 9)
            &&& c.kind matches CardKind::Spell(s) ==> s.damage == S::ratio(damage as i64, 1) && (s.rage.is_some()
                <==> id == 18) && (s.waves > 1 <==> id == 16)
            &&& c.kind matches CardKind::Building(b) ==> b.hp == S::ratio(hp as i64, 1) && (b.attack.is_some()
                <==> id == 19) && (b.spawner.is_some() <==> id == 20)
        },
{
}

/// A building crumbles when its time is over and not before: each tick takes a thirtieth of a
/// second from it, and nothing from those without a time.
pub proof fn buildings_crumble_in_time<S: Scalar>(a: Actor<S>)
    ensures
        worn(a) == (Actor { lifetime: worn(a).lifetime, ..a }),
        a.lifetime matches Some(t) ==> worn(a).lifetime == Some(t.minus(S::ratio(1, 30))) && (expired(&worn(a))
            <==> t.minus(S::ratio(1, 30)).at_most(S::ratio(0, 1))),
        a.lifetime.is_none() ==> worn(a) == a && !expired(&worn(a)),
{
}

/// A spawner sends out a troop of its card, for its own side and where it stands, whenever its
/// interval has passed; the troop has the traits of the card.
pub proof fn spawners_send_their_card<S: Scalar>(r: Ranks<S>, n: int)
    requires
        0 < n <= r.units.len(),
        spawned_upto(r, n - 1).units.len() >= r.units.len(),
    ensures
        ({
            let before = spawned_upto(r, n - 1);
            let after = spawned_upto(r, n);
            let a = before.units[n - 1];
            &&& a.spawner.is_none() ==> after.units =~= before.units && after.next_entity == before.next_entity
            &&& a.spawner matches Some(s) ==> {
                let left = s.cooldown.minus(S::ratio(1, 30));
                let b = after.units[n - 1];
                &&& b == (Actor { spawner: b.spawner, ..a })
                &&& zero::<S>().less(left) ==> after.units.len() == before.units.len()
                &&& b.spawner matches Some(t) && t.interval == s.interval && t.card_id == s.card_id && t.cooldown == (
                if zero::<S>().less(left) {
                    left
                } else {
                    s.interval
                })
                &&& !zero::<S>().less(left) ==> (card_spec::<S>(s.card_id) matches Some(c) ==> (
                c.kind matches CardKind::Troop(m) ==> {
                    let u = after.units.last();
                    &&& after.units.len() == before.units.len() + 1
                    &&& troop_of(u, a.unit.faction, s.card_id, m)
                    &&& u.entity == before.next_entity
                    &&& u.pos.x == a.pos.x && u.pos.z == a.pos.z
                }))
            }
        }),
{
}

/// The field at the start of a match: three towers a side, all of full health, a king of 10000 in
/// the middle and two princesses of 6000 before it to the left and to the right; red's stand
/// where blue's stand, mirrored. Both sides start with five elixir, nobody is on the way, and
/// the clock stands at three minutes.
pub proof fn matches_start_even<S: Scalar>(seed: u32, state: SimState)
    ensures
        ({
            let m = opening_spec::<S>(seed, state);
            let minus = S::ratio(1, 1).negated();
            &&& m.units.len() == 6
            &&& forall|i: int|
                0 <= i < 6 ==> {
                    let a = #[trigger] m.units[i];
                    let sign = if i < 3 { minus } else { S::ratio(1, 1) };
                    &&& a.entity == i
                    &&& a.unit.kind == UnitKind::Tower
                    &&& a.unit.faction == (if i < 3 { Faction::Player } else { Faction::Enemy })
                    &&& a.king <==> i == 0 || i == 3
                    &&& a.unit.radius == (if i == 0 || i == 3 { S::ratio(120, 100) } else { S::ratio(1, 1) })
                    &&& a.health.current == a.health.max
                    &&& a.health.max == S::ratio(if i == 0 || i == 3 { 10000 } else { 6000 }, 1)
                    &&& a.pos.x == (if i == 0 || i == 3 {
                        S::ratio(0, 1)
                    } else if i == 1 || i == 4 {
                        S::ratio(650, 100).negated()
                    } else {
                        S::ratio(650, 100)
                    })
                    &&& a.pos.z == sign.times(S::ratio(if i == 0 || i == 3 { 1250 } else { 850 }, 100))
                    &&& a.attacker matches Some(att) && att.damage == S::ratio(200, 1) && att.attack_range == S::ratio(
                        6,
                        1,
                    ) && att.interval == S::ratio(1, 1) && att.cooldown == S::ratio(1, 1) && att.ranged && att.hits_air && att.target.is_none()
                    &&& a.targeting matches Some(TargetPolicy::Guard)
                    &&& a.mover.is_none() && a.lifetime.is_none() && a.spawner.is_none()
                }
            &&& m.elixir.player == S::ratio(5, 1)
            &&& m.elixir.enemy == S::ratio(5, 1)
            &&& m.timer.ticks_left == 30 * 180
            &&& m.tick == 0
            &&& m.state == state
            &&& m.ghosts.len() == 0 && m.volleys.len() == 0 && m.shots.len() == 0 && m.log.len() == 0
        }),
{
    let m = opening_spec::<S>(seed, state);
    assert(m.units[0] == towers_of::<S>(Faction::Player, 0)[0]);
    assert(m.units[1] == towers_of::<S>(Faction::Player, 0)[1]);
    assert(m.units[2] == towers_of::<S>(Faction::Player, 0)[2]);
    assert(m.units[3] == towers_of::<S>(Faction::Enemy, 3)[0]);
    assert(m.units[4] == towers_of::<S>(Faction::Enemy, 3)[1]);
    assert(m.units[5] == towers_of::<S>(Faction::Enemy, 3)[2]);
}

/// Every spawner on the field gets its turn in a tick; those who have just come do not.
pub proof fn every_spawner_works<S: Scalar>(r: Ranks<S>)
    ensures
        spawned_upto(r, 0) == r,
        spawned(r) == spawned_upto(r, r.units.len() as int),
{
}

} // verus!
