//! What spells come to: at once or in waves, whom they stun, and what their waves do.

use vstd::prelude::*;

use crate::cards::{cast, play_card_spec, playable, spelled_status, volley, TowerSnap};
use crate::combat::nearest::lemma_quotient;
use crate::components::{Actor, CCFlags, Faction, SpellVolley, UnitKind};
use crate::constants::SpellSpec;
use crate::fixed::Fixed;
use crate::scalar::{zero, Scalar};
use crate::vector::Vec3;
use crate::volley::{rain, volleys_spec, Barrage};
use crate::world::WorldModel;

verus! {

/// A spell of one blow takes effect at once. One of several waves becomes a volley of its side at
/// the point: as many waves as it has, each with an equal part of the damage, the first after
/// fifteen ticks and then one every twelve; until then nobody feels it.
pub proof fn waves_follow_the_spell<S: Scalar>(
    m: WorldModel<S>,
    side: Faction,
    id: u8,
    pos: Vec3<S>,
    towers: Seq<TowerSnap<S>>,
)
    requires
        playable(m, side, id, pos, towers).is_some(),
        (playable(m, side, id, pos, towers)->0).1.kind is Spell,
    ensures
        ({
            let spell = (playable(m, side, id, pos, towers)->0).1.kind->Spell_0;
            let after = play_card_spec(m, side, id, pos, towers);
            let v = after.volleys.last();
            &&& after.ghosts == m.ghosts
            &&& spell.waves <= 1 ==> {
                &&& after.volleys == m.volleys
                &&& after.units == cast(m, spell, side, pos).units
                &&& after.statuses == cast(m, spell, side, pos).statuses
            }
            &&& spell.waves > 1 ==> {
                &&& after.units == m.units
                &&& after.statuses == m.statuses
                &&& after.volleys == m.volleys.push(v)
                &&& v.faction == side
                &&& v.x == pos.x && v.z == pos.z
                &&& v.radius == spell.radius
                &&& v.damage == spell.damage.over(S::ratio(spell.waves as i64, 1))
                &&& v.waves_left == spell.waves
                &&& v.next_in == 15
                &&& v.interval == 12
            }
        }),
{
}

/// In fixed point: all waves of a spell together do its damage, but for what the division loses, which
/// is less than a 65536th per wave.
pub proof fn waves_share_the_damage(spell: SpellSpec<Fixed>, side: Faction, pos: Vec3<Fixed>)
    requires
        0 < spell.waves <= 1000,
        0 <= spell.damage.raw <= 0x100_0000_0000,
    ensures
        ({
            let v = volley(&spell, side, pos);
            spell.damage.raw - spell.waves < v.waves_left * v.damage.raw <= spell.damage.raw
        }),
{
    let n = spell.waves as int;
    lemma_quotient(n * 65536, 1, n * 65536);
    let whole = Fixed::ratio(spell.waves as i64, 1);
    assert(whole.raw == n * 65536);
    let d = spell.damage.raw as int;
    let q = (d * 65536) / (n * 65536);
    vstd::arithmetic::div_mod::lemma_fundamental_div_mod(d * 65536, n * 65536);
    vstd::arithmetic::div_mod::lemma_mod_bound(d * 65536, n * 65536);
    vstd::arithmetic::div_mod::lemma_div_pos_is_pos(d * 65536, n * 65536);
    assert(n * q <= d < n * q + n) by (nonlinear_arith)
        requires
            d * 65536 == (n * 65536) * q + (d * 65536) % (n * 65536),
            0 <= (d * 65536) % (n * 65536) < n * 65536,
    ;
    assert(q <= d) by (nonlinear_arith)
        requires
            n * q <= d,
            n >= 1,
            q >= 0,
    ;
}

/// In a tick a volley whose time has come hurts every enemy troop and building within its radius by
/// the damage of one wave, once, and nobody else; the others only wait. A wave less is left then,
/// and with the last one the volley is gone.
pub proof fn waves_land_once<S: Scalar>(b: Barrage<S>, v: SpellVolley<S>, i: int)
    requires
        v.wf(),
        0 <= i < b.units.len(),
    ensures
        ({
            let after = rain(b, v);
            let (x, y) = (b.units[i], after.units[i]);
            let far = Vec3 { x: x.pos.x.minus(v.x), y: zero::<S>(), z: x.pos.z.minus(v.z) };
            let struck = v.next_in == 0 && x.unit.kind != UnitKind::Tower && x.unit.faction != v.faction
                && far.length().at_most(v.radius);
            &&& after.units.len() == b.units.len()
            &&& y == (Actor { health: y.health, ..x })
            &&& y.health.max == x.health.max
            &&& y.health.current == (if struck { x.health.current.minus(v.damage) } else { x.health.current })
            &&& v.next_in > 0 ==> after.volleys == b.volleys.push(SpellVolley { next_in: (v.next_in - 1) as u32, ..v })
            &&& v.next_in == 0 && v.waves_left == 1 ==> after.volleys == b.volleys
            &&& v.next_in == 0 && v.waves_left > 1 ==> after.volleys == b.volleys.push(
                SpellVolley { next_in: (v.interval - 1) as u32, waves_left: (v.waves_left - 1) as u32, ..v },
            )
        }),
{
}

/// Every volley has its tick, one after the other.
pub proof fn every_volley_counts_down<S: Scalar>(units: Seq<Actor<S>>, volleys: Seq<SpellVolley<S>>, v: SpellVolley<S>)
    ensures
        volleys_spec(units, Seq::empty()) == (Barrage { units, volleys: Seq::empty() }),
        volleys_spec(units, volleys.push(v)) == rain(volleys_spec(units, volleys), v),
{
    assert(volleys.push(v).drop_last() =~= volleys);
}

/// A stunning spell stuns the enemy troops within its radius for its time, and nobody else: neither
/// friends nor structures nor who stands outside.
pub proof fn spells_stun_enemies_inside<S: Scalar>(a: Actor<S>, spell: SpellSpec<S>, side: Faction, pos: Vec3<S>)
    requires
        spell.rage.is_none(),
    ensures
        ({
            let after = spelled_status(a, None, spell, side, pos);
            let inside = a.unit.kind == UnitKind::Troop && a.unit.faction != side && !spell.radius.less(
                a.pos.minus(pos).flat().length(),
            ) && zero::<S>().less(spell.stun_secs);
            &&& inside ==> (after matches Some(list) && list.len() == 1 && list[0].flags == CCFlags::stun() && list[0].secs
                == spell.stun_secs && list[0].effects.len() == 0)
            &&& !inside ==> after.is_none()
        }),
{
}

} // verus!
