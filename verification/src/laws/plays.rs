//! What it takes to play a card, and what spells do.

use vstd::prelude::*;

use crate::buffs::{channels_spec, fold_buffs, fold_effects, stat_spec, BuffModel};
use crate::cards::{
    cast, deploy_zone_ok_spec, guarded, guards, play_card_spec, playable, rage_model,
    spelled_status, TowerSnap,
};
use crate::combat::nearest::{lemma_quotient, sane_pos};
use crate::components::{
    cc_channels, Actor, CCFlags, Elixir, Faction, Op, Slot, StatKind, StatMod, UnitKind,
};
use crate::constants::{card_spec, CardKind, CardSpec, RageSpec, SpellSpec};
use crate::decks::hand_position_from;
use crate::elixir::regenerated;
use crate::fixed::{abs, quotient, Fixed};
use crate::match_flow::{MatchPhase, MatchTimer};
use crate::scalar::{zero, Scalar};
use crate::vector::Vec3;
use crate::world::WorldModel;

verus! {

/// A card can be played exactly if it exists, is one of the first four of the deck, costs no more
/// than there is, and may go where it is to go.
pub proof fn what_it_takes_to_play<S: Scalar>(
    m: WorldModel<S>,
    side: Faction,
    id: u8,
    pos: Vec3<S>,
    towers: Seq<TowerSnap<S>>,
)
    requires
        m.decks.queue(side).len() >= 4,
    ensures
        playable(m, side, id, pos, towers).is_some() <==> {
            &&& exists|i: int| 0 <= i < 4 && #[trigger] m.decks.queue(side)[i] == id
            &&& card_spec::<S>(id) matches Some(c) && {
                &&& !(match side {
                    Faction::Player => m.elixir.player,
                    Faction::Enemy => m.elixir.enemy,
                }).less(c.cost)
                &&& deploy_zone_ok_spec(c, side, pos, towers)
            }
        },
{
    lemma_hand(m.decks.queue(side), id, 0);
}

proof fn lemma_hand(queue: Seq<u8>, id: u8, from: int)
    requires
        0 <= from,
    ensures
        hand_position_from(queue, id, from).is_some() <==> exists|i: int| from <= i < 4 && #[trigger] queue[i] == id,
        hand_position_from(queue, id, from) matches Some(i) ==> from <= i < 4 && queue[i] == id,
    decreases 4 - from,
{
    if from < 4 && queue[from] != id {
        lemma_hand(queue, id, from + 1);
    } else if from < 4 {
        assert(queue[from] == id);
    }
}

/// The price is paid by the one who plays, and by nobody else.
pub proof fn the_player_pays(m: WorldModel<Fixed>, side: Faction, id: u8, pos: Vec3<Fixed>, towers: Seq<TowerSnap<Fixed>>)
    requires
        m.elixir.player.raw >= 0,
        m.elixir.enemy.raw >= 0,
    ensures
        ({
            let n = play_card_spec(m, side, id, pos, towers);
            let cost = match card_spec::<Fixed>(id) {
                Some(c) => c.cost.raw as int,
                None => 0,
            };
            &&& playable(m, side, id, pos, towers).is_none() ==> n == m
            &&& playable(m, side, id, pos, towers).is_some() && side == Faction::Player ==> n.elixir.player.raw
                == m.elixir.player.raw - cost && n.elixir.enemy == m.elixir.enemy && n.elixir.player.raw >= 0
            &&& playable(m, side, id, pos, towers).is_some() && side == Faction::Enemy ==> n.elixir.enemy.raw
                == m.elixir.enemy.raw - cost && n.elixir.player == m.elixir.player && n.elixir.enemy.raw >= 0
        }),
{
    lemma_costs(id);
}

proof fn lemma_costs(id: u8)
    ensures
        card_spec::<Fixed>(id) matches Some(c) ==> 65536 <= c.cost.raw <= 5 * 65536,
{
    lemma_quotient(1int * 65536, 1, 65536);
    lemma_quotient(2int * 65536, 1, 131072);
    lemma_quotient(3int * 65536, 1, 196608);
    lemma_quotient(4int * 65536, 1, 262144);
    lemma_quotient(5int * 65536, 1, 327680);
}

/// Where cards may go, by 65536ths: spells anywhere on the field of 16 by 28 units; nothing else in
/// the river, which is 2.5 wide; buildings in the own half up to its end; troops in the own half,
/// and in the other half up to 8.5 deep on a flank without a standing princess tower. Blue's half
/// is that of negative depth.
pub proof fn zones_by_numbers(c: CardSpec<Fixed>, side: Faction, pos: Vec3<Fixed>, towers: Seq<TowerSnap<Fixed>>)
    requires
        sane_pos(pos),
    ensures
        ({
            let (x, z) = (pos.x.raw as int, pos.z.raw as int);
            let own = (side == Faction::Player) == (z < 0);
            let dry = abs(z) >= 81920;
            let manned = exists|i: int|
                0 <= i < towers.len() && (#[trigger] towers[i]).faction != side && !towers[i].is_king && (
                towers[i].pos.x.raw < 0) == (x < 0);
            deploy_zone_ok_spec(c, side, pos, towers) <==> match c.kind {
                CardKind::Spell(_) => abs(x) <= 8 * 65536 && abs(z) <= 14 * 65536,
                CardKind::Building(_) => own && dry && abs(z) <= 14 * 65536,
                CardKind::Troop(_) => dry && (own || abs(z) <= 557056 && !manned),
            }
        }),
{
    lemma_quotient(0, 1, 0);
    lemma_quotient(65536, 1, 65536);
    lemma_quotient(8int * 65536, 1, 524288);
    lemma_quotient(14int * 65536, 1, 917504);
    lemma_quotient(125int * 65536, 100, 81920);
    lemma_quotient(850int * 65536, 100, 557056);
    let left = pos.x.raw < 0;
    assert(guarded(towers, side, pos.x.less(zero())) == (exists|i: int|
        0 <= i < towers.len() && (#[trigger] towers[i]).faction != side && !towers[i].is_king && (
        towers[i].pos.x.raw < 0) == left)) by {
        if guarded(towers, side, pos.x.less(zero())) {
            let i = choose|i: int|
                0 <= i < towers.len() && guards(&#[trigger] towers[i], side, pos.x.less(zero()));
            assert(towers[i].faction != side);
        }
        if exists|i: int|
            0 <= i < towers.len() && (#[trigger] towers[i]).faction != side && !towers[i].is_king && (
            towers[i].pos.x.raw < 0) == left {
            let i = choose|i: int|
                0 <= i < towers.len() && (#[trigger] towers[i]).faction != side && !towers[i].is_king && (
                towers[i].pos.x.raw < 0) == left;
            assert(guards(&towers[i], side, pos.x.less(zero())));
        }
    }
}

/// A spell hurts every enemy troop and building within its radius by its damage, once, and nobody
/// else; it changes nothing else of them.
pub proof fn spells_hurt_enemies_inside<S: Scalar>(
    m: WorldModel<S>,
    spell: SpellSpec<S>,
    side: Faction,
    pos: Vec3<S>,
    i: int,
)
    requires
        0 <= i < m.units.len(),
    ensures
        ({
            let after = cast(m, spell, side, pos);
            let (a, b) = (m.units[i], after.units[i]);
            let struck = a.unit.kind != UnitKind::Tower && a.unit.faction != side && !spell.radius.less(
                a.pos.minus(pos).flat().length(),
            );
            &&& after.units.len() == m.units.len()
            &&& b == (Actor { health: b.health, ..a })
            &&& b.health.max == a.health.max
            &&& b.health.current == (if struck { a.health.current.minus(spell.damage) } else { a.health.current })
        }),
{
}

/// A rage spell makes friendly troops within its radius, and nobody else, faster on their feet and
/// in attack by its percentage: without other buffs both speeds become the base and that part of
/// it more. In fixed point, by 65536ths.
pub proof fn rage_quickens_friends(
    a: Actor<Fixed>,
    spell: SpellSpec<Fixed>,
    rage: RageSpec<Fixed>,
    side: Faction,
    pos: Vec3<Fixed>,
    base: Fixed,
    kind: StatKind,
)
    requires
        spell.rage == Some(rage),
        0 <= rage.pct.raw <= 0x100_0000,
        0 <= base.raw <= 0x100_0000,
    ensures
        ({
            let after = spelled_status(a, None, spell, side, pos);
            let inside = a.unit.kind == UnitKind::Troop && a.unit.faction == side && !spell.radius.less(
                a.pos.minus(pos).flat().length(),
            );
            &&& inside ==> stat_spec(after, base, kind).raw == (base.raw * (65536 + rage.pct.raw)) / 65536
            &&& inside ==> (after matches Some(list) && list.len() == 1 && list[0].secs == rage.secs)
            &&& a.unit.faction == side && !inside ==> after.is_none()
        }),
{
    let b = rage_model(rage);
    lemma_quotient(0, 1, 0);
    lemma_quotient(65536, 1, 65536);
    lemma_quotient(rage.pct.raw * 65536, 65536, rage.pct.raw as int);
    let list = seq![b];
    assert(list.drop_last() =~= Seq::<BuffModel<Fixed>>::empty());
    reveal_with_fuel(fold_buffs, 2);
    reveal_with_fuel(fold_effects, 3);
    assert(b.effects.drop_last().drop_last() =~= Seq::<StatMod<Fixed>>::empty());
    assert(b.effects.drop_last().last() == b.effects[0]);
    let mul = 65536 + rage.pct.raw;
    let f = fold_buffs(list);
    assert(f.move_speed.mul.raw == mul);
    assert(f.attack_speed.mul.raw == mul);
    assert(f.move_speed.add.raw == 0 && f.move_speed.flat.raw == 0);
    assert(f.attack_speed.add.raw == 0 && f.attack_speed.flat.raw == 0);
    let p = base.raw * mul;
    assert(0 <= p <= 0x100_0000 * 0x101_0000) by (nonlinear_arith)
        requires
            p == base.raw * mul,
            0 <= base.raw <= 0x100_0000,
            0 <= mul <= 0x101_0000,
    ;
}

/// How modifiers enter an attribute, in fixed point by 65536ths: additions before the percentage,
/// percentages of the sum, flat additions after it; each counts as often as its buff has layers.
pub proof fn modifiers_enter_in_order(slot: Slot<Fixed>, base: Fixed, value: Fixed, n: u8)
    requires
        -0x1000_0000 <= base.raw <= 0x1000_0000,
        -0x1000_0000 <= value.raw <= 0x1000_0000,
        -0x1000_0000 <= slot.add.raw <= 0x1000_0000,
        -0x1000_0000 <= slot.mul.raw <= 0x1000_0000,
        -0x1000_0000 <= slot.flat.raw <= 0x1000_0000,
    ensures
        slot.resolve(base).raw == quotient((base.raw + slot.add.raw) * slot.mul.raw, 65536) + slot.flat.raw,
        slot.modified(Op::Add, value, n) == (Slot { add: slot.modified(Op::Add, value, n).add, ..slot }),
        slot.modified(Op::Pct, value, n) == (Slot { mul: slot.modified(Op::Pct, value, n).mul, ..slot }),
        slot.modified(Op::FlatAdd, value, n) == (Slot { flat: slot.modified(Op::FlatAdd, value, n).flat, ..slot }),
        slot.modified(Op::Add, value, n).add.raw == slot.add.raw + n * value.raw,
        slot.modified(Op::Pct, value, n).mul.raw == slot.mul.raw + n * value.raw,
        slot.modified(Op::FlatAdd, value, n).flat.raw == slot.flat.raw + n * value.raw,
{
    lemma_quotient(n * 65536, 1, n * 65536);
    let k = n * value.raw;
    assert(value.raw * (n * 65536) == k * 65536) by (nonlinear_arith)
        requires
            k == n * value.raw,
    ;
    assert(-0x100_0000_0000 <= k <= 0x100_0000_0000) by (nonlinear_arith)
        requires
            k == n * value.raw,
            0 <= n <= 255,
            -0x1000_0000 <= value.raw <= 0x1000_0000,
    ;
    if k >= 0 {
        lemma_quotient(k * 65536, 65536, k);
    } else {
        lemma_quotient(-k * 65536, 65536, -k);
        assert(abs(k * 65536) == -k * 65536);
    }
    let p = (base.raw + slot.add.raw) * slot.mul.raw;
    assert(-0x4000_0000_0000_0000 <= p <= 0x4000_0000_0000_0000) by (nonlinear_arith)
        requires
            p == (base.raw + slot.add.raw) * slot.mul.raw,
            -0x2000_0000 <= base.raw + slot.add.raw <= 0x2000_0000,
            -0x1000_0000 <= slot.mul.raw <= 0x1000_0000,
    ;
    assert(abs(quotient(p, 65536)) <= abs(p));
}

/// Without buffs attributes are what they are, and nothing is forbidden.
pub proof fn without_buffs_nothing_changes<S: Scalar>(base: S, kind: StatKind)
    ensures
        stat_spec(None::<Seq<BuffModel<S>>>, base, kind) == base,
        ({
            let c = channels_spec(None::<Seq<BuffModel<S>>>);
            !c.cannot_move && !c.cannot_attack && !c.cannot_seek && !c.cannot_cast
        }),
{
}

/// What each control flag forbids: a stun everything; a root moving, a disarm attacking, a
/// blinding looking for targets, a silence casting, and none of them anything else.
pub proof fn flags_forbid_their_own()
    ensures
        ({
            let c = cc_channels(CCFlags::stun());
            c.cannot_move && c.cannot_attack && c.cannot_seek && c.cannot_cast
        }),
        ({
            let c = cc_channels(CCFlags::root());
            c.cannot_move && !c.cannot_attack && !c.cannot_seek && !c.cannot_cast
        }),
        ({
            let c = cc_channels(CCFlags::disarm());
            !c.cannot_move && c.cannot_attack && !c.cannot_seek && !c.cannot_cast
        }),
        ({
            let c = cc_channels(CCFlags::blind());
            !c.cannot_move && !c.cannot_attack && c.cannot_seek && !c.cannot_cast
        }),
        ({
            let c = cc_channels(CCFlags::silence());
            !c.cannot_move && !c.cannot_attack && !c.cannot_seek && c.cannot_cast
        }),
        ({
            let c = cc_channels(CCFlags::none());
            !c.cannot_move && !c.cannot_attack && !c.cannot_seek && !c.cannot_cast
        }),
{
    assert(1u8 & 1u8 == 1u8 && 2u8 & 1u8 != 1u8 && 4u8 & 1u8 != 1u8 && 8u8 & 1u8 != 1u8 && 16u8 & 1u8 != 1u8
        && 0u8 & 1u8 != 1u8) by (bit_vector);
    assert(2u8 & 2u8 == 2u8 && 4u8 & 2u8 != 2u8 && 8u8 & 2u8 != 2u8 && 16u8 & 2u8 != 2u8 && 0u8 & 2u8 != 2u8)
        by (bit_vector);
    assert(2u8 & 4u8 != 4u8 && 4u8 & 4u8 == 4u8 && 8u8 & 4u8 != 4u8 && 16u8 & 4u8 != 4u8 && 0u8 & 4u8 != 4u8)
        by (bit_vector);
    assert(2u8 & 8u8 != 8u8 && 4u8 & 8u8 != 8u8 && 8u8 & 8u8 == 8u8 && 16u8 & 8u8 != 8u8 && 0u8 & 8u8 != 8u8)
        by (bit_vector);
    assert(2u8 & 16u8 != 16u8 && 4u8 & 16u8 != 16u8 && 8u8 & 16u8 != 16u8 && 16u8 & 16u8 == 16u8 && 0u8 & 16u8
        != 16u8) by (bit_vector);
}

/// Elixir comes at a steady rate, to both sides alike, up to ten: in fixed point 779, 1559 or 2339
/// 65536ths a tick at single, double and triple speed, which is one point in 2.8 seconds and twice
/// and thrice as much.
pub proof fn elixir_comes_steadily(e: Elixir<Fixed>, t: MatchTimer)
    requires
        -0x1000_0000 <= e.player.raw <= 655360,
        -0x1000_0000 <= e.enemy.raw <= 655360,
    ensures
        ({
            let after = regenerated(e, &t);
            let rate = if t.phase != MatchPhase::Regular {
                2339int
            } else if t.ticks_left <= 60 * 30 {
                1559
            } else {
                779
            };
            &&& after.player.raw == (if e.player.raw + rate < 655360 { e.player.raw + rate } else { 655360 })
            &&& after.enemy.raw == (if e.enemy.raw + rate < 655360 { e.enemy.raw + rate } else { 655360 })
        }),
{
    lemma_quotient(65536, 1, 65536);
    lemma_quotient(131072, 1, 131072);
    lemma_quotient(196608, 1, 196608);
    lemma_quotient(655360, 1, 655360);
    lemma_quotient(65536, 30, 2184);
    lemma_quotient(28int * 65536, 10, 183500);
    lemma_quotient(65536int * 65536, 183500, 23405);
    lemma_quotient(23405int * 65536, 65536, 23405);
    lemma_quotient(23405int * 131072, 65536, 46810);
    lemma_quotient(23405int * 196608, 65536, 70215);
    lemma_quotient(23405int * 2184, 65536, 779);
    lemma_quotient(46810int * 2184, 65536, 1559);
    lemma_quotient(70215int * 2184, 65536, 2339);
}

} // verus!
