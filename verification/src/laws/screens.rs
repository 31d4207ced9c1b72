//! What players see and click.

use vstd::prelude::*;

use crate::bot::{best_action_spec, best_upto, command_of_spec, permitted, weighted};
use crate::cards::{deploy_zone_ok_spec, tower_snaps_spec, TowerSnap};
use crate::combat::nearest::lemma_quotient;
use crate::components::{Elixir, Faction, GameCommand, Health};
use crate::constants::{card_spec, CardSpec};
use crate::decks::DecksModel;
use crate::deploy_zone::{own_zone, shared_zone, ZoneKind};
use crate::fixed::{quotient, Fixed};
use crate::hud::{
    bar_spec, casts_from, elixir_bar, ring, shown_elixir, slot_look, spark_spec, tint, SlotLook,
    Spark, Tint,
};
use crate::input::{click_spec, onto_field, selected_card, spell_range_spec, Seating};
use crate::laws::strides::lemma_numbers;
use crate::match_flow::SimState;
use crate::scalar::Scalar;
use crate::sim_env::cell_to_pos;
use crate::vector::Vec3;
use crate::world::WorldModel;

verus! {

/// A click gives a command exactly when the match takes input and the card may go there: for the
/// card in the selected slot, at the point of the field that is nearest to the click. Online it is
/// for the side of the seat, against the computer for blue, alone for the side whose half it is.
pub proof fn clicks_play_the_selected_card<S: Scalar>(m: WorldModel<S>, seat: Seating, slot: usize, point: Vec3<S>)
    requires
        slot < 4,
    ensures
        ({
            let p = onto_field(point);
            let side = match seat {
                Seating::Online(i) => if i == 0 {
                    Some(Faction::Player)
                } else if i == 1 {
                    Some(Faction::Enemy)
                } else {
                    None
                },
                Seating::AgainstBot => Some(Faction::Player),
                Seating::Alone => Some(if p.z.less(S::ratio(0, 1)) { Faction::Player } else { Faction::Enemy }),
            };
            let live = m.state == SimState::Solo || m.state == SimState::Playing;
            let c = (if side == Some(Faction::Enemy) { m.decks.enemy } else { m.decks.player })[slot as int];
            let open = card_spec::<S>(c) matches Some(x) && deploy_zone_ok_spec(
                x,
                side->0,
                p,
                tower_snaps_spec(m.units),
            );
            &&& side.is_none() || !live ==> click_spec(m, seat, slot, point).is_none()
            &&& side.is_some() && live && (open || seat == Seating::Alone) ==> click_spec(m, seat, slot, point) == Some(
                GameCommand::Deploy { faction: side->0, card: c, x: p.x, z: p.z },
            )
            &&& side.is_some() && live && !open && seat != Seating::Alone ==> click_spec(m, seat, slot, point).is_none()
            &&& side.is_some() && live && (card_spec::<S>(c) matches Some(x) && x.kind is Spell) ==> spell_range_spec(
                m,
                seat,
                slot,
                point,
            ) == Some((p, ((card_spec::<S>(c)->0).kind->Spell_0).radius))
        }),
{
}

/// Clicks are moved onto the field, which is sixteen wide and twenty-eight deep, and no further than that.
/// In fixed point.
pub proof fn clicks_stay_on_the_field(p: Vec3<Fixed>)
    ensures
        ({
            let q = onto_field(p);
            let (w, d) = (524288int, 917504int);
            &&& -w <= q.x.raw <= w
            &&& -d <= q.z.raw <= d
            &&& -w <= p.x.raw <= w ==> q.x == p.x
            &&& -d <= p.z.raw <= d ==> q.z == p.z
            &&& p.x.raw > w ==> q.x.raw == w
            &&& p.z.raw > d ==> q.z.raw == d
            &&& q.y == p.y
        }),
{
    lemma_numbers();
    lemma_quotient(524288, 1, 524288);
    lemma_quotient(917504, 1, 917504);
}

/// A flank of the opponent's half is shown as open exactly when no princess tower of theirs stands on
/// that side any more; the own half always is, and it is the half of the own side.
pub proof fn flanks_open_with_their_tower<S: Scalar>(my: Faction, towers: Seq<TowerSnap<S>>)
    ensures
        own_zone(ZoneKind::OwnHalf, my, towers).visible,
        own_zone(ZoneKind::ExpandLeft, my, towers).visible <==> forall|i: int|
            0 <= i < towers.len() && (#[trigger] towers[i]).faction != my && !towers[i].is_king
                ==> !towers[i].pos.x.sign().same(S::ratio(1, 1).negated()),
        own_zone(ZoneKind::ExpandRight, my, towers).visible <==> forall|i: int|
            0 <= i < towers.len() && (#[trigger] towers[i]).faction != my && !towers[i].is_king
                ==> !towers[i].pos.x.sign().same(S::ratio(1, 1)),
{
}

/// A health bar is hidden while health is full, and shows the share that is left. In fixed point.
pub proof fn bars_show_what_is_left(health: Health<Fixed>, width: Fixed)
    requires
        0 < health.max.raw <= 0x100_0000_0000,
        -0x100_0000_0000 <= health.current.raw <= 0x100_0000_0000,
    ensures
        ({
            let b = bar_spec(health, width);
            &&& health.current.raw >= health.max.raw ==> !b.visible && b.scale.raw == 65536
            &&& health.current.raw <= 0 ==> b.visible && b.scale.raw == 0
            &&& 0 < health.current.raw < health.max.raw ==> b.visible && b.scale.raw == health.current.raw * 65536
                / (health.max.raw as int)
        }),
{
    lemma_numbers();
    let (c, m) = (health.current.raw as int, health.max.raw as int);
    let pct = health.current.over(health.max);
    vstd::arithmetic::div_mod::lemma_div_multiples_vanish(65536, m);
    assert(65536 * m / m == 65536);
    if c >= m {
        vstd::arithmetic::div_mod::lemma_div_is_ordered(m * 65536, c * 65536, m);
        assert(quotient(c * 65536, m) >= 65536);
    } else if c > 0 {
        vstd::arithmetic::div_mod::lemma_div_pos_is_pos(c * 65536, m);
        vstd::arithmetic::div_mod::lemma_fundamental_div_mod(c * 65536, m);
        vstd::arithmetic::div_mod::lemma_mod_bound(c * 65536, m);
        let q = c * 65536 / m;
        assert(q < 65536) by (nonlinear_arith)
            requires
                c * 65536 == m * q + (c * 65536) % m,
                (c * 65536) % m >= 0,
                c < m,
                m > 0,
        ;
        assert(quotient(c * 65536, m) == q);
    } else if c == 0 {
        lemma_quotient(0, m, 0);
        assert(quotient(c * 65536, m) == 0);
    } else {
        vstd::arithmetic::div_mod::lemma_div_pos_is_pos(-c * 65536, m);
        assert(quotient(c * 65536, m) <= 0);
    }
}

/// Cards in hand: the selected one stands out; of the others those are grey whose cost exceeds the
/// elixir. Everyone is shown their own elixir, whoever has no side blue's.
pub proof fn hands_show_what_can_be_paid<S: Scalar>(
    slot: usize,
    selected: usize,
    e: Elixir<S>,
    mine: S,
    c: CardSpec<S>,
)
    ensures
        slot == selected ==> slot_look(slot, selected, mine, &c) == SlotLook::Selected,
        slot != selected && mine.less(c.cost) ==> slot_look(slot, selected, mine, &c) == SlotLook::TooDear,
        slot != selected && !mine.less(c.cost) ==> slot_look(slot, selected, mine, &c) == SlotLook::Ready,
        shown_elixir(&e, Some(Faction::Enemy)) == e.enemy,
        shown_elixir(&e, Some(Faction::Player)) == e.player,
        shown_elixir(&e, None) == e.player,
        elixir_bar(mine).0 == mine.over(S::ratio(10, 1)).times(S::ratio(100, 1)),
{
}

/// The spells that are to be shown are those in the log behind the last look, in their order, each
/// where it was cast, with a ring a little wider than its reach.
pub proof fn casts_are_shown_once<S: Scalar>(log: Seq<(u32, GameCommand<S>)>, x: (u32, GameCommand<S>), from: int)
    requires
        0 <= from,
    ensures
        ({
            let (before, after) = (casts_from(log, from), casts_from(log.push(x), from));
            let shown = card_spec::<S>((x.1)->card) matches Some(c) && c.kind is Spell;
            &&& log.len() < from || !shown ==> after == before
            &&& log.len() >= from && shown ==> {
                let s = after.last();
                &&& after == before.push(s)
                &&& s.card == (x.1)->card
                &&& s.x == (x.1)->x && s.z == (x.1)->z
                &&& s.end_radius == ((card_spec::<S>((x.1)->card)->0).kind->Spell_0).radius.plus(S::ratio(40, 100))
            }
        }),
{
    assert(log.push(x).drop_last() =~= log);
}

/// A spark burns out with its time; until then it falls faster and faster, by 260 a second, and air
/// slows it.
pub proof fn sparks_fall_and_burn_out<S: Scalar>(f: Spark<S>, dt: S)
    ensures
        f.life.minus(dt).at_most(S::ratio(0, 1)) ==> spark_spec(f, dt).is_none(),
        !f.life.minus(dt).at_most(S::ratio(0, 1)) ==> (spark_spec(f, dt) matches Some(g) && {
            &&& g.life == f.life.minus(dt)
            &&& g.x == f.x.plus(g.vx.times(dt))
            &&& g.y == f.y.plus(g.vy.times(dt))
            &&& g.vx == f.vx.times(S::ratio(1, 1).minus(S::ratio(60, 100).times(dt)))
            &&& g.vy == f.vy.plus(S::ratio(260, 1).times(dt)).times(
                S::ratio(1, 1).minus(S::ratio(40, 100).times(dt)),
            )
        }),
{
}

/// A ring spreads to its end within its time, fades as it does, and is over then.
pub proof fn rings_spread_and_fade<S: Scalar>(t: S, duration: S, end: S)
    ensures
        ({
            let (radius, opacity, over) = ring(t, duration, end);
            let part = t.over(duration).least(S::ratio(1, 1));
            &&& radius == end.times(part)
            &&& opacity == S::ratio(1, 1).minus(part).times(S::ratio(90, 100))
            &&& over == duration.at_most(t)
        }),
{
}

/// The score of an action: every term of the row counts once, on top of the bias.
pub proof fn scores_are_weighted_sums<S: Scalar>(bias: S, row: Seq<S>, x: Seq<S>, n: nat)
    ensures
        weighted(bias, row, x, 0) == bias,
        weighted(bias, row, x, n as int + 1) == weighted(bias, row, x, n as int).plus(row[n as int].times(x[n as int])),
{
}

/// The computer plays the permitted action with the highest score, of equal ones the first; with
/// none that scores it does nothing. In fixed point.
pub proof fn the_best_action_is_played(logits: Seq<Fixed>, mask: Seq<bool>, i: int)
    requires
        0 <= i < logits.len(),
        i < mask.len(),
        mask[i],
        logits[i].raw > -i64::MAX,
    ensures
        ({
            let b = best_action_spec(logits, mask);
            &&& 0 <= b < logits.len() && b < mask.len() && mask[b]
            &&& logits[b].raw > logits[i].raw || logits[b].raw == logits[i].raw && b <= i
        }),
{
    lemma_best(logits, mask, logits.len() as int, i);
}

proof fn lemma_best(logits: Seq<Fixed>, mask: Seq<bool>, n: int, i: int)
    requires
        0 <= i < n <= logits.len(),
        permitted(mask, i),
        logits[i].raw > -i64::MAX,
    ensures
        best_upto(logits, mask, n) matches Some(b) && 0 <= b < n && permitted(mask, b) && (logits[b].raw > logits[i].raw
            || logits[b].raw == logits[i].raw && b <= i),
    decreases n,
{
    if i < n - 1 {
        lemma_best(logits, mask, n - 1, i);
    } else {
        lemma_range(logits, mask, n - 1);
    }
}

proof fn lemma_range(logits: Seq<Fixed>, mask: Seq<bool>, n: int)
    requires
        n <= logits.len(),
    ensures
        best_upto(logits, mask, n) matches Some(b) ==> 0 <= b < n && permitted(mask, b),
    decreases n,
{
    if n > 0 {
        lemma_range(logits, mask, n - 1);
    }
}

/// The command of an action is for the card in its slot, at its cell; doing nothing is no command.
pub proof fn the_computer_plays_from_its_hand<S: Scalar>(decks: DecksModel, side: Faction, action: usize)
    requires
        decks.wf(),
    ensures
        action >= 448 ==> command_of_spec::<S>(decks, side, action).is_none(),
        action < 448 ==> {
            let p = cell_to_pos::<S>(side, (action % 112) as usize);
            command_of_spec::<S>(decks, side, action) == Some(
                GameCommand::Deploy {
                    faction: side,
                    card: (if side == Faction::Player { decks.player } else { decks.enemy })[action as int / 112],
                    x: p.0,
                    z: p.1,
                },
            )
        },
{
}

/// A slot that there is not counts as the last of the hand.
pub proof fn there_are_four_slots<S: Scalar>(m: WorldModel<S>, side: Faction, slot: usize)
    requires
        slot >= 4,
    ensures
        selected_card(m, side, slot) == selected_card(m, side, 3),
        selected_card(m, side, 3) == (if side == Faction::Player { m.decks.player } else { m.decks.enemy })[3],
{
}

/// The areas of a side, in fixed point: its own half from the river to the edge, which is the half where
/// its towers stand; the other half; and two flanks of the other half, from the river to where
/// the princess towers stand, on the left and on the right.
pub proof fn areas_have_their_places(my: Faction, towers: Seq<TowerSnap<Fixed>>)
    ensures
        ({
            let sign = if my == Faction::Player { -1int } else { 1 };
            let (own, blocked) = (own_zone(ZoneKind::OwnHalf, my, towers), own_zone(ZoneKind::EnemyBlocked, my, towers));
            let (left, right) = (own_zone(ZoneKind::ExpandLeft, my, towers), own_zone(ZoneKind::ExpandRight, my, towers));
            &&& own.x.raw == 0 && own.width.raw == 16 * 65536 && own.depth.raw == 835584 && own.z.raw == sign * 499712
            &&& blocked.visible && blocked.x.raw == 0 && blocked.width.raw == 16 * 65536 && blocked.depth.raw == 835584
                && blocked.z.raw == -sign * 499712
            &&& left.x.raw == -4 * 65536 && left.width.raw == 8 * 65536 && left.depth.raw == 475136 && left.z.raw == -sign
                * 319488
            &&& right.x.raw == 4 * 65536 && right.width.raw == 8 * 65536 && right.depth.raw == 475136 && right.z.raw
                == -sign * 319488
        }),
{
    lemma_numbers();
    lemma_quotient(917504, 1, 917504);
    lemma_quotient(524288, 1, 524288);
    lemma_quotient(1048576, 1, 1048576);
    lemma_quotient(131072, 1, 131072);
    lemma_quotient(850int * 65536, 100, 557056);
    lemma_quotient(65536int * 999424, 65536, 999424);
    lemma_quotient(65536int * 638976, 65536, 638976);
    lemma_quotient(65536int * 262144, 65536, 262144);
    lemma_quotient(999424int * 65536, 131072, 499712);
    lemma_quotient(638976int * 65536, 131072, 319488);
    assert(quotient(-65536int * 999424, 65536) == -999424);
    assert(quotient(-65536int * 638976, 65536) == -638976);
    assert(quotient(-65536int * 262144, 65536) == -262144);
    assert(quotient(-999424int * 65536, 131072) == -499712);
    assert(quotient(-638976int * 65536, 131072) == -319488);
}

/// Who plays both sides sees both halves as open and the river as closed.
pub proof fn both_halves_are_open_to_both(kind: ZoneKind)
    ensures
        ({
            let z = shared_zone::<Fixed>(kind);
            &&& z.visible
            &&& kind == ZoneKind::OwnHalf ==> z.x.raw == 0 && z.z.raw == -499712 && z.width.raw == 16 * 65536 && z.depth.raw
                == 835584
            &&& kind == ZoneKind::ExpandLeft ==> z.x.raw == -4 * 65536 && z.z.raw == 499712 && z.width.raw == 8 * 65536
                && z.depth.raw == 835584
            &&& kind == ZoneKind::ExpandRight ==> z.x.raw == 4 * 65536 && z.z.raw == 499712 && z.width.raw == 8 * 65536
                && z.depth.raw == 835584
            &&& kind == ZoneKind::EnemyBlocked ==> z.x.raw == 0 && z.z.raw == 0 && z.width.raw == 18 * 65536
                && z.depth.raw == 163840
        }),
{
    lemma_numbers();
    lemma_quotient(917504, 1, 917504);
    lemma_quotient(524288, 1, 524288);
    lemma_quotient(1048576, 1, 1048576);
    lemma_quotient(1179648, 1, 1179648);
    lemma_quotient(131072, 1, 131072);
    lemma_quotient(81920int * 131072, 65536, 163840);
    lemma_quotient(999424int * 65536, 131072, 499712);
    assert(quotient(-999424int * 65536, 131072) == -499712);
}

/// The small are pale, the large dark, the others plain.
pub proof fn tints_go_by_size<S: Scalar>(radius: S)
    ensures
        radius.less(S::ratio(40, 100)) ==> tint(radius) == Tint::Pale,
        !radius.less(S::ratio(40, 100)) && S::ratio(60, 100).less(radius) ==> tint(radius) == Tint::Dark,
        !radius.less(S::ratio(40, 100)) && !S::ratio(60, 100).less(radius) ==> tint(radius) == Tint::Plain,
{
}

} // verus!
