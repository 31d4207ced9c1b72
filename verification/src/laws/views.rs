//! What agents see of a match, and how the scripted one plays.

use vstd::prelude::*;

use crate::arena::opening_spec;
use crate::cards::{own_sign, tower_snaps_spec, TowerSnap};
use crate::combat::nearest::lemma_quotient;
use crate::components::{Actor, CommandBuffer, Faction, GameCommand, UnitKind};
use crate::decks::DecksModel;
use crate::fixed::{quotient, Fixed};
use crate::laws::strides::lemma_numbers;
use crate::match_flow::{MatchPhase, SimState};
use crate::scalar::{one, zero, Scalar};
use crate::sim_env::{
    best_cell_spec, cell_distance, cell_open, cell_to_pos, count_side, episode, flank_health,
    hand_card_spec, idea_spec, lane_spec, lemma_best_cell_open, lemma_obs_towers_len,
    lemma_obs_troops_len, lemma_seen_len, lemma_slot_holds, obs_cards, obs_clock, obs_elixir,
    obs_spec, obs_towers, obs_troop, obs_troops, one_hot, ordered, scripted_action_spec,
    seen_troops, slot_from, step_feed, EnvAction,
};
use crate::world::WorldModel;

verus! {

proof fn lemma_cards<S: Scalar>(queue: Seq<u8>, n: int, k: int, j: int)
    requires
        0 <= k < n,
        0 <= j < 4,
    ensures
        obs_cards::<S>(queue, n).len() == 4 * n,
        obs_cards::<S>(queue, n)[4 * k + j] == (if (queue[k] < 3 && j == queue[k]) || (queue[k] >= 3 && j == 3) {
            one::<S>()
        } else {
            zero::<S>()
        }),
    decreases n,
{
    if n > 1 {
        lemma_cards::<S>(queue, n - 1, if k < n - 1 { k } else { 0 }, j);
    } else {
        assert(obs_cards::<S>(queue, 0).len() == 0);
    }
    let (rest, last) = (obs_cards::<S>(queue, n - 1), one_hot::<S>(queue[n - 1]));
    assert(rest.len() == 4 * (n - 1));
    if k == n - 1 {
        assert((rest + last)[4 * k + j] == last[j]);
    } else {
        assert((rest + last)[4 * k + j] == rest[4 * k + j]);
    }
}

/// What a side sees of itself and of the match: its own elixir before the opponent's, both as
/// shares of ten; the progress to the next point; its hand of four and the card after it, each
/// as one of four kinds; the phase of the match and the share of regular time that is left.
pub proof fn observations_tell_hand_and_clock<S: Scalar>(m: WorldModel<S>, flip: bool, k: int, j: int)
    requires
        m.wf(),
        0 <= k < 5,
        0 <= j < 4,
    ensures
        ({
            let v = obs_spec(m, flip);
            let (own, theirs) = if flip {
                (m.elixir.enemy, m.elixir.player)
            } else {
                (m.elixir.player, m.elixir.enemy)
            };
            let c = (if flip { m.decks.enemy } else { m.decks.player })[k];
            &&& v[0] == own.over(S::ratio(10, 1))
            &&& v[1] == theirs.over(S::ratio(10, 1))
            &&& v[2] == own.fraction()
            &&& m.timer.phase != MatchPhase::Regular ==> v[3] == S::ratio(3, 1).over(S::ratio(3, 1))
            &&& m.timer.phase == MatchPhase::Regular && m.timer.ticks_left > 1800 ==> v[3] == S::ratio(1, 1).over(
                S::ratio(3, 1),
            )
            &&& v[4 + 4 * k + j] == (if (c < 3 && j == c) || (c >= 3 && j == 3) { one::<S>() } else { zero::<S>() })
            &&& v[24] == (if m.timer.phase == MatchPhase::Regular { one::<S>() } else { zero() })
            &&& v[25] == (if m.timer.phase == MatchPhase::Overtime { one::<S>() } else { zero() })
            &&& v[26] == (if m.timer.phase == MatchPhase::Drain { one::<S>() } else { zero() })
            &&& v[27] == S::ratio(m.timer.ticks_left as i64, 1).over(S::ratio(5400, 1))
        }),
{
    let q = if flip { m.decks.enemy } else { m.decks.player };
    lemma_cards::<S>(q, 5, k, j);
    lemma_obs_towers_len(m.units, flip);
    let (a, b, c) = (obs_elixir(m, flip), obs_cards::<S>(q, 5), obs_clock::<S>(m.timer));
    let v = obs_spec(m, flip);
    assert(a.len() == 4 && b.len() == 20 && c.len() == 4);
    assert(v[4 + 4 * k + j] == b[4 * k + j]);
    assert(v[24] == c[0] && v[25] == c[1] && v[26] == c[2] && v[27] == c[3]);
    assert(v[0] == a[0] && v[1] == a[1] && v[2] == a[2] && v[3] == a[3]);
}

/// A share that is not below nothing nor above everything.
pub open spec fn kept_within<S: Scalar>(x: S) -> S {
    let y = if x.less(S::ratio(0, 1)) { S::ratio(0, 1) } else { x };
    if S::ratio(1, 1).less(y) { S::ratio(1, 1) } else { y }
}

proof fn lemma_troops<S: Scalar>(troops: Seq<Actor<S>>, flip: bool, i: int, j: int)
    requires
        0 <= i < troops.len(),
        0 <= j < 8,
    ensures
        obs_troops(troops, flip).len() == 8 * troops.len(),
        obs_troops(troops, flip)[8 * i + j] == obs_troop(troops[i], flip)[j],
    decreases troops.len(),
{
    let rest = troops.drop_last();
    lemma_obs_troops_len(troops, flip);
    lemma_obs_troops_len(rest, flip);
    let (a, b) = (obs_troops(rest, flip), obs_troop(troops.last(), flip));
    if i < rest.len() {
        lemma_troops(rest, flip, i, j);
        assert((a + b)[8 * i + j] == a[8 * i + j]);
    } else {
        assert((a + b)[8 * i + j] == b[j]);
    }
}

/// The troops that are seen are the first twenty on the field.
pub proof fn the_first_troops_are_seen<S: Scalar>(units: Seq<Actor<S>>)
    ensures
        ({
            let all = units.filter(|a: Actor<S>| a.unit.kind == UnitKind::Troop);
            seen_troops(units) == all.take(if all.len() < 20 { all.len() as int } else { 20 })
        }),
    decreases units.len(),
{
    reveal(Seq::filter);
    if units.len() > 0 {
        the_first_troops_are_seen(units.drop_last());
        let f = |a: Actor<S>| a.unit.kind == UnitKind::Troop;
        let (rest, all) = (units.drop_last().filter(f), units.filter(f));
        let n = if all.len() < 20 { all.len() as int } else { 20 };
        assert(all == (if f(units.last()) { rest.push(units.last()) } else { rest }));
        assert(seen_troops(units) =~= all.take(n));
    }
}

/// What a side sees of a troop: whether it is the opponent's, where it stands as a share of the
/// field, seen from the own end, and the share of its health. Red sees the field turned around.
/// Before that come the numbers of troops seen, the opponent's first.
pub proof fn observations_tell_troops<S: Scalar>(m: WorldModel<S>, flip: bool, i: int)
    requires
        m.wf(),
        0 <= i < seen_troops(m.units).len(),
    ensures
        ({
            let v = obs_spec(m, flip);
            let a = seen_troops(m.units)[i];
            let (own, other) = if flip { (Faction::Enemy, Faction::Player) } else { (Faction::Player, Faction::Enemy) };
            let (x, z) = if flip { (a.pos.x.negated(), a.pos.z.negated()) } else { (a.pos.x, a.pos.z) };
            let c = match a.unit.card {
                Some(c) => c,
                None => 0u8,
            };
            let left = a.health.current.over(a.health.max);
            &&& v[42 + 8 * i] == (if a.unit.faction == other { one::<S>() } else { zero() })
            &&& v[42 + 8 * i + 5] == x.over(S::ratio(9, 1))
            &&& v[42 + 8 * i + 6] == z.over(S::ratio(15, 1))
            &&& v[42 + 8 * i + 7] == kept_within(left)
            &&& forall|j: int|
                0 <= j < 4 ==> (#[trigger] v[42 + 8 * i + 1 + j]) == (if (c < 3 && j == c) || (c >= 3 && j == 3) {
                    one::<S>()
                } else {
                    zero::<S>()
                })
            &&& v[40] == S::ratio(count_side(seen_troops(m.units), other) as i64, 1).over(S::ratio(20, 1))
            &&& v[41] == S::ratio(count_side(seen_troops(m.units), own) as i64, 1).over(S::ratio(20, 1))
        }),
{
    let q = if flip { m.decks.enemy } else { m.decks.player };
    let troops = seen_troops(m.units);
    lemma_cards::<S>(q, 5, 0, 0);
    lemma_obs_towers_len(m.units, flip);
    lemma_seen_len(m.units);
    lemma_obs_troops_len(troops, flip);
    let v = obs_spec(m, flip);
    let ts = obs_troops(troops, flip);
    let t = obs_troop(troops[i], flip);
    assert forall|j: int| 0 <= j < 8 implies #[trigger] v[42 + 8 * i + j] == t[j] by {
        lemma_troops(troops, flip, i, j);
        assert(v[42 + 8 * i + j] == ts[8 * i + j]);
    }
    assert(v[42 + 8 * i + 0] == t[0]);
    assert(v[42 + 8 * i + 5] == t[5]);
    assert(v[42 + 8 * i + 6] == t[6]);
    assert(v[42 + 8 * i + 7] == t[7]);
    assert forall|j: int| 0 <= j < 4 implies (#[trigger] v[42 + 8 * i + 1 + j]) == t[1 + j] by {
        assert(v[42 + 8 * i + (1 + j)] == t[1 + j]);
    }
}

/// Troops on a side are counted by their side.
pub proof fn sides_are_counted<S: Scalar>(troops: Seq<Actor<S>>, side: Faction)
    ensures
        count_side(troops, side) == troops.filter(|a: Actor<S>| a.unit.faction == side).len(),
    decreases troops.len(),
{
    reveal(Seq::filter);
    if troops.len() > 0 {
        sides_are_counted(troops.drop_last(), side);
    }
}

/// What a side sees of a tower: the share of its health and whether it has a target, in a place by
/// its kind and side: the own king, the own tower on the left and on the right, as seen from the own
/// end, then those of the opponent in the same order. Everything else leaves the six places alone.
pub proof fn towers_have_their_places<S: Scalar>(units: Seq<Actor<S>>, a: Actor<S>, flip: bool, k: int)
    requires
        0 <= k < 6,
    ensures
        ({
            let (own, other) = if flip { (Faction::Enemy, Faction::Player) } else { (Faction::Player, Faction::Enemy) };
            let x = if flip { a.pos.x.negated() } else { a.pos.x };
            let right = zero::<S>().less(x);
            let (before, after) = (obs_towers(units, flip), obs_towers(units.push(a), flip));
            let here = a.unit.kind == UnitKind::Tower && a.unit.faction == (if k < 3 { own } else { other }) && a.king == (k
                == 0 || k == 3) && (!a.king ==> right == (k == 2 || k == 5));
            let left = a.health.current.over(a.health.max);
            &&& !here ==> after[k] == before[k] && after[6 + k] == before[6 + k]
            &&& here ==> after[6 + k] == (if a.attacker.is_some() && (a.attacker->0).target.is_some() {
                one::<S>()
            } else {
                zero()
            })
            &&& here ==> after[k] == kept_within(left)
        }),
{
    lemma_obs_towers_len(units, flip);
    assert(units.push(a).drop_last() =~= units);
}

/// The first slot of the hand that holds a card; nobody looks beyond the four of the hand.
proof fn lemma_slot(decks: DecksModel, side: Faction, c: u8, from: int)
    requires
        0 <= from <= 4,
    ensures
        slot_from(decks, side, c, from).is_none() ==> forall|s: int|
            from <= s < 4 ==> #[trigger] hand_card_spec(decks, side, s) != Some(c),
    decreases 4 - from,
{
    if from < 4 {
        lemma_slot(decks, side, c, from + 1);
    }
}

proof fn lemma_some_cell<S: Scalar>(side: Faction, towers: Seq<TowerSnap<S>>, x: S, z: S, n: int, cell: int)
    requires
        0 <= cell < n,
        cell_open(side, cell, towers),
    ensures
        best_cell_spec(side, towers, x, z, n).is_some(),
    decreases n,
{
    if cell < n - 1 {
        lemma_some_cell(side, towers, x, z, n - 1, cell);
    }
}

proof fn lemma_best(side: Faction, towers: Seq<TowerSnap<Fixed>>, x: Fixed, z: Fixed, n: int, cell: int)
    requires
        0 <= cell < n,
        cell_open(side, cell, towers),
    ensures
        best_cell_spec(side, towers, x, z, n) matches Some(b) && cell_distance(side, b as usize, x, z).raw
            <= cell_distance(side, cell as usize, x, z).raw,
    decreases n,
{
    if cell < n - 1 {
        lemma_best(side, towers, x, z, n - 1, cell);
    }
}

/// The scripted side plays a giant if it has five elixir and one in hand, just behind the river; else
/// a musketeer with four, further back; else a knight with eight; else it does nothing. What it
/// plays is in that slot of its hand, and on a cell that is open to it.
pub proof fn the_script_has_its_order<S: Scalar>(m: WorldModel<S>, side: Faction, slot: int, cell: int)
    requires
        0 <= slot < 4,
        0 <= cell < 112,
        cell_open(side, cell, tower_snaps_spec(m.units)),
    ensures
        ({
            let e = if side == Faction::Player { m.elixir.player } else { m.elixir.enemy };
            let act = scripted_action_spec(m, side);
            let (giant, musketeer, knight) = (hand_card_spec(m.decks, side, slot) == Some(3u8), hand_card_spec(
                m.decks,
                side,
                slot,
            ) == Some(2u8), hand_card_spec(m.decks, side, slot) == Some(0u8));
            let played = hand_card_spec(m.decks, side, act / 112);
            &&& giant && !e.less(S::ratio(5, 1)) ==> act < 448 && played == Some(3u8)
            &&& musketeer && !e.less(S::ratio(4, 1)) ==> act < 448 && (played == Some(3u8) || played == Some(2u8))
            &&& knight && !e.less(S::ratio(8, 1)) ==> act < 448
            &&& act < 448 ==> {
                &&& played == Some(3u8) && !e.less(S::ratio(5, 1)) || played == Some(2u8) && !e.less(S::ratio(4, 1))
                    || played == Some(0u8) && !e.less(S::ratio(8, 1))
                &&& cell_open(side, act % 112, tower_snaps_spec(m.units))
            }
        }),
{
    let towers = tower_snaps_spec(m.units);
    let lane = lane_spec(m, side);
    let sign = own_sign::<S>(side);
    lemma_some_cell(side, towers, lane, sign.times(S::ratio(2, 1)), 112, cell);
    lemma_some_cell(side, towers, lane, sign.times(S::ratio(5, 1)), 112, cell);
    lemma_best_cell_open(side, towers, lane, sign.times(S::ratio(2, 1)), 112);
    lemma_best_cell_open(side, towers, lane, sign.times(S::ratio(5, 1)), 112);
    lemma_slot(m.decks, side, 3, 0);
    lemma_slot(m.decks, side, 2, 0);
    lemma_slot(m.decks, side, 0, 0);
    lemma_slot_holds(m.decks, side, 3, 0);
    lemma_slot_holds(m.decks, side, 2, 0);
    lemma_slot_holds(m.decks, side, 0, 0);
    assert(hand_card_spec(m.decks, side, slot) == hand_card_spec(m.decks, side, slot));
}

/// The square of the distance from the middle of a cell to a point.
pub open spec fn away<S: Scalar>(side: Faction, cell: int, x: S, z: S) -> S {
    let p = cell_to_pos::<S>(side, cell as usize);
    p.0.minus(x).times(p.0.minus(x)).plus(p.1.minus(z).times(p.1.minus(z)))
}

proof fn lemma_lane(m: WorldModel<Fixed>, side: Faction)
    ensures
        ({
            let other = if side == Faction::Player { Faction::Enemy } else { Faction::Player };
            let right = flank_health(m.units, other, false).raw >= flank_health(m.units, other, true).raw;
            &&& lane_spec(m, side) == Fixed { raw: if right { 294912i64 } else { -294912i64 } }
            &&& own_sign::<Fixed>(side).times(Fixed::ratio(2, 1)) == Fixed {
                raw: if side == Faction::Player { -131072i64 } else { 131072i64 },
            }
        }),
{
    lemma_numbers();
    lemma_quotient(131072, 1, 131072);
    lemma_quotient(65536int * 131072, 65536, 131072);
    assert(quotient(-65536int * 131072, 65536) == -131072);
}

/// The giant of the scripted side comes on the open cell that is nearest to the mouth of its lane, two
/// behind the middle line; the lane is the right one unless the opponent's tower on the right is
/// the weaker. In fixed point.
pub proof fn the_script_plays_near_its_lane(m: WorldModel<Fixed>, side: Faction, slot: int, cell: int)
    requires
        0 <= slot < 4,
        0 <= cell < 112,
        cell_open(side, cell, tower_snaps_spec(m.units)),
        hand_card_spec(m.decks, side, slot) == Some(3u8),
        (if side == Faction::Player { m.elixir.player } else { m.elixir.enemy }).raw >= 5 * 65536,
    ensures
        ({
            let act = scripted_action_spec(m, side);
            let other = if side == Faction::Player { Faction::Enemy } else { Faction::Player };
            let right = flank_health(m.units, other, false).raw >= flank_health(m.units, other, true).raw;
            let x = Fixed { raw: if right { 294912i64 } else { -294912i64 } };
            let z = Fixed { raw: if side == Faction::Player { -131072i64 } else { 131072i64 } };
            away(side, act % 112, x, z).raw <= away(side, cell, x, z).raw
        }),
{
    lemma_lane(m, side);
    lemma_quotient(327680, 1, 327680);
    let towers = tower_snaps_spec(m.units);
    let lane = lane_spec(m, side);
    let z = own_sign::<Fixed>(side).times(Fixed::ratio(2, 1));
    lemma_best(side, towers, lane, z, 112, cell);
    lemma_best_cell_open(side, towers, lane, z, 112);
    lemma_slot(m.decks, side, 3, 0);
    lemma_slot_holds(m.decks, side, 3, 0);
    assert(hand_card_spec(m.decks, side, slot) == Some(3u8));
    let b = best_cell_spec(side, towers, lane, z, 112)->0;
    let s = slot_from(m.decks, side, 3, 0)->0;
    assert(idea_spec(m, side, 3, 5, 2) == Some(s * 112 + b));
    assert(cell_distance(side, b as usize, lane, z) == away(side, b, lane, z));
    assert(cell_distance(side, cell as usize, lane, z) == away(side, cell, lane, z));
    assert((s * 112 + b) % 112 == b);
}

/// The health of a princess tower on a flank is that of the tower that stands there.
pub proof fn flanks_are_told_apart<S: Scalar>(units: Seq<Actor<S>>, a: Actor<S>, side: Faction, left: bool)
    ensures
        ({
            let there = a.unit.kind == UnitKind::Tower && a.unit.faction == side && !a.king && (left
                == a.pos.x.less(S::ratio(0, 1)));
            &&& there ==> flank_health(units.push(a), side, left) == a.health.current
            &&& !there ==> flank_health(units.push(a), side, left) == flank_health(units, side, left)
            &&& flank_health(Seq::<Actor<S>>::empty(), side, left) == S::infinity()
        }),
{
    assert(units.push(a).drop_last() =~= units);
}

/// An action plays the card of its slot where it says, and takes effect in the second tick of the
/// step; without an action, or with a slot that holds nothing, there is no command.
pub proof fn actions_become_commands<S: Scalar>(
    m: WorldModel<S>,
    side: Faction,
    act: EnvAction<S>,
    buffer: CommandBuffer<S>,
    t: u32,
)
    ensures
        ordered(m, side, None).len() == 0,
        ({
            let queue = if side == Faction::Player { m.decks.player } else { m.decks.enemy };
            &&& act.slot < queue.len() ==> ordered(m, side, Some(act)) == seq![
                GameCommand::Deploy { faction: side, card: queue[act.slot as int], x: act.x, z: act.z },
            ]
            &&& act.slot >= queue.len() ==> ordered(m, side, Some(act)).len() == 0
        }),
        t != m.tick + 1 ==> step_feed(m, buffer, ordered(m, side, Some(act)))(t) == step_feed(m, buffer, Seq::empty())(t),
{
}

/// Episodes start as matches do, with the cards of the seed, and the regular time that was asked for.
pub proof fn episodes_start_as_matches<S: Scalar>(seed: u32, ticks: u32)
    ensures
        episode::<S>(seed, None) == opening_spec::<S>(seed, SimState::Solo),
        episode::<S>(seed, Some(ticks)).timer.ticks_left == ticks,
        episode::<S>(seed, Some(ticks)).timer.phase == MatchPhase::Regular,
        episode::<S>(seed, Some(ticks)).units == opening_spec::<S>(seed, SimState::Solo).units,
        episode::<S>(seed, Some(ticks)).decks == opening_spec::<S>(seed, SimState::Solo).decks,
{
}

} // verus!
