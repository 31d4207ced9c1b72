//! Matches for learning agents: reset, step, observe, reward.
//!
//! One step is half a second of play. Actions go through the same commands as a player's
//! clicks, so what cannot be played is dropped by the same rules.

use std::collections::HashMap;
use vstd::prelude::*;

use crate::arena::{opening, opening_spec};
use crate::cards::{deploy_allowed, deploy_allowed_spec, own_sign, tower_snaps, tower_snaps_spec, TowerSnap};
use crate::components::{Actor, CommandBuffer, Faction, GameCommand, UnitKind};
use crate::constants::{bridges, card, card_spec, elixir_max, HAND_SIZE, REGULAR_TICKS};
use crate::decks::{prand, prand_spec, Decks, DecksModel};
use crate::match_flow::{elixir_multiplier, MatchPhase, MatchTimer, SimState};
use crate::refusal::{
    lemma_count_agrees, lemma_refused_tick, lemma_run_goes_on, lemma_run_unlogged, turn_of, unlogged,
};
use crate::replay::same_from;
use crate::scalar::{clamped, one, whole, zero, Scalar};
use crate::sim::{
    all_commanded, at_tick, buffered, exec_order, lemma_run_agrees, lemma_tick_counts, run, run_ticks, schedule, tick_spec,
};
use crate::tally::{run_count, takes, tick_count, Count, Tally};
use crate::vector::Vec3;
use crate::world::{World, WorldModel};

verus! {

broadcast use vstd::std_specs::hash::group_hash_axioms;

/// Ticks per step.
pub const STEP_TICKS: u32 = 15;

/// How many units an observation tells of.
pub const MAX_OBS_UNITS: usize = 20;

/// How many kinds of cards an observation tells apart; the last stands for all further ones.
pub const CARD_CHANNELS: usize = 4;

/// The length of an observation.
pub const OBS_SIZE: usize = 202;

/// Columns of the action grid.
pub const N_COLS: usize = 8;

/// Rows of the action grid.
pub const N_ROWS: usize = 14;

/// Cells of the action grid.
pub const N_CELLS: usize = 112;

/// Four cards on every cell, and doing nothing.
pub const N_ACTIONS: usize = 449;

/// Doing nothing.
pub const NOOP_ACTION: usize = 448;

/// The scripted player's last resort: a knight.
pub const KNIGHT_CARD: u8 = 0;

/// The scripted player's second choice: a musketeer.
pub const MUSKETEER_CARD: u8 = 2;

/// The scripted player's first choice: a giant.
pub const GIANT_CARD: u8 = 3;

/// The play of a card in hand at a point.
#[derive(Clone, Copy, Debug)]
pub struct EnvAction<S> {
    pub slot: usize,
    pub x: S,
    pub z: S,
}

/// The middle of a cell: columns spread over the width, rows over the own half.
#[verifier::allow_in_spec]
pub fn cell_to_pos<S: Scalar>(faction: Faction, cell: usize) -> (S, S)
    returns
        (
            whole::<S>(7).negated().plus(
                whole::<S>((cell % 8) as i64).times(whole::<S>(14).over(whole(7))),
            ),
            own_sign::<S>(faction).times(
                whole::<S>(2).plus(
                    whole::<S>((cell / 8) as i64).times(whole::<S>(12).over(whole(13))),
                ),
            ),
        ),
{
    let col: S = whole((cell % 8) as i64);
    let row: S = whole((cell / 8) as i64);
    let x: S = whole::<S>(7).negated().plus(col.times(whole::<S>(14).over(whole(7))));
    let z: S = own_sign::<S>(faction).times(
        whole::<S>(2).plus(row.times(whole::<S>(12).over(whole(13)))),
    );
    (x, z)
}

/// The action of an index; none beyond the plays.
#[verifier::allow_in_spec]
pub fn idx_to_action<S: Scalar>(faction: Faction, idx: usize) -> Option<EnvAction<S>>
    returns
        (if idx >= 448 {
            None
        } else {
            Some(
                EnvAction {
                    slot: (idx / 112) as usize,
                    x: cell_to_pos::<S>(faction, (idx % 112) as usize).0,
                    z: cell_to_pos::<S>(faction, (idx % 112) as usize).1,
                },
            )
        }),
{
    if idx >= 4 * N_CELLS {
        return None;
    }
    let (x, z): (S, S) = cell_to_pos(faction, idx % N_CELLS);
    Some(EnvAction { slot: idx / N_CELLS, x, z })
}

/// The card in a slot of a deck.
pub open spec fn hand_card_spec(decks: DecksModel, faction: Faction, slot: int) -> Option<u8> {
    if slot < decks.queue(faction).len() { Some(decks.queue(faction)[slot]) } else { None }
}

/// The card in a slot of a deck.
pub fn hand_card(decks: &Decks, faction: Faction, slot: usize) -> (r: Option<u8>)
    ensures
        r == hand_card_spec(decks@, faction, slot as int),
{
    let queue: &Vec<u8> = decks.queue(faction);
    if slot < queue.len() {
        Some(queue[slot])
    } else {
        None
    }
}

/// The elixir of a side.
pub fn elixir_of<S: Scalar>(world: &World<S>, faction: Faction) -> (r: S)
    ensures
        r == world@.elixir.of(faction),
{
    world.elixir.of(faction)
}

/// Whether a side can put troops on a cell.
pub open spec fn cell_open<S: Scalar>(faction: Faction, cell: int, towers: Seq<TowerSnap<S>>) -> bool {
    let p = cell_to_pos::<S>(faction, cell as usize);
    deploy_allowed_spec(faction, Vec3 { x: p.0, y: zero(), z: p.1 }, towers)
}

/// Whether a side can pay for the card in a slot.
pub open spec fn affordable<S: Scalar>(m: WorldModel<S>, faction: Faction, slot: int) -> bool {
    hand_card_spec(m.decks, faction, slot) matches Some(c) && card_spec::<S>(c) matches Some(spec)
        && !m.elixir.of(faction).less(spec.cost)
}

/// Whether an action is legal.
pub open spec fn legal<S: Scalar>(m: WorldModel<S>, faction: Faction, idx: int) -> bool {
    idx == NOOP_ACTION || affordable(m, faction, idx / 112) && cell_open(
        faction,
        idx % 112,
        tower_snaps_spec(m.units),
    )
}

/// Which actions are legal: doing nothing always is.
pub fn action_mask<S: Scalar>(world: &World<S>, faction: Faction) -> (mask: Vec<bool>)
    requires
        world.wf(),
    ensures
        mask@ == Seq::new(N_ACTIONS as nat, |i: int| legal(world@, faction, i)),
{
    let elixir: S = elixir_of(world, faction);
    let towers: Vec<TowerSnap<S>> = tower_snaps(&world.units);
    let ghost m = world@;
    let mut mask: Vec<bool> = Vec::new();
    let mut slot: usize = 0;
    while slot < 4
        invariant
            slot <= 4,
            world.wf(),
            m == world@,
            elixir == m.elixir.of(faction),
            towers@ == tower_snaps_spec(m.units),
            mask@.len() == slot * 112,
            forall|i: int| 0 <= i < slot * 112 ==> mask@[i] == legal(m, faction, i),
        decreases 4 - slot,
    {
        let pays: bool = match hand_card(&world.decks, faction, slot) {
            Some(c) => match card::<S>(c) {
                Some(spec) => !elixir.less(spec.cost),
                None => false,
            },
            None => false,
        };
        assert(pays == affordable(m, faction, slot as int));
        let mut cell: usize = 0;
        while cell < N_CELLS
            invariant
                slot < 4,
                cell <= N_CELLS,
                m == world@,
                towers@ == tower_snaps_spec(m.units),
                pays == affordable(m, faction, slot as int),
                mask@.len() == slot * 112 + cell,
                forall|i: int| 0 <= i < slot * 112 + cell ==> mask@[i] == legal(m, faction, i),
            decreases N_CELLS - cell,
        {
            let (x, z): (S, S) = cell_to_pos(faction, cell);
            let open: bool = pays && deploy_allowed(faction, Vec3 { x, y: zero(), z }, &towers);
            let ghost i = slot * 112 + cell;
            assert(i / 112 == slot && i % 112 == cell) by {
                vstd::arithmetic::div_mod::lemma_fundamental_div_mod_converse(
                    i,
                    112,
                    slot as int,
                    cell as int,
                );
            }
            mask.push(open);
            cell += 1;
        }
        slot += 1;
    }
    mask.push(true);
    assert(mask@ =~= Seq::new(N_ACTIONS as nat, |i: int| legal(m, faction, i)));
    mask
}

/// Doing nothing is always legal.
pub proof fn noop_is_legal<S: Scalar>(m: WorldModel<S>, faction: Faction)
    ensures
        legal(m, faction, NOOP_ACTION as int),
        idx_to_action::<S>(faction, NOOP_ACTION).is_none(),
{
}

/// One if true, zero if not.
#[verifier::allow_in_spec]
pub fn flag<S: Scalar>(b: bool) -> S
    returns
        (if b { one::<S>() } else { zero::<S>() }),
{
    if b {
        one()
    } else {
        zero()
    }
}

/// A number negated from the other side's view.
#[verifier::allow_in_spec]
pub fn turned<S: Scalar>(x: S, flip: bool) -> S
    returns
        (if flip { x.negated() } else { x }),
{
    if flip {
        x.negated()
    } else {
        x
    }
}

/// The share of health that is left.
#[verifier::allow_in_spec]
pub fn share<S: Scalar>(a: &Actor<S>) -> S
    returns
        clamped(a.health.current.over(a.health.max), zero::<S>(), one::<S>()),
{
    clamped(a.health.current.over(a.health.max), zero(), one())
}

/// The side whose view an observation takes.
#[verifier::allow_in_spec]
pub fn viewer(flip: bool) -> Faction
    returns
        (if flip { Faction::Enemy } else { Faction::Player }),
{
    if flip {
        Faction::Enemy
    } else {
        Faction::Player
    }
}

/// The channel of a card.
#[verifier::allow_in_spec]
pub fn channel(c: u8) -> usize
    returns
        (if c < 3 { c as usize } else { 3usize }),
{
    if c < 3 {
        c as usize
    } else {
        3usize
    }
}

/// A card as one channel out of four.
pub open spec fn one_hot<S: Scalar>(c: u8) -> Seq<S> {
    Seq::new(4, |j: int| flag::<S>(j == channel(c)))
}

/// The elixir part: own, the opponent's, the progress to the next point, the multiplier.
pub open spec fn obs_elixir<S: Scalar>(m: WorldModel<S>, flip: bool) -> Seq<S> {
    let own = m.elixir.of(viewer(flip));
    seq![
        own.over(elixir_max()),
        m.elixir.of(viewer(!flip)).over(elixir_max()),
        own.fraction(),
        whole::<S>(elixir_multiplier(&m.timer)).over(whole(3)),
    ]
}

/// The first `n` cards of the own deck.
pub open spec fn obs_cards<S: Scalar>(queue: Seq<u8>, n: int) -> Seq<S>
    decreases n,
{
    if n <= 0 {
        Seq::empty()
    } else {
        obs_cards(queue, n - 1) + one_hot(queue[n - 1])
    }
}

/// The phase and the time left.
pub open spec fn obs_clock<S: Scalar>(t: MatchTimer) -> Seq<S> {
    seq![
        flag(t.phase == MatchPhase::Regular),
        flag(t.phase == MatchPhase::Overtime),
        flag(t.phase == MatchPhase::Drain),
        whole::<S>(t.ticks_left as i64).over(whole(REGULAR_TICKS as i64)),
    ]
}

/// The place of a tower: own king, left and right princess, then the opponent's.
#[verifier::allow_in_spec]
pub fn tower_place<S: Scalar>(a: &Actor<S>, flip: bool) -> usize
    returns
        (if a.unit.faction == viewer(flip) {
            if a.king { 0usize } else if zero::<S>().less(turned(a.pos.x, flip)) { 2usize } else { 1usize }
        } else {
            if a.king { 3usize } else if zero::<S>().less(turned(a.pos.x, flip)) { 5usize } else { 4usize }
        }),
{
    let right: bool = zero::<S>().less(turned(a.pos.x, flip));
    if a.unit.faction == viewer(flip) {
        if a.king {
            0usize
        } else if right {
            2usize
        } else {
            1usize
        }
    } else {
        if a.king {
            3usize
        } else if right {
            5usize
        } else {
            4usize
        }
    }
}

/// The six towers: what is left of their health, then whether they have a target.
pub open spec fn obs_towers<S: Scalar>(units: Seq<Actor<S>>, flip: bool) -> Seq<S>
    decreases units.len(),
{
    if units.len() == 0 {
        Seq::new(12, |i: int| zero::<S>())
    } else {
        let rest = obs_towers(units.drop_last(), flip);
        let a = units.last();
        if a.unit.kind == UnitKind::Tower {
            let k = tower_place(&a, flip) as int;
            rest.update(k, share(&a)).update(
                6 + k,
                flag(a.attacker matches Some(att) && att.target.is_some()),
            )
        } else {
            rest
        }
    }
}

/// One troop: side, card, place, health.
pub open spec fn obs_troop<S: Scalar>(a: Actor<S>, flip: bool) -> Seq<S> {
    seq![flag::<S>(a.unit.faction != viewer(flip))] + one_hot::<S>(
        match a.unit.card {
            Some(c) => c,
            None => 0u8,
        },
    ) + seq![
        turned(a.pos.x, flip).over(whole(9)),
        turned(a.pos.z, flip).over(whole(15)),
        share(&a),
    ]
}

/// The troops that an observation tells of: the first twenty.
pub open spec fn seen_troops<S: Scalar>(units: Seq<Actor<S>>) -> Seq<Actor<S>>
    decreases units.len(),
{
    if units.len() == 0 {
        Seq::empty()
    } else {
        let rest = seen_troops(units.drop_last());
        if units.last().unit.kind == UnitKind::Troop && rest.len() < MAX_OBS_UNITS {
            rest.push(units.last())
        } else {
            rest
        }
    }
}

/// The troops of an observation, one after the other.
pub open spec fn obs_troops<S: Scalar>(troops: Seq<Actor<S>>, flip: bool) -> Seq<S>
    decreases troops.len(),
{
    if troops.len() == 0 {
        Seq::empty()
    } else {
        obs_troops(troops.drop_last(), flip) + obs_troop(troops.last(), flip)
    }
}

/// How many of the troops are on a side.
pub open spec fn count_side<S: Scalar>(troops: Seq<Actor<S>>, faction: Faction) -> nat
    decreases troops.len(),
{
    if troops.len() == 0 {
        0
    } else {
        count_side(troops.drop_last(), faction) + (if troops.last().unit.faction == faction {
            1nat
        } else {
            0nat
        })
    }
}

/// What a side sees of the world: elixir, hand and next card, clock, towers, how many troops
/// the opponent and itself have, and the troops. Red sees the field turned around.
pub open spec fn obs_spec<S: Scalar>(m: WorldModel<S>, flip: bool) -> Seq<S> {
    let troops = seen_troops(m.units);
    obs_elixir(m, flip) + obs_cards(m.decks.queue(viewer(flip)), 5) + obs_clock(m.timer) + obs_towers(
        m.units,
        flip,
    ) + seq![
        whole::<S>(count_side(troops, viewer(!flip)) as i64).over(whole(20)),
        whole::<S>(count_side(troops, viewer(flip)) as i64).over(whole(20)),
    ] + obs_troops(troops, flip) + Seq::new(
        (8 * (20 - troops.len())) as nat,
        |i: int| zero::<S>(),
    )
}

fn push_one_hot<S: Scalar>(v: &mut Vec<S>, c: u8)
    ensures
        final(v)@ == old(v)@ + one_hot::<S>(c),
{
    let k: usize = channel(c);
    v.push(flag(k == 0));
    v.push(flag(k == 1));
    v.push(flag(k == 2));
    v.push(flag(k == 3));
    assert(v@ =~= old(v)@ + one_hot::<S>(c));
}

pub proof fn lemma_obs_towers_len<S: Scalar>(units: Seq<Actor<S>>, flip: bool)
    ensures
        obs_towers(units, flip).len() == 12,
    decreases units.len(),
{
    if units.len() > 0 {
        lemma_obs_towers_len(units.drop_last(), flip);
    }
}

fn observe_towers<S: Scalar>(units: &Vec<Actor<S>>, flip: bool) -> (r: Vec<S>)
    ensures
        r@ == obs_towers(units@, flip),
        r@.len() == 12,
{
    let mut r: Vec<S> = Vec::new();
    let mut k: usize = 0;
    while k < 12
        invariant
            k <= 12,
            r@.len() == k,
            forall|i: int| 0 <= i < k ==> r@[i] == zero::<S>(),
        decreases 12 - k,
    {
        r.push(zero());
        k += 1;
    }
    let n: usize = units.len();
    assert(units@.take(0) =~= Seq::<Actor<S>>::empty());
    assert(r@ =~= obs_towers(units@.take(0), flip));
    for i in 0..n
        invariant
            n == units@.len(),
            r@.len() == 12,
            r@ == obs_towers(units@.take(i as int), flip),
    {
        assert(units@.take(i + 1).drop_last() =~= units@.take(i as int));
        let a: &Actor<S> = &units[i];
        if a.unit.kind == UnitKind::Tower {
            let place: usize = tower_place(a, flip);
            let busy: bool = match a.attacker {
                Some(att) => att.target.is_some(),
                None => false,
            };
            r[place] = share(a);
            r[6 + place] = flag(busy);
        }
    }
    assert(units@.take(n as int) =~= units@);
    r
}

pub proof fn lemma_seen_len<S: Scalar>(units: Seq<Actor<S>>)
    ensures
        seen_troops(units).len() <= MAX_OBS_UNITS,
    decreases units.len(),
{
    if units.len() > 0 {
        lemma_seen_len(units.drop_last());
    }
}

pub proof fn lemma_obs_troops_len<S: Scalar>(troops: Seq<Actor<S>>, flip: bool)
    ensures
        obs_troops(troops, flip).len() == 8 * troops.len(),
    decreases troops.len(),
{
    if troops.len() > 0 {
        lemma_obs_troops_len(troops.drop_last(), flip);
    }
}

/// An observation always has the same length.
pub proof fn obs_length<S: Scalar>(m: WorldModel<S>, flip: bool)
    requires
        m.wf(),
    ensures
        obs_spec(m, flip).len() == OBS_SIZE,
{
    reveal_with_fuel(obs_cards, 6);
    lemma_obs_towers_len(m.units, flip);
    lemma_seen_len(m.units);
    lemma_obs_troops_len(seen_troops(m.units), flip);
}

/// What a side sees of the world: blue as it is, red turned around.
pub fn compute_obs<S: Scalar>(world: &World<S>, flip: bool) -> (v: Vec<S>)
    requires
        world.wf(),
    ensures
        v@ == obs_spec(world@, flip),
        v@.len() == OBS_SIZE,
{
    let ghost m = world@;
    let own: Faction = viewer(flip);
    let mut v: Vec<S> = Vec::new();
    let mine: S = world.elixir.of(own);
    v.push(mine.over(elixir_max()));
    v.push(world.elixir.of(viewer(!flip)).over(elixir_max()));
    v.push(mine.fraction());
    v.push(whole::<S>(elixir_multiplier(&world.timer)).over(whole(3)));
    assert(v@ =~= obs_elixir(m, flip));
    let queue: &Vec<u8> = world.decks.queue(own);
    let ghost head = v@;
    assert(head + obs_cards(queue@, 0) =~= head);
    let mut i: usize = 0;
    while i < HAND_SIZE + 1
        invariant
            i <= HAND_SIZE + 1,
            queue@.len() > HAND_SIZE,
            v@ == head + obs_cards(queue@, i as int),
        decreases HAND_SIZE + 1 - i,
    {
        push_one_hot(&mut v, queue[i]);
        i += 1;
        assert(v@ =~= head + obs_cards(queue@, i as int));
    }
    let t: MatchTimer = world.timer;
    let ghost before = v@;
    v.push(flag(t.phase == MatchPhase::Regular));
    v.push(flag(t.phase == MatchPhase::Overtime));
    v.push(flag(t.phase == MatchPhase::Drain));
    v.push(whole::<S>(t.ticks_left as i64).over(whole(REGULAR_TICKS as i64)));
    assert(v@ =~= before + obs_clock(t));
    let towers: Vec<S> = observe_towers(&world.units, flip);
    let ghost before = v@;
    let mut k: usize = 0;
    assert(before + towers@.take(0) =~= before);
    while k < 12
        invariant
            k <= 12,
            towers@.len() == 12,
            v@ == before + towers@.take(k as int),
        decreases 12 - k,
    {
        v.push(towers[k]);
        k += 1;
        assert(v@ =~= before + towers@.take(k as int));
    }
    assert(towers@.take(12) =~= towers@);
    let ghost base = v@;
    let mut troops: Vec<S> = Vec::new();
    let mut seen: usize = 0;
    let mut mine: i64 = 0;
    let mut theirs: i64 = 0;
    let n: usize = world.units.len();
    assert(m.units.take(0) =~= Seq::<Actor<S>>::empty());
    assert(troops@ =~= obs_troops(seen_troops(m.units.take(0)), flip));
    for j in 0..n
        invariant
            n == m.units.len(),
            m == world@,
            own == viewer(flip),
            seen <= 20,
            0 <= mine <= seen,
            0 <= theirs <= seen,
            ({
                let s = seen_troops(m.units.take(j as int));
                &&& seen == s.len()
                &&& troops@ == obs_troops(s, flip)
                &&& mine == count_side(s, viewer(flip))
                &&& theirs == count_side(s, viewer(!flip))
            }),
    {
        assert(m.units.take(j + 1).drop_last() =~= m.units.take(j as int));
        let a: &Actor<S> = &world.units[j];
        if a.unit.kind == UnitKind::Troop && seen < MAX_OBS_UNITS {
            let ghost s = seen_troops(m.units.take(j as int));
            let ghost s2 = seen_troops(m.units.take(j + 1));
            assert(s2.drop_last() =~= s);
            assert(s2.last() == a);
            let ghost before = troops@;
            let theirs_now: bool = a.unit.faction != own;
            troops.push(flag(theirs_now));
            let c: u8 = match a.unit.card {
                Some(c) => c,
                None => 0u8,
            };
            push_one_hot(&mut troops, c);
            troops.push(turned(a.pos.x, flip).over(whole(9)));
            troops.push(turned(a.pos.z, flip).over(whole(15)));
            troops.push(share(a));
            assert(troops@ =~= before + obs_troop(*a, flip));
            if theirs_now {
                theirs += 1;
            } else {
                mine += 1;
            }
            seen += 1;
        }
    }
    assert(m.units.take(n as int) =~= m.units);
    let ghost s = seen_troops(m.units);
    v.push(whole::<S>(theirs).over(whole(20)));
    v.push(whole::<S>(mine).over(whole(20)));
    let ghost before = v@;
    let w: usize = troops.len();
    let mut k: usize = 0;
    assert(before + troops@.take(0) =~= before);
    while k < w
        invariant
            k <= w,
            w == troops@.len(),
            v@ == before + troops@.take(k as int),
        decreases w - k,
    {
        v.push(troops[k]);
        k += 1;
        assert(v@ =~= before + troops@.take(k as int));
    }
    assert(troops@.take(w as int) =~= troops@);
    proof {
        lemma_obs_troops_len(s, flip);
    }
    let ghost before = v@;
    let rest: usize = 8 * (20 - seen);
    let mut k: usize = 0;
    assert(before + Seq::new(0, |i: int| zero::<S>()) =~= before);
    while k < rest
        invariant
            k <= rest,
            v@ == before + Seq::new(k as nat, |i: int| zero::<S>()),
        decreases rest - k,
    {
        v.push(zero());
        k += 1;
        assert(v@ =~= before + Seq::new(k as nat, |i: int| zero::<S>()));
    }
    proof {
        obs_length(m, flip);
        assert(v@ =~= obs_spec(m, flip));
    }
    v
}

/// The health of the last princess tower of a side on a flank; endless without one.
pub open spec fn flank_health<S: Scalar>(units: Seq<Actor<S>>, faction: Faction, left: bool) -> S
    decreases units.len(),
{
    if units.len() == 0 {
        S::infinity()
    } else {
        let a = units.last();
        if a.unit.kind == UnitKind::Tower && a.unit.faction == faction && !a.king && a.pos.x.less(
            zero(),
        ) == left {
            a.health.current
        } else {
            flank_health(units.drop_last(), faction, left)
        }
    }
}

fn flank<S: Scalar>(units: &Vec<Actor<S>>, faction: Faction, left: bool) -> (r: S)
    ensures
        r == flank_health(units@, faction, left),
{
    let n: usize = units.len();
    let mut r: S = S::infinity();
    assert(units@.take(0) =~= Seq::<Actor<S>>::empty());
    for i in 0..n
        invariant
            n == units@.len(),
            r == flank_health(units@.take(i as int), faction, left),
    {
        assert(units@.take(i + 1).drop_last() =~= units@.take(i as int));
        let a: &Actor<S> = &units[i];
        if a.unit.kind == UnitKind::Tower && a.unit.faction == faction && !a.king && a.pos.x.less(
            zero(),
        ) == left {
            r = a.health.current;
        }
    }
    assert(units@.take(n as int) =~= units@);
    r
}

/// The lane that the scripted opponent attacks on: the right one, unless the enemy's tower
/// there is weaker than the one on the left.
pub open spec fn lane_spec<S: Scalar>(m: WorldModel<S>, faction: Faction) -> S {
    if flank_health(m.units, faction.other(), false).less(
        flank_health(m.units, faction.other(), true),
    ) {
        bridges::<S>().0
    } else {
        bridges::<S>().1
    }
}

/// The square of the distance from a cell to a point.
#[verifier::allow_in_spec]
pub fn cell_distance<S: Scalar>(faction: Faction, cell: usize, x: S, z: S) -> S
    returns
        cell_to_pos::<S>(faction, cell).0.minus(x).times(
            cell_to_pos::<S>(faction, cell).0.minus(x),
        ).plus(
            cell_to_pos::<S>(faction, cell).1.minus(z).times(
                cell_to_pos::<S>(faction, cell).1.minus(z),
            ),
        ),
{
    let (cx, cz): (S, S) = cell_to_pos(faction, cell);
    cx.minus(x).times(cx.minus(x)).plus(cz.minus(z).times(cz.minus(z)))
}

/// Among the first `n` cells the open one that is nearest to a point.
pub open spec fn best_cell_spec<S: Scalar>(
    faction: Faction,
    towers: Seq<TowerSnap<S>>,
    x: S,
    z: S,
    n: int,
) -> Option<int>
    decreases n,
{
    if n <= 0 {
        None
    } else {
        let best = best_cell_spec(faction, towers, x, z, n - 1);
        if cell_open(faction, n - 1, towers) && (best.is_none() || cell_distance(
            faction,
            (n - 1) as usize,
            x,
            z,
        ).less(cell_distance(faction, best->0 as usize, x, z))) {
            Some(n - 1)
        } else {
            best
        }
    }
}

fn best_cell<S: Scalar>(faction: Faction, towers: &Vec<TowerSnap<S>>, x: S, z: S) -> (r: Option<usize>)
    ensures
        match r {
            Some(c) => best_cell_spec(faction, towers@, x, z, 112) == Some(c as int) && c < N_CELLS,
            None => best_cell_spec(faction, towers@, x, z, 112).is_none(),
        },
{
    let mut best: Option<usize> = None;
    let mut best_d: S = zero();
    let mut cell: usize = 0;
    while cell < N_CELLS
        invariant
            cell <= N_CELLS,
            match best {
                Some(c) => best_cell_spec(faction, towers@, x, z, cell as int) == Some(c as int) && c < cell
                    && best_d == cell_distance(faction, c, x, z),
                None => best_cell_spec(faction, towers@, x, z, cell as int).is_none(),
            },
        decreases N_CELLS - cell,
    {
        let (cx, cz): (S, S) = cell_to_pos(faction, cell);
        if deploy_allowed(faction, Vec3 { x: cx, y: zero(), z: cz }, towers) {
            let d: S = cell_distance(faction, cell, x, z);
            if best.is_none() || d.less(best_d) {
                best_d = d;
                best = Some(cell);
            }
        }
        cell += 1;
    }
    best
}

/// The slot in hand of a card, counted from `from`.
pub open spec fn slot_from(decks: DecksModel, faction: Faction, c: u8, from: int) -> Option<int>
    decreases HAND_SIZE - from,
{
    if from >= HAND_SIZE {
        None
    } else if hand_card_spec(decks, faction, from) == Some(c) {
        Some(from)
    } else {
        slot_from(decks, faction, c, from + 1)
    }
}

fn find_slot(decks: &Decks, faction: Faction, c: u8) -> (r: Option<usize>)
    ensures
        match r {
            Some(s) => slot_from(decks@, faction, c, 0) == Some(s as int) && s < HAND_SIZE
                && hand_card_spec(decks@, faction, s as int) == Some(c),
            None => slot_from(decks@, faction, c, 0).is_none(),
        },
{
    let mut slot: usize = 0;
    while slot < HAND_SIZE
        invariant
            slot <= HAND_SIZE,
            slot_from(decks@, faction, c, 0) == slot_from(decks@, faction, c, slot as int),
        decreases HAND_SIZE - slot,
    {
        let is_it: bool = match hand_card(decks, faction, slot) {
            Some(h) => h == c,
            None => false,
        };
        if is_it {
            return Some(slot);
        }
        slot += 1;
    }
    None
}

/// One idea of the scripted opponent: with so much elixir and the card in hand, play it on the
/// open cell that is nearest to the lane, so far from the river.
pub open spec fn idea_spec<S: Scalar>(
    m: WorldModel<S>,
    faction: Faction,
    c: u8,
    min_elixir: i64,
    depth: i64,
) -> Option<int> {
    if m.elixir.of(faction).less(whole(min_elixir)) {
        None
    } else {
        match (
            slot_from(m.decks, faction, c, 0),
            best_cell_spec(
                faction,
                tower_snaps_spec(m.units),
                lane_spec(m, faction),
                own_sign::<S>(faction).times(whole(depth)),
                112,
            ),
        ) {
            (Some(slot), Some(cell)) => Some(slot * 112 + cell),
            _ => None,
        }
    }
}

fn idea<S: Scalar>(
    world: &World<S>,
    towers: &Vec<TowerSnap<S>>,
    lane: S,
    faction: Faction,
    c: u8,
    min_elixir: i64,
    depth: i64,
) -> (r: Option<usize>)
    requires
        towers@ == tower_snaps_spec(world@.units),
        lane == lane_spec(world@, faction),
    ensures
        match r {
            Some(i) => idea_spec(world@, faction, c, min_elixir, depth) == Some(i as int) && i < NOOP_ACTION,
            None => idea_spec(world@, faction, c, min_elixir, depth).is_none(),
        },
{
    if elixir_of(world, faction).less(whole(min_elixir)) {
        return None;
    }
    let slot: usize = match find_slot(&world.decks, faction, c) {
        Some(s) => s,
        None => {
            return None;
        },
    };
    match best_cell(faction, towers, lane, own_sign::<S>(faction).times(whole(depth))) {
        Some(cell) => Some(slot * N_CELLS + cell),
        None => None,
    }
}

/// What the scripted opponent does: a giant up front, a musketeer behind, a knight when there
/// is elixir to spare, else nothing.
pub open spec fn scripted_action_spec<S: Scalar>(m: WorldModel<S>, faction: Faction) -> int {
    match idea_spec(m, faction, GIANT_CARD, 5, 2) {
        Some(i) => i,
        None => match idea_spec(m, faction, MUSKETEER_CARD, 4, 5) {
            Some(i) => i,
            None => match idea_spec(m, faction, KNIGHT_CARD, 8, 2) {
                Some(i) => i,
                None => NOOP_ACTION as int,
            },
        },
    }
}

/// What the scripted opponent does.
pub fn scripted_action<S: Scalar>(world: &World<S>, faction: Faction) -> (r: usize)
    ensures
        r == scripted_action_spec(world@, faction),
        r < N_ACTIONS,
{
    let enemy: Faction = faction.other();
    let left: S = flank(&world.units, enemy, true);
    let right: S = flank(&world.units, enemy, false);
    let (b0, b1): (S, S) = bridges();
    let lane: S = if right.less(left) { b0 } else { b1 };
    let towers: Vec<TowerSnap<S>> = tower_snaps(&world.units);
    if let Some(i) = idea(world, &towers, lane, faction, GIANT_CARD, 5, 2) {
        return i;
    }
    if let Some(i) = idea(world, &towers, lane, faction, MUSKETEER_CARD, 4, 5) {
        return i;
    }
    if let Some(i) = idea(world, &towers, lane, faction, KNIGHT_CARD, 8, 2) {
        return i;
    }
    NOOP_ACTION
}

pub proof fn lemma_best_cell_open<S: Scalar>(faction: Faction, towers: Seq<TowerSnap<S>>, x: S, z: S, n: int)
    ensures
        best_cell_spec(faction, towers, x, z, n) matches Some(c) ==> 0 <= c < n && cell_open(
            faction,
            c,
            towers,
        ),
    decreases n,
{
    if n > 0 {
        lemma_best_cell_open(faction, towers, x, z, n - 1);
    }
}

pub proof fn lemma_slot_holds(decks: DecksModel, faction: Faction, c: u8, from: int)
    requires
        0 <= from,
    ensures
        slot_from(decks, faction, c, from) matches Some(s) ==> from <= s < HAND_SIZE && hand_card_spec(
            decks,
            faction,
            s,
        ) == Some(c),
    decreases HAND_SIZE - from,
{
    if from < HAND_SIZE {
        lemma_slot_holds(decks, faction, c, from + 1);
    }
}

proof fn lemma_idea_legal<S: Scalar>(m: WorldModel<S>, faction: Faction, c: u8, min_elixir: i64, depth: i64)
    requires
        card_spec::<S>(c) matches Some(spec) && (m.elixir.of(faction).less(spec.cost)
            ==> m.elixir.of(faction).less(whole(min_elixir))),
    ensures
        idea_spec(m, faction, c, min_elixir, depth) matches Some(i) ==> legal(m, faction, i),
{
    let towers = tower_snaps_spec(m.units);
    let lane = lane_spec(m, faction);
    let z = own_sign::<S>(faction).times(whole(depth));
    lemma_best_cell_open(faction, towers, lane, z, 112);
    lemma_slot_holds(m.decks, faction, c, 0);
    if let Some(i) = idea_spec(m, faction, c, min_elixir, depth) {
        let slot = slot_from(m.decks, faction, c, 0)->0;
        let cell = best_cell_spec(faction, towers, lane, z, 112)->0;
        vstd::arithmetic::div_mod::lemma_fundamental_div_mod_converse(i, 112, slot, cell);
    }
}

/// The scripted opponent never does what is not legal.
pub proof fn script_is_legal<S: Scalar>(m: WorldModel<S>, faction: Faction)
    ensures
        legal(m, faction, scripted_action_spec(m, faction)),
{
    let e = m.elixir.of(faction);
    S::whole_less(3, 8);
    if e.less(whole(3)) {
        S::less_transitive(e, whole(3), whole(8));
    }
    lemma_idea_legal(m, faction, GIANT_CARD, 5, 2);
    lemma_idea_legal(m, faction, MUSKETEER_CARD, 4, 5);
    lemma_idea_legal(m, faction, KNIGHT_CARD, 8, 2);
}

/// The health of all towers of a side, where what is below nothing counts as nothing.
pub open spec fn tower_health<S: Scalar>(units: Seq<Actor<S>>, faction: Faction) -> S
    decreases units.len(),
{
    if units.len() == 0 {
        zero()
    } else {
        let rest = tower_health(units.drop_last(), faction);
        let a = units.last();
        if a.unit.kind == UnitKind::Tower && a.unit.faction == faction {
            rest.plus(a.health.current.most(zero()))
        } else {
            rest
        }
    }
}

fn sum_towers<S: Scalar>(units: &Vec<Actor<S>>, faction: Faction) -> (r: S)
    ensures
        r == tower_health(units@, faction),
{
    let n: usize = units.len();
    let mut r: S = zero();
    assert(units@.take(0) =~= Seq::<Actor<S>>::empty());
    for i in 0..n
        invariant
            n == units@.len(),
            r == tower_health(units@.take(i as int), faction),
    {
        assert(units@.take(i + 1).drop_last() =~= units@.take(i as int));
        let a: &Actor<S> = &units[i];
        if a.unit.kind == UnitKind::Tower && a.unit.faction == faction {
            r = r.plus(a.health.current.most(zero()));
        }
    }
    assert(units@.take(n as int) =~= units@);
    r
}

/// A number of thousandths.
#[verifier::allow_in_spec]
pub fn thousandths<S: Scalar>(n: i64) -> S
    returns
        S::ratio(n, 1000),
{
    S::ratio(n, 1000)
}

/// The reward of a step before the end of the match counts, from blue's view: damage to
/// towers, cards played, no hoarding of elixir, troops won in exchange.
pub open spec fn shaping<S: Scalar>(tower_hp: (S, S), after: WorldModel<S>, blue: Count, red: Count) -> S {
    let towers = tower_hp.1.minus(tower_health(after.units, Faction::Enemy)).minus(
        tower_hp.0.minus(tower_health(after.units, Faction::Player)),
    ).times(S::ratio(5, 10000));
    let played = towers.plus(whole::<S>(blue.plays as i64).times(thousandths(4)));
    let thrifty = if elixir_max::<S>().minus(S::ratio(1, 1_000_000)).at_most(after.elixir.player) {
        played.minus(thousandths(5))
    } else {
        played
    };
    thrifty.plus(
        whole::<S>(red.losses as i64).minus(whole::<S>(blue.losses as i64)).times(thousandths(10)),
    )
}

/// Whether a step ends the episode, and who has won: matches that take too many steps are drawn.
pub open spec fn ending(state: SimState, steps: u32) -> Option<Option<Faction>> {
    match state {
        SimState::GameOver(w) => Some(w),
        _ => if steps > 2000 { Some(None) } else { None },
    }
}

/// The reward of a step: one for a win, minus one for a defeat, on top of the shaping.
pub open spec fn reward_spec<S: Scalar>(shaped: S, end: Option<Option<Faction>>) -> S {
    match end {
        None => shaped,
        Some(Some(Faction::Player)) => shaped.plus(one()),
        Some(Some(Faction::Enemy)) => shaped.plus(one::<S>().negated()),
        Some(None) => shaped.plus(zero()),
    }
}

/// What a step gives.
#[derive(Debug)]
pub struct StepResult<S> {
    pub obs: Vec<S>,
    /// From blue's view.
    pub reward: S,
    pub done: bool,
    pub winner: Option<Faction>,
}

/// A match for learning agents.
pub struct SimWorld<S> {
    pub world: World<S>,
    pub buffer: CommandBuffer<S>,
    /// The tower health of blue and red at the last step.
    pub tower_hp: (S, S),
    pub steps: u32,
    /// The length of regular time, if not the usual one.
    pub regular_ticks: Option<u32>,
}

/// The command of an action, if there is such a slot.
pub open spec fn ordered<S: Scalar>(m: WorldModel<S>, faction: Faction, act: Option<EnvAction<S>>) -> Seq<
    GameCommand<S>,
> {
    match act {
        Some(a) => match hand_card_spec(m.decks, faction, a.slot as int) {
            Some(c) => seq![GameCommand::Deploy { faction, card: c, x: a.x, z: a.z }],
            None => Seq::empty(),
        },
        None => Seq::empty(),
    }
}

/// The commands of each tick of a step: the actions take effect in its second tick.
pub open spec fn step_feed<S: Scalar>(
    m: WorldModel<S>,
    buffer: CommandBuffer<S>,
    acts: Seq<GameCommand<S>>,
) -> spec_fn(u32) -> Seq<GameCommand<S>> {
    |t: u32|
        exec_order(
            at_tick(buffer.local@, t) + (if t == m.tick + 1 { acts } else { Seq::empty() }) + at_tick(
                buffer.remote@,
                t,
            ),
        )
}

/// The world at the start of an episode.
pub open spec fn episode<S: Scalar>(seed: u32, regular_ticks: Option<u32>) -> WorldModel<S> {
    let m = opening_spec::<S>(seed, SimState::Solo);
    match regular_ticks {
        Some(t) => WorldModel { timer: MatchTimer { ticks_left: t, ..m.timer }, ..m },
        None => m,
    }
}

/// Whether an episode is at its start: the decks are those of a seed, no step is done, and no
/// command waits.
pub open spec fn fresh<S: Scalar>(s: SimWorld<S>, seed: u32, regular_ticks: Option<u32>) -> bool {
    &&& s.world@ == episode::<S>(seed, regular_ticks)
    &&& s.steps == 0
    &&& s.tower_hp == (
        tower_health(s.world@.units, Faction::Player),
        tower_health(s.world@.units, Faction::Enemy),
    )
    &&& s.buffer.local@ == Map::<u32, Vec<GameCommand<S>>>::empty()
    &&& s.buffer.remote@ == Map::<u32, Vec<GameCommand<S>>>::empty()
}

/// What a step does: both sides act, half a second passes, and what comes of it is told. It
/// takes all its ticks unless the match ends.
pub open spec fn stepped<S: Scalar>(
    before: SimWorld<S>,
    blue: Option<EnvAction<S>>,
    red: Option<EnvAction<S>>,
    after: SimWorld<S>,
    r: StepResult<S>,
) -> bool {
    let m = before.world@;
    let acts = ordered(m, Faction::Player, blue) + ordered(m, Faction::Enemy, red);
    let feed = step_feed(m, before.buffer, acts);
    let n = run_ticks(m, feed, STEP_TICKS as nat);
    let end = ending(n.state, after.steps);
    let shaped = shaping(
        before.tower_hp,
        n,
        run_count(m, feed, STEP_TICKS as nat, Faction::Player),
        run_count(m, feed, STEP_TICKS as nat, Faction::Enemy),
    );
    &&& after.world@ == n
    &&& after.steps == before.steps + 1
    &&& after.regular_ticks == before.regular_ticks
    &&& after.tower_hp == (
        tower_health(n.units, Faction::Player),
        tower_health(n.units, Faction::Enemy),
    )
    &&& n.tick == m.tick + STEP_TICKS || n.state is GameOver
    &&& forall|t: u32|
        t >= n.tick ==> #[trigger] at_tick(after.buffer.local@, t) == at_tick(before.buffer.local@, t)
            + (if t == m.tick + 1 { acts } else { Seq::empty() })
    &&& forall|t: u32|
        t >= n.tick ==> #[trigger] at_tick(after.buffer.remote@, t) == at_tick(before.buffer.remote@, t)
    &&& r.obs@ == obs_spec(n, false)
    &&& r.reward == reward_spec(shaped, end)
    &&& r.done == end.is_some()
    &&& r.winner == (match end {
        Some(w) => w,
        None => None,
    })
}

impl<S: Scalar> SimWorld<S> {
    /// What every step relies on and keeps.
    pub open spec fn wf(&self) -> bool {
        &&& self.world.wf()
        &&& self.regular_ticks matches Some(t) ==> t > 0
    }

    /// An episode with the decks of seed zero.
    pub fn new() -> (r: Self)
        ensures
            r.wf(),
            fresh(r, 0, None),
            r.regular_ticks.is_none(),
    {
        let world: World<S> = opening(0, SimState::Solo);
        let tower_hp: (S, S) = (
            sum_towers(&world.units, Faction::Player),
            sum_towers(&world.units, Faction::Enemy),
        );
        SimWorld {
            world,
            buffer: CommandBuffer { local: HashMap::new(), remote: HashMap::new() },
            tower_hp,
            steps: 0,
            regular_ticks: None,
        }
    }

    /// The same episode, with another regular time from the next one on.
    pub fn with_regular_ticks(self, ticks: u32) -> (r: Self)
        requires
            self.wf(),
            ticks > 0,
        ensures
            r.wf(),
            r == (SimWorld { regular_ticks: Some(ticks), ..self }),
    {
        let mut r = self;
        r.regular_ticks = Some(ticks);
        r
    }

    /// Starts an episode with the decks of a seed.
    pub fn reset(&mut self, deck_seed: u32) -> (obs: Vec<S>)
        requires
            old(self).wf(),
        ensures
            final(self).wf(),
            fresh(*final(self), deck_seed, old(self).regular_ticks),
            final(self).regular_ticks == old(self).regular_ticks,
            obs@ == obs_spec(final(self).world@, false),
    {
        let mut world: World<S> = opening(deck_seed, SimState::Solo);
        if let Some(t) = self.regular_ticks {
            world.timer.ticks_left = t;
        }
        self.world = world;
        self.buffer = CommandBuffer { local: HashMap::new(), remote: HashMap::new() };
        self.tower_hp = (
            sum_towers(&self.world.units, Faction::Player),
            sum_towers(&self.world.units, Faction::Enemy),
        );
        self.steps = 0;
        compute_obs(&self.world, false)
    }

    fn order(&mut self, faction: Faction, act: Option<EnvAction<S>>, tick: u32)
        ensures
            final(self).world == old(self).world,
            final(self).buffer.remote == old(self).buffer.remote,
            final(self).tower_hp == old(self).tower_hp,
            final(self).steps == old(self).steps,
            final(self).regular_ticks == old(self).regular_ticks,
            at_tick(final(self).buffer.local@, tick) == at_tick(old(self).buffer.local@, tick)
                + ordered(old(self).world@, faction, act),
            forall|t: u32|
                t != tick ==> #[trigger] at_tick(final(self).buffer.local@, t) == at_tick(
                    old(self).buffer.local@,
                    t,
                ),
    {
        let ghost before = at_tick(self.buffer.local@, tick);
        assert(before + Seq::<GameCommand<S>>::empty() =~= before);
        if let Some(a) = act {
            if let Some(c) = hand_card(&self.world.decks, faction, a.slot) {
                let cmd: GameCommand<S> = GameCommand::Deploy { faction, card: c, x: a.x, z: a.z };
                schedule(&mut self.buffer.local, tick, cmd);
                assert(before + seq![cmd] =~= before.push(cmd));
            }
        }
    }

    /// Lets both sides act and half a second pass.
    pub fn step(&mut self, blue: Option<EnvAction<S>>, red: Option<EnvAction<S>>) -> (r: StepResult<S>)
        requires
            old(self).wf(),
            old(self).world.tick + STEP_TICKS < u32::MAX,
            old(self).steps < u32::MAX,
        ensures
            final(self).wf(),
            stepped(*old(self), blue, red, *final(self), r),
    {
        let ghost m = self.world@;
        let ghost b = self.buffer;
        self.steps = self.steps + 1;
        let tick: u32 = self.world.tick + 1;
        self.order(Faction::Player, blue, tick);
        self.order(Faction::Enemy, red, tick);
        let ghost acts = ordered(m, Faction::Player, blue) + ordered(m, Faction::Enemy, red);
        let ghost feed = step_feed(m, b, acts);
        let ghost mid = self.buffer;
        assert forall|t: u32| #[trigger] feed(t) == buffered(mid)(t) by {
            if t == tick {
                assert(at_tick(mid.local@, t) =~= at_tick(b.local@, t) + acts);
            } else {
                assert(at_tick(mid.local@, t) == at_tick(b.local@, t));
                assert(at_tick(b.local@, t) + Seq::<GameCommand<S>>::empty() =~= at_tick(b.local@, t));
            }
        }
        proof {
            lemma_run_agrees(m, feed, buffered(mid), STEP_TICKS as nat);
            lemma_count_agrees(m, feed, buffered(mid), STEP_TICKS as nat, Faction::Player);
            lemma_count_agrees(m, feed, buffered(mid), STEP_TICKS as nat, Faction::Enemy);
        }
        let tally: Tally = run(&mut self.world, &mut self.buffer, STEP_TICKS);
        let ghost n = self.world@;
        assert forall|t: u32| t >= n.tick implies #[trigger] at_tick(self.buffer.local@, t) == at_tick(
            b.local@,
            t,
        ) + (if t == m.tick + 1 { acts } else { Seq::empty() }) by {
            assert(at_tick(self.buffer.local@, t) == at_tick(mid.local@, t));
            assert(at_tick(b.local@, t) + Seq::<GameCommand<S>>::empty() =~= at_tick(b.local@, t));
            if t == tick {
                assert(at_tick(mid.local@, t) =~= at_tick(b.local@, t) + acts);
            }
        }
        assert(tally.of(Faction::Player) == run_count(m, feed, STEP_TICKS as nat, Faction::Player));
        assert(tally.of(Faction::Enemy) == run_count(m, feed, STEP_TICKS as nat, Faction::Enemy));
        let now: (S, S) = (
            sum_towers(&self.world.units, Faction::Player),
            sum_towers(&self.world.units, Faction::Enemy),
        );
        let mut reward: S = self.tower_hp.1.minus(now.1).minus(self.tower_hp.0.minus(now.0)).times(
            S::ratio(5, 10000),
        );
        self.tower_hp = now;
        reward = reward.plus(whole::<S>(tally.blue.plays as i64).times(thousandths(4)));
        if elixir_max::<S>().minus(S::ratio(1, 1_000_000)).at_most(self.world.elixir.player) {
            reward = reward.minus(thousandths(5));
        }
        reward = reward.plus(
            whole::<S>(tally.red.losses as i64).minus(whole::<S>(tally.blue.losses as i64)).times(
                thousandths(10),
            ),
        );
        let end: Option<Option<Faction>> = match self.world.state {
            SimState::GameOver(w) => Some(w),
            _ => if self.steps > 2000 {
                Some(None)
            } else {
                None
            },
        };
        match end {
            Some(w) => {
                reward = reward.plus(
                    match w {
                        Some(Faction::Player) => one(),
                        Some(Faction::Enemy) => one::<S>().negated(),
                        None => zero(),
                    },
                );
                StepResult { obs: compute_obs(&self.world, false), reward, done: true, winner: w }
            },
            None => StepResult {
                obs: compute_obs(&self.world, false),
                reward,
                done: false,
                winner: None,
            },
        }
    }

    /// What blue sees.
    pub fn obs(&self) -> (r: Vec<S>)
        requires
            self.wf(),
        ensures
            r@ == obs_spec(self.world@, false),
            r@.len() == OBS_SIZE,
    {
        compute_obs(&self.world, false)
    }

    /// What a side sees.
    pub fn obs_for(&self, faction: Faction) -> (r: Vec<S>)
        requires
            self.wf(),
        ensures
            r@ == obs_spec(self.world@, faction == Faction::Enemy),
            r@.len() == OBS_SIZE,
    {
        compute_obs(&self.world, faction == Faction::Enemy)
    }

    /// The tick.
    pub fn tick(&self) -> (r: u32)
        ensures
            r == self.world.tick,
    {
        self.world.tick
    }

    /// The card in a slot of a side.
    pub fn hand_card(&self, faction: Faction, slot: usize) -> (r: Option<u8>)
        ensures
            r == hand_card_spec(self.world@.decks, faction, slot as int),
    {
        hand_card(&self.world.decks, faction, slot)
    }

    /// The elixir of a side.
    pub fn elixir(&self, faction: Faction) -> (r: S)
        ensures
            r == self.world@.elixir.of(faction),
    {
        elixir_of(&self.world, faction)
    }

    /// The towers that stand.
    pub fn tower_snaps(&self) -> (r: Vec<TowerSnap<S>>)
        ensures
            r@ == tower_snaps_spec(self.world@.units),
    {
        tower_snaps(&self.world.units)
    }
}

/// Whether two matches stand alike: one cannot tell them apart by going on with them.
pub open spec fn alike<S: Scalar>(a: SimWorld<S>, b: SimWorld<S>) -> bool {
    &&& a.world@ == b.world@
    &&& a.steps == b.steps
    &&& a.tower_hp == b.tower_hp
    &&& same_from(a.buffer, b.buffer, a.world.tick)
}

/// Whether two results tell the same.
pub open spec fn tell_alike<S: Scalar>(a: StepResult<S>, b: StepResult<S>) -> bool {
    &&& a.obs@ == b.obs@
    &&& a.reward == b.reward
    &&& a.done == b.done
    &&& a.winner == b.winner
}

/// The same actions in matches that stand alike give the same, and leave them alike.
pub proof fn steps_repeat<S: Scalar>(
    a: SimWorld<S>,
    b: SimWorld<S>,
    blue: Option<EnvAction<S>>,
    red: Option<EnvAction<S>>,
    next_a: SimWorld<S>,
    next_b: SimWorld<S>,
    r_a: StepResult<S>,
    r_b: StepResult<S>,
)
    requires
        alike(a, b),
        a.world.tick + STEP_TICKS < u32::MAX,
        stepped(a, blue, red, next_a, r_a),
        stepped(b, blue, red, next_b, r_b),
    ensures
        alike(next_a, next_b),
        tell_alike(r_a, r_b),
{
    let m = a.world@;
    let acts = ordered(m, Faction::Player, blue) + ordered(m, Faction::Enemy, red);
    let f = step_feed(m, a.buffer, acts);
    let g = step_feed(m, b.buffer, acts);
    assert forall|t: u32| m.tick <= t < m.tick + STEP_TICKS implies #[trigger] f(t) == g(t) by {
        assert(at_tick(a.buffer.local@, t) == at_tick(b.buffer.local@, t));
        assert(at_tick(a.buffer.remote@, t) == at_tick(b.buffer.remote@, t));
    }
    lemma_run_agrees(m, f, g, STEP_TICKS as nat);
    lemma_count_agrees(m, f, g, STEP_TICKS as nat, Faction::Player);
    lemma_count_agrees(m, f, g, STEP_TICKS as nat, Faction::Enemy);
    lemma_run_goes_on(m, f, STEP_TICKS as nat);
    assert forall|t: u32| t >= next_a.world.tick implies #[trigger] at_tick(next_a.buffer.local@, t)
        == at_tick(next_b.buffer.local@, t) by {
        assert(at_tick(a.buffer.local@, t) == at_tick(b.buffer.local@, t));
    }
    assert forall|t: u32| t >= next_a.world.tick implies #[trigger] at_tick(next_a.buffer.remote@, t)
        == at_tick(next_b.buffer.remote@, t) by {
        assert(at_tick(a.buffer.remote@, t) == at_tick(b.buffer.remote@, t));
    }
}

/// Two episodes of the same seed and the same actions are the same: after each step they stand
/// alike, and each step of the one tells what that of the other tells.
pub proof fn episodes_repeat<S: Scalar>(
    seed: u32,
    ticks: Option<u32>,
    acts: Seq<(Option<EnvAction<S>>, Option<EnvAction<S>>)>,
    a: Seq<SimWorld<S>>,
    b: Seq<SimWorld<S>>,
    r_a: Seq<StepResult<S>>,
    r_b: Seq<StepResult<S>>,
    k: nat,
)
    requires
        k <= acts.len(),
        a.len() == acts.len() + 1,
        b.len() == acts.len() + 1,
        r_a.len() == acts.len(),
        r_b.len() == acts.len(),
        fresh(a[0], seed, ticks),
        fresh(b[0], seed, ticks),
        forall|i: int|
            0 <= i < acts.len() ==> (#[trigger] a[i]).world.tick + STEP_TICKS < u32::MAX && stepped(
                a[i],
                acts[i].0,
                acts[i].1,
                a[i + 1],
                r_a[i],
            ),
        forall|i: int|
            0 <= i < acts.len() ==> stepped(#[trigger] b[i], acts[i].0, acts[i].1, b[i + 1], r_b[i]),
    ensures
        alike(a[k as int], b[k as int]),
        k > 0 ==> tell_alike(r_a[k - 1], r_b[k - 1]),
    decreases k,
{
    if k > 0 {
        let i = k - 1;
        episodes_repeat(seed, ticks, acts, a, b, r_a, r_b, i as nat);
        assert(stepped(a[i], acts[i].0, acts[i].1, a[i + 1], r_a[i]));
        assert(stepped(b[i], acts[i].0, acts[i].1, b[i + 1], r_b[i]));
        steps_repeat(a[i], b[i], acts[i].0, acts[i].1, a[i + 1], b[i + 1], r_a[i], r_b[i]);
    }
}

/// Whether a side's action in a step comes to nothing: there is no such slot, the match is over
/// before its command comes to its turn, or it cannot be played then. Blue's commands of a tick come before red's.
pub open spec fn refuses<S: Scalar>(
    s: SimWorld<S>,
    blue: Option<EnvAction<S>>,
    red: Option<EnvAction<S>>,
    faction: Faction,
) -> bool {
    let m = s.world@;
    let t = (m.tick + 1) as u32;
    let b = ordered(m, Faction::Player, blue);
    let r = ordered(m, Faction::Enemy, red);
    let next = tick_spec(m, exec_order(at_tick(s.buffer.local@, m.tick) + at_tick(s.buffer.remote@, m.tick)));
    let (x, own, y) = match faction {
        Faction::Player => (at_tick(s.buffer.local@, t), b, r + at_tick(s.buffer.remote@, t)),
        Faction::Enemy => (at_tick(s.buffer.local@, t) + b, r, at_tick(s.buffer.remote@, t)),
    };
    own.len() > 0 ==> {
        let towers = tower_snaps_spec(next.units);
        m.state is GameOver || next.state is GameOver || !takes(
            all_commanded(next, turn_of(x, own[0], y), towers),
            own[0],
            towers,
        )
    }
}

/// A refused action is free: the step tells what it would have told without the action, reward
/// included, and leaves the match as it would have been but for the log.
pub proof fn refusal_is_free<S: Scalar>(
    s: SimWorld<S>,
    blue: Option<EnvAction<S>>,
    red: Option<EnvAction<S>>,
    faction: Faction,
    with: SimWorld<S>,
    without: SimWorld<S>,
    r_with: StepResult<S>,
    r_without: StepResult<S>,
)
    requires
        s.world.tick + STEP_TICKS < u32::MAX,
        refuses(s, blue, red, faction),
        stepped(s, blue, red, with, r_with),
        stepped(
            s,
            if faction == Faction::Player { None } else { blue },
            if faction == Faction::Player { red } else { None },
            without,
            r_without,
        ),
    ensures
        tell_alike(r_with, r_without),
        unlogged(with.world@) == unlogged(without.world@),
        with.tower_hp == without.tower_hp,
        with.steps == without.steps,
{
    let m = s.world@;
    let t = (m.tick + 1) as u32;
    let b = ordered(m, Faction::Player, blue);
    let r = ordered(m, Faction::Enemy, red);
    let none = Seq::<GameCommand<S>>::empty();
    let (own, others) = match faction {
        Faction::Player => (b, none + r),
        Faction::Enemy => (r, b + none),
    };
    let f = step_feed(m, s.buffer, b + r);
    let g = step_feed(m, s.buffer, others);
    let local = at_tick(s.buffer.local@, t);
    let remote = at_tick(s.buffer.remote@, t);
    let first = at_tick(s.buffer.local@, m.tick);
    assert(first + none =~= first);
    assert(f(m.tick) == g(m.tick));
    let next = tick_spec(m, f(m.tick));
    lemma_tick_counts(m, f(m.tick));
    if own.len() == 0 {
        assert(own =~= none);
        assert(b + r =~= others);
    } else if !(m.state is GameOver) {
        assert(own =~= seq![own[0]]);
        let n = (STEP_TICKS - 1) as nat;
        if !(next.state is GameOver) {
            let (x, y) = match faction {
                Faction::Player => (local, r + remote),
                Faction::Enemy => (local + b, remote),
            };
            assert(local + (b + r) + remote =~= x + seq![own[0]] + y);
            assert(local + others + remote =~= x + y);
            lemma_refused_tick(next, x, own[0], y);
            let (u, v) = (tick_spec(next, f(t)), tick_spec(next, g(t)));
            lemma_tick_counts(next, f(t));
            assert forall|k: u32| u.tick <= k < u.tick + (n - 1) implies #[trigger] f(k) == g(k) by {}
            lemma_run_unlogged(u, v, f, (n - 1) as nat);
            lemma_run_agrees(v, f, g, (n - 1) as nat);
            lemma_count_agrees(v, f, g, (n - 1) as nat, Faction::Player);
            lemma_count_agrees(v, f, g, (n - 1) as nat, Faction::Enemy);
            assert(run_ticks(next, f, n) == run_ticks(u, f, (n - 1) as nat));
            assert(run_ticks(next, g, n) == run_ticks(v, g, (n - 1) as nat));
        }
        assert(run_ticks(m, f, STEP_TICKS as nat) == run_ticks(next, f, n));
        assert(run_ticks(m, g, STEP_TICKS as nat) == run_ticks(next, g, n));
        assert forall|side: Faction| #[trigger]
            run_count(m, f, STEP_TICKS as nat, side) == run_count(m, g, STEP_TICKS as nat, side) by {
            assert(run_count(m, f, STEP_TICKS as nat, side) == tick_count(m, f(m.tick), side).plus(
                run_count(next, f, n, side),
            ));
            assert(run_count(m, g, STEP_TICKS as nat, side) == tick_count(m, g(m.tick), side).plus(
                run_count(next, g, n, side),
            ));
            if !(next.state is GameOver) {
                let (u, v) = (tick_spec(next, f(t)), tick_spec(next, g(t)));
                assert(tick_count(next, f(t), side) == tick_count(next, g(t), side));
                assert(run_count(u, f, (n - 1) as nat, side) == run_count(v, f, (n - 1) as nat, side));
                assert(run_count(v, f, (n - 1) as nat, side) == run_count(v, g, (n - 1) as nat, side));
                assert(run_count(next, f, n, side) == tick_count(next, f(t), side).plus(
                    run_count(u, f, (n - 1) as nat, side),
                ));
                assert(run_count(next, g, n, side) == tick_count(next, g(t), side).plus(
                    run_count(v, g, (n - 1) as nat, side),
                ));
            }
        }
    }
}

/// What a player without any plan does: in a quarter of the steps, a card of the hand somewhere
/// in the own half.
pub open spec fn random_action_spec<S: Scalar>(rng: u32, sign: S) -> Option<EnvAction<S>> {
    if prand_spec(rng) < 250 {
        Some(
            EnvAction {
                slot: (prand_spec(rng.wrapping_add(11)) * 4 / 1000) as usize,
                x: thousandths::<S>(prand_spec(rng.wrapping_add(23)) as i64).times(whole(12)).minus(
                    whole(6),
                ),
                z: sign.times(
                    whole::<S>(2).plus(
                        thousandths::<S>(prand_spec(rng.wrapping_add(37)) as i64).times(whole(10)),
                    ),
                ),
            },
        )
    } else {
        None
    }
}

/// What a player without any plan does.
pub fn random_action<S: Scalar>(rng: &mut u32, sign: S) -> (r: Option<EnvAction<S>>)
    ensures
        *final(rng) == old(rng).wrapping_add(1),
        r == random_action_spec(*final(rng), sign),
        r matches Some(a) ==> a.slot < HAND_SIZE,
{
    *rng = rng.wrapping_add(1);
    if prand(*rng) < 250 {
        let slot: usize = (prand(rng.wrapping_add(11)) * 4 / 1000) as usize;
        let x: S = thousandths::<S>(prand(rng.wrapping_add(23)) as i64).times(whole(12)).minus(whole(6));
        let z: S = sign.times(
            whole::<S>(2).plus(
                thousandths::<S>(prand(rng.wrapping_add(37)) as i64).times(whole(10)),
            ),
        );
        Some(EnvAction { slot, x, z })
    } else {
        None
    }
}

} // verus!
