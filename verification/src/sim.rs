//! One tick of a match.
//!
//! The tick is the same function on every peer: commands in the order of the sides, then
//! every system in a fixed order. Two peers in the same state that carry out the same
//! commands are in the same state afterwards.

use std::collections::HashMap;
use vstd::prelude::*;

use crate::buffs::{status_models, statuses_wf, Buffs};
use crate::cards::{play_card, play_card_spec, tower_snaps, tower_snaps_spec, TowerSnap};
use crate::combat::UnitSnap;
use crate::combat::attack::{attacking, attacking_spec};
use crate::combat::movement::{moving, moving_spec};
use crate::combat::physics::{
    dried, keep_out_of_river, separate_from_statics, separate_monsters, separate_spec, unblocked,
};
use crate::combat::projectile::{move_projectiles, move_projectiles_spec};
use crate::combat::status::{aged_all, shaken_all, status_effects};
use crate::combat::targeting::{snapshot, targeting, targeting_spec, WorldSnaps};
use crate::components::{Actor, CommandBuffer, Faction, GameCommand, UnitKind};
use crate::constants::tick_dt;
use crate::elixir::{regen, regenerated};
use crate::match_flow::{
    can_end, clock_keeps_order, clock_spec, drained, outcome, outcome_spec, sudden_death, tick_timer, Clock,
    MatchPhase, SimState,
};
use crate::roster::{despawn, lemma_survivor_origin, lemma_unmarked_survives, survivors};
use crate::scalar::{zero, Scalar};
use crate::spawn::{building_spawner, landed, process_deploying, spawned, waiting, Ranks};
use crate::tally::{accepted, count_troops, fall, lost_in_tick, run_count, tick_count, Score, Tally};
use crate::vector::Vec3;
use crate::volley::{spell_volley_tick, volleys_spec};
use crate::world::{World, WorldModel};

verus! {

/// A bound on what one tick counts.
pub const TALLY_BOUND: u128 = 0x2_0000_0000_0000_0000;

broadcast use vstd::std_specs::hash::group_hash_axioms;

/// The commands of one side, in order.
pub open spec fn of_side<S: Scalar>(cmds: Seq<GameCommand<S>>, faction: Faction) -> Seq<GameCommand<S>>
    decreases cmds.len(),
{
    if cmds.len() == 0 {
        Seq::empty()
    } else {
        let rest = of_side(cmds.drop_last(), faction);
        if cmds.last().faction() == faction { rest.push(cmds.last()) } else { rest }
    }
}

/// Commands in the order in which they are carried out: blue before red, each in the order in
/// which they were given.
pub open spec fn exec_order<S: Scalar>(cmds: Seq<GameCommand<S>>) -> Seq<GameCommand<S>> {
    of_side(cmds, Faction::Player) + of_side(cmds, Faction::Enemy)
}

/// What is stored for a tick; nothing, if there is no entry.
pub open spec fn at_tick<S: Scalar>(map: Map<u32, Vec<GameCommand<S>>>, tick: u32) -> Seq<GameCommand<S>> {
    if map.contains_key(tick) { map[tick]@ } else { Seq::empty() }
}

fn push_side<S: Scalar>(cmds: &Vec<GameCommand<S>>, faction: Faction, out: &mut Vec<GameCommand<S>>)
    ensures
        final(out)@ == old(out)@ + of_side(cmds@, faction),
{
    let n: usize = cmds.len();
    assert(cmds@.take(0) =~= Seq::<GameCommand<S>>::empty());
    assert(out@ =~= old(out)@ + of_side(cmds@.take(0), faction));
    for i in 0..n
        invariant
            n == cmds@.len(),
            out@ == old(out)@ + of_side(cmds@.take(i as int), faction),
    {
        assert(cmds@.take(i + 1).drop_last() =~= cmds@.take(i as int));
        if cmds[i].faction() == faction {
            out.push(cmds[i]);
        }
        assert(out@ =~= old(out)@ + of_side(cmds@.take(i + 1), faction));
    }
    assert(cmds@.take(n as int) =~= cmds@);
}

/// Takes the commands of one tick out of the buffer, in the order in which they are carried out.
pub fn take_commands<S: Scalar>(buffer: &mut CommandBuffer<S>, tick: u32) -> (r: Vec<GameCommand<S>>)
    ensures
        r@ == exec_order(at_tick(old(buffer).local@, tick) + at_tick(old(buffer).remote@, tick)),
        final(buffer).local@ == old(buffer).local@.remove(tick),
        final(buffer).remote@ == old(buffer).remote@.remove(tick),
{
    let local: Vec<GameCommand<S>> = match buffer.local.remove(&tick) {
        Some(v) => v,
        None => Vec::new(),
    };
    let remote: Vec<GameCommand<S>> = match buffer.remote.remove(&tick) {
        Some(v) => v,
        None => Vec::new(),
    };
    let ghost (l, r) = (local@, remote@);
    assert(l =~= at_tick(old(buffer).local@, tick));
    assert(r =~= at_tick(old(buffer).remote@, tick));
    let mut all: Vec<GameCommand<S>> = local;
    let n: usize = remote.len();
    assert(l + r.take(0) =~= l);
    for i in 0..n
        invariant
            n == r.len(),
            remote@ == r,
            all@ == l + r.take(i as int),
    {
        all.push(remote[i]);
        assert(l + r.take(i + 1) =~= (l + r.take(i as int)).push(r[i as int]));
    }
    assert(r.take(n as int) =~= r);
    let mut out: Vec<GameCommand<S>> = Vec::new();
    push_side(&all, Faction::Player, &mut out);
    push_side(&all, Faction::Enemy, &mut out);
    assert(out@ =~= exec_order(l + r));
    assert(buffer.local@ =~= old(buffer).local@.remove(tick));
    assert(buffer.remote@ =~= old(buffer).remote@.remove(tick));
    out
}

/// The world after one command: it goes into the log, whether it can be carried out or not.
pub open spec fn commanded<S: Scalar>(
    m: WorldModel<S>,
    cmd: GameCommand<S>,
    towers: Seq<TowerSnap<S>>,
) -> WorldModel<S> {
    let logged = WorldModel { log: m.log.push((m.tick, cmd)), ..m };
    match cmd {
        GameCommand::Deploy { faction, card, x, z } => play_card_spec(
            logged,
            faction,
            card,
            Vec3 { x, y: zero(), z },
            towers,
        ),
    }
}

/// The world after several commands, in order, with the towers that stood before them.
pub open spec fn all_commanded<S: Scalar>(
    m: WorldModel<S>,
    cmds: Seq<GameCommand<S>>,
    towers: Seq<TowerSnap<S>>,
) -> WorldModel<S>
    decreases cmds.len(),
{
    if cmds.len() == 0 {
        m
    } else {
        commanded(all_commanded(m, cmds.drop_last(), towers), cmds.last(), towers)
    }
}

/// Carries out the commands of a tick, and gives how many cards blue and red have played.
pub fn apply_commands<S: Scalar>(world: &mut World<S>, cmds: &Vec<GameCommand<S>>) -> (plays: (usize, usize))
    requires
        old(world).wf(),
    ensures
        final(world).wf(),
        final(world)@ == all_commanded(old(world)@, cmds@, tower_snaps_spec(old(world)@.units)),
        plays.0 == accepted(
            old(world)@,
            cmds@,
            tower_snaps_spec(old(world)@.units),
            Faction::Player,
        ),
        plays.1 == accepted(
            old(world)@,
            cmds@,
            tower_snaps_spec(old(world)@.units),
            Faction::Enemy,
        ),
{
    let towers: Vec<TowerSnap<S>> = tower_snaps(&world.units);
    let n: usize = cmds.len();
    let mut blue: usize = 0;
    let mut red: usize = 0;
    assert(cmds@.take(0) =~= Seq::<GameCommand<S>>::empty());
    for i in 0..n
        invariant
            n == cmds@.len(),
            world.wf(),
            world@ == all_commanded(old(world)@, cmds@.take(i as int), towers@),
            blue <= i,
            red <= i,
            blue == accepted(old(world)@, cmds@.take(i as int), towers@, Faction::Player),
            red == accepted(old(world)@, cmds@.take(i as int), towers@, Faction::Enemy),
    {
        assert(cmds@.take(i + 1).drop_last() =~= cmds@.take(i as int));
        let cmd: GameCommand<S> = cmds[i];
        world.log.push((world.tick, cmd));
        match cmd {
            GameCommand::Deploy { faction, card, x, z } => {
                if play_card(world, faction, card, Vec3 { x, y: zero(), z }, &towers) {
                    match faction {
                        Faction::Player => {
                            blue += 1;
                        },
                        Faction::Enemy => {
                            red += 1;
                        },
                    }
                }
            },
        }
    }
    assert(cmds@.take(n as int) =~= cmds@);
    (blue, red)
}

/// A unit whose time on the field is one tick shorter.
#[verifier::allow_in_spec]
pub fn worn<S: Scalar>(a: Actor<S>) -> Actor<S>
    returns
        (match a.lifetime {
            Some(t) => Actor { lifetime: Some(t.minus(tick_dt())), ..a },
            None => a,
        }),
{
    match a.lifetime {
        Some(t) => Actor { lifetime: Some(t.minus(tick_dt())), ..a },
        None => a,
    }
}

/// Whether the time of a unit is over.
#[verifier::allow_in_spec]
pub fn expired<S: Scalar>(a: &Actor<S>) -> bool
    returns
        (match a.lifetime {
            Some(t) => t.at_most(zero()),
            None => false,
        }),
{
    match a.lifetime {
        Some(t) => t.at_most(zero()),
        None => false,
    }
}

/// Which units crumble now.
pub open spec fn crumbling<S: Scalar>(units: Seq<Actor<S>>) -> Seq<bool> {
    units.map_values(|a: Actor<S>| expired(&worn(a)))
}

/// Lets buildings grow older; those whose time is over are removed.
pub fn building_lifetime<S: Scalar>(units: &mut Vec<Actor<S>>, buffs: &mut Vec<Option<Buffs<S>>>)
    requires
        old(units)@.len() == old(buffs)@.len(),
        statuses_wf(old(buffs)@),
    ensures
        final(units)@ == survivors(
            old(units)@.map_values(|a: Actor<S>| worn(a)),
            crumbling(old(units)@),
        ),
        status_models(final(buffs)@) == survivors(
            status_models(old(buffs)@),
            crumbling(old(units)@),
        ),
        final(units)@.len() == final(buffs)@.len(),
        statuses_wf(final(buffs)@),
{
    let n: usize = units.len();
    let ghost before = units@;
    let mut doomed: Vec<bool> = Vec::new();
    for i in 0..n
        invariant
            n == before.len(),
            n == units@.len(),
            doomed@.len() == i,
            forall|j: int| i <= j < n ==> units@[j] == before[j],
            forall|j: int| 0 <= j < i ==> units@[j] == worn(before[j]),
            forall|j: int| 0 <= j < i ==> doomed@[j] == expired(&worn(before[j])),
    {
        let a: Actor<S> = worn(units[i]);
        units[i] = a;
        doomed.push(expired(&a));
    }
    assert(units@ =~= before.map_values(|a: Actor<S>| worn(a)));
    assert(doomed@ =~= crumbling(before));
    despawn(units, buffs, &doomed);
}

/// Whether a unit without health is removed: kings never, other towers only in regular time.
#[verifier::allow_in_spec]
pub fn falls<S: Scalar>(a: &Actor<S>, phase: MatchPhase) -> bool
    returns
        (!a.king && a.health.gone() && !(a.unit.kind == UnitKind::Tower && sudden_death(phase))),
{
    !a.king && a.health.gone() && !(a.unit.kind == UnitKind::Tower && sudden_death(phase))
}

/// Which units fall now.
pub open spec fn falling<S: Scalar>(units: Seq<Actor<S>>, phase: MatchPhase) -> Seq<bool> {
    units.map_values(|a: Actor<S>| falls(&a, phase))
}

/// Removes units without health. Kings, and towers after regular time, are left for
/// [`check_game_over`].
pub fn despawn_dead<S: Scalar>(
    units: &mut Vec<Actor<S>>,
    buffs: &mut Vec<Option<Buffs<S>>>,
    phase: MatchPhase,
)
    requires
        old(units)@.len() == old(buffs)@.len(),
        statuses_wf(old(buffs)@),
    ensures
        final(units)@ == survivors(old(units)@, falling(old(units)@, phase)),
        status_models(final(buffs)@) == survivors(
            status_models(old(buffs)@),
            falling(old(units)@, phase),
        ),
        final(units)@.len() == final(buffs)@.len(),
        statuses_wf(final(buffs)@),
{
    let n: usize = units.len();
    let mut doomed: Vec<bool> = Vec::new();
    for i in 0..n
        invariant
            n == units@.len(),
            doomed@.len() == i,
            forall|j: int| 0 <= j < i ==> doomed@[j] == falls(&units@[j], phase),
    {
        doomed.push(falls(&units[i], phase));
    }
    assert(doomed@ =~= falling(units@, phase));
    despawn(units, buffs, &doomed);
}

/// Which units belong to a side.
pub open spec fn siding<S: Scalar>(units: Seq<Actor<S>>, faction: Faction) -> Seq<bool> {
    units.map_values(|a: Actor<S>| a.unit.faction == faction)
}

/// The world after it was looked whether the match is over: the loser's units are gone.
pub open spec fn judged<S: Scalar>(m: WorldModel<S>) -> WorldModel<S> {
    if !can_end(m.state) {
        m
    } else {
        match outcome_spec(m.units, m.timer.phase) {
            None => m,
            Some(None) => WorldModel { state: SimState::GameOver(None), ..m },
            Some(Some(winner)) => WorldModel {
                state: SimState::GameOver(Some(winner)),
                units: survivors(m.units, siding(m.units, winner.other())),
                statuses: survivors(m.statuses, siding(m.units, winner.other())),
                ..m
            },
        }
    }
}

/// Ends the match if it is decided, and removes the units of the side that lost.
pub fn check_game_over<S: Scalar>(world: &mut World<S>)
    requires
        old(world).wf(),
    ensures
        final(world).wf(),
        final(world)@ == judged(old(world)@),
{
    if !can_end(world.state) {
        return;
    }
    if let Some(result) = outcome(&world.units, world.timer.phase) {
        world.state = SimState::GameOver(result);
        if let Some(winner) = result {
            let loser: Faction = winner.other();
            let n: usize = world.units.len();
            let mut doomed: Vec<bool> = Vec::new();
            for i in 0..n
                invariant
                    n == world.units@.len(),
                    doomed@.len() == i,
                    forall|j: int| 0 <= j < i ==> doomed@[j] == (world.units@[j].unit.faction == loser),
            {
                doomed.push(world.units[i].unit.faction == loser);
            }
            assert(doomed@ =~= siding(world.units@, loser));
            despawn(&mut world.units, &mut world.buffs, &doomed);
        }
    }
}

/// The world after cards on their way have come nearer and buffs have run on.
pub open spec fn prepared<S: Scalar>(m: WorldModel<S>) -> WorldModel<S> {
    let b = volleys_spec(m.units, m.volleys);
    let r = landed(
        Ranks { units: b.units, statuses: m.statuses, next_entity: m.next_entity },
        m.ghosts,
    );
    WorldModel {
        units: shaken_all(r.units, r.statuses),
        statuses: aged_all(r.statuses),
        volleys: b.volleys,
        ghosts: waiting(m.ghosts),
        next_entity: r.next_entity,
        ..m
    }
}

/// The world after targets were chosen, attacks made and steps taken.
pub open spec fn fought<S: Scalar>(m: WorldModel<S>) -> WorldModel<S> {
    let snaps = snapshot(m.units);
    let f = attacking_spec(targeting_spec(m.units, m.statuses), m.shots, m.statuses, snaps);
    WorldModel { units: moving_spec(f.units, m.statuses, snaps), shots: f.shots, ..m }
}

/// The world after buildings have aged and sent out troops, and shots have flown.
pub open spec fn worked<S: Scalar>(m: WorldModel<S>) -> WorldModel<S> {
    let doomed = crumbling(m.units);
    let r = spawned(
        Ranks {
            units: survivors(m.units.map_values(|a: Actor<S>| worn(a)), doomed),
            statuses: survivors(m.statuses, doomed),
            next_entity: m.next_entity,
        },
    );
    let f = move_projectiles_spec(r.units, m.shots);
    WorldModel {
        units: f.units,
        statuses: r.statuses,
        shots: f.shots,
        next_entity: r.next_entity,
        ..m
    }
}

/// The units after they have been pushed to where they can stand, by the picture of the tick.
pub open spec fn settled_down<S: Scalar>(
    units: Seq<Actor<S>>,
    snaps: Seq<UnitSnap<S>>,
) -> Seq<Actor<S>> {
    let apart = separate_spec(units, snaps);
    let free = apart.map_values(|a: Actor<S>| unblocked(a, apart));
    free.map_values(|a: Actor<S>| dried(a))
}

/// The world after the fallen are gone, the clock has run and the match was judged.
pub open spec fn concluded<S: Scalar>(m: WorldModel<S>) -> WorldModel<S> {
    let doomed = falling(m.units, m.timer.phase);
    let units = survivors(m.units, doomed);
    let clock = clock_spec(Clock { timer: m.timer, state: m.state }, units);
    judged(
        WorldModel {
            units: units.map_values(|a: Actor<S>| drained(a, m.timer.phase)),
            statuses: survivors(m.statuses, doomed),
            timer: clock.timer,
            state: clock.state,
            ..m
        },
    )
}

/// The world one tick later, given the commands of the tick in their order.
#[verifier::opaque]
pub open spec fn tick_spec<S: Scalar>(m: WorldModel<S>, cmds: Seq<GameCommand<S>>) -> WorldModel<S> {
    let start = prepared(all_commanded(m, cmds, tower_snaps_spec(m.units)));
    let busy = worked(fought(start));
    let over = concluded(
        WorldModel { units: settled_down(busy.units, snapshot(start.units)), ..busy },
    );
    WorldModel {
        elixir: regenerated(over.elixir, &over.timer),
        tick: (over.tick + 1) as u32,
        ..over
    }
}

/// Runs one tick with the given commands, which are in their order, and gives what it counts.
pub fn sim_tick<S: Scalar>(world: &mut World<S>, cmds: &Vec<GameCommand<S>>) -> (tally: Tally)
    requires
        old(world).wf(),
        !(old(world).state is GameOver),
        old(world).tick < u32::MAX,
    ensures
        final(world).wf(),
        final(world)@ == tick_spec(old(world)@, cmds@),
        final(world).tick == old(world).tick + 1,
        tally.of(Faction::Player) == tick_count(old(world)@, cmds@, Faction::Player),
        tally.of(Faction::Enemy) == tick_count(old(world)@, cmds@, Faction::Enemy),
        tally.within(TALLY_BOUND as int),
{
    let ghost m = world@;
    let (blue_plays, red_plays): (usize, usize) = apply_commands(world, cmds);
    let ghost m1 = world@;
    proof {
        commands_keep_course(m, cmds@, tower_snaps_spec(m.units));
    }
    spell_volley_tick(&mut world.units, &mut world.volleys);
    process_deploying(
        &mut world.units,
        &mut world.buffs,
        &mut world.next_entity,
        &mut world.ghosts,
    );
    status_effects(&mut world.units, &mut world.buffs);
    let ghost m2 = world@;
    assert(m2 == prepared(m1));
    let snaps: WorldSnaps<S> = targeting(&mut world.units, &world.buffs);
    attacking(&mut world.units, &mut world.shots, &world.buffs, &snaps);
    moving(&mut world.units, &world.buffs, &snaps);
    let ghost m3 = world@;
    assert(m3 == fought(m2));
    let blue_0: usize = count_troops(&world.units, Faction::Player);
    let red_0: usize = count_troops(&world.units, Faction::Enemy);
    building_lifetime(&mut world.units, &mut world.buffs);
    let blue_1: usize = count_troops(&world.units, Faction::Player);
    let red_1: usize = count_troops(&world.units, Faction::Enemy);
    building_spawner(&mut world.units, &mut world.buffs, &mut world.next_entity);
    move_projectiles(&mut world.units, &mut world.shots);
    let ghost m4 = world@;
    assert(m4 == worked(m3));
    separate_monsters(&mut world.units, &snaps);
    separate_from_statics(&mut world.units);
    keep_out_of_river(&mut world.units);
    let ghost m5 = world@;
    assert(m5 == (WorldModel { units: settled_down(m4.units, snapshot(m2.units)), ..m4 }));
    let blue_2: usize = count_troops(&world.units, Faction::Player);
    let red_2: usize = count_troops(&world.units, Faction::Enemy);
    despawn_dead(&mut world.units, &mut world.buffs, world.timer.phase);
    let ghost fallen = world@.units;
    tick_timer(&mut world.timer, &mut world.state, &mut world.units);
    proof {
        clock_keeps_order(Clock { timer: m5.timer, state: m5.state }, fallen);
    }
    check_game_over(world);
    let ghost m6 = world@;
    assert(m6 == concluded(m5));
    assert(m6.tick == m.tick);
    let blue_3: usize = count_troops(&world.units, Faction::Player);
    let red_3: usize = count_troops(&world.units, Faction::Enemy);
    regen(&mut world.elixir, &world.timer);
    world.tick = world.tick + 1;
    proof {
        reveal(tick_spec);
        reveal(lost_in_tick);
    }
    Tally {
        blue: Score {
            plays: blue_plays as u128,
            losses: fall(blue_0, blue_1) + fall(blue_2, blue_3),
        },
        red: Score {
            plays: red_plays as u128,
            losses: fall(red_0, red_1) + fall(red_2, red_3),
        },
    }
}

/// Commands touch neither the clock nor the state nor the tick.
pub proof fn commands_keep_course<S: Scalar>(
    m: WorldModel<S>,
    cmds: Seq<GameCommand<S>>,
    towers: Seq<TowerSnap<S>>,
)
    ensures
        all_commanded(m, cmds, towers).timer == m.timer,
        all_commanded(m, cmds, towers).state == m.state,
        all_commanded(m, cmds, towers).tick == m.tick,
        all_commanded(m, cmds, towers).log == m.log + cmds.map_values(
            |c: GameCommand<S>| (m.tick, c),
        ),
    decreases cmds.len(),
{
    let f = |c: GameCommand<S>| (m.tick, c);
    if cmds.len() > 0 {
        commands_keep_course(m, cmds.drop_last(), towers);
        assert(m.log + cmds.map_values(f) =~= (m.log + cmds.drop_last().map_values(f)).push(
            (m.tick, cmds.last()),
        ));
    } else {
        assert(m.log + cmds.map_values(f) =~= m.log);
    }
}

/// The world after `n` ticks, or when the match is over if that comes first; `feed` gives the
/// commands of each tick in their order.
pub open spec fn run_ticks<S: Scalar>(
    m: WorldModel<S>,
    feed: spec_fn(u32) -> Seq<GameCommand<S>>,
    n: nat,
) -> WorldModel<S>
    decreases n,
{
    if n == 0 || m.state is GameOver {
        m
    } else {
        run_ticks(tick_spec(m, feed(m.tick)), feed, (n - 1) as nat)
    }
}

/// The commands of each tick that a buffer holds, in their order.
pub open spec fn buffered<S: Scalar>(buffer: CommandBuffer<S>) -> spec_fn(u32) -> Seq<GameCommand<S>> {
    |t: u32| exec_order(at_tick(buffer.local@, t) + at_tick(buffer.remote@, t))
}

/// Two feeds that agree from now on lead to the same world.
pub proof fn lemma_run_agrees<S: Scalar>(
    m: WorldModel<S>,
    a: spec_fn(u32) -> Seq<GameCommand<S>>,
    b: spec_fn(u32) -> Seq<GameCommand<S>>,
    n: nat,
)
    requires
        m.tick + n <= u32::MAX,
        forall|t: u32| m.tick <= t < m.tick + n ==> #[trigger] a(t) == b(t),
    ensures
        run_ticks(m, a, n) == run_ticks(m, b, n),
    decreases n,
{
    if n > 0 && !(m.state is GameOver) {
        assert(a(m.tick) == b(m.tick));
        lemma_tick_counts(m, a(m.tick));
        lemma_run_agrees(tick_spec(m, a(m.tick)), a, b, (n - 1) as nat);
    }
}

/// A tick counts as one, and its commands go to the end of the log.
pub proof fn lemma_tick_counts<S: Scalar>(m: WorldModel<S>, cmds: Seq<GameCommand<S>>)
    requires
        m.tick < u32::MAX,
    ensures
        tick_spec(m, cmds).tick == m.tick + 1,
        tick_spec(m, cmds).log == m.log + cmds.map_values(|c: GameCommand<S>| (m.tick, c)),
{
    reveal(tick_spec);
    commands_keep_course(m, cmds, tower_snaps_spec(m.units));
}

/// Runs up to `n` ticks with the commands of a buffer, and gives what they count; a match that
/// is over does not go on.
pub fn run<S: Scalar>(world: &mut World<S>, buffer: &mut CommandBuffer<S>, n: u32) -> (tally: Tally)
    requires
        old(world).wf(),
        old(world).tick + n <= u32::MAX,
    ensures
        final(world).wf(),
        final(world)@ == run_ticks(old(world)@, buffered(*old(buffer)), n as nat),
        old(world).tick <= final(world).tick <= old(world).tick + n,
        final(world).tick == old(world).tick + n || final(world).state is GameOver,
        forall|f: Faction| #[trigger]
            tally.of(f) == run_count(old(world)@, buffered(*old(buffer)), n as nat, f),
        forall|t: u32|
            t >= final(world).tick ==> #[trigger] at_tick(final(buffer).local@, t) == at_tick(
                old(buffer).local@,
                t,
            ),
        forall|t: u32|
            t >= final(world).tick ==> #[trigger] at_tick(final(buffer).remote@, t) == at_tick(
                old(buffer).remote@,
                t,
            ),
{
    let ghost feed = buffered(*buffer);
    let ghost m = world@;
    let mut tally: Tally = Tally::new();
    let mut k: u32 = 0;
    while k < n
        invariant_except_break
            run_ticks(m, feed, n as nat) == run_ticks(world@, feed, (n - k) as nat),
            forall|f: Faction|
                (#[trigger] tally.of(f)).plus(run_count(world@, feed, (n - k) as nat, f))
                    == run_count(m, feed, n as nat, f),
            world.tick == m.tick + k,
        invariant
            tally.within(k * TALLY_BOUND),
            k <= n,
            m == old(world)@,
            feed == buffered(*old(buffer)),
            world.wf(),
            m.tick <= world.tick <= m.tick + k,
            m.tick + n <= u32::MAX,
            forall|t: u32|
                t >= world.tick ==> #[trigger] at_tick(buffer.local@, t) == at_tick(
                    old(buffer).local@,
                    t,
                ),
            forall|t: u32|
                t >= world.tick ==> #[trigger] at_tick(buffer.remote@, t) == at_tick(
                    old(buffer).remote@,
                    t,
                ),
        ensures
            run_ticks(m, feed, n as nat) == world@,
            forall|f: Faction| #[trigger] tally.of(f) == run_count(m, feed, n as nat, f),
            world.tick == m.tick + n || world.state is GameOver,
        decreases n - k,
    {
        match world.state {
            SimState::GameOver(_) => {
                break;
            },
            _ => {},
        }
        let ghost w = world@;
        let ghost b = *buffer;
        assert(at_tick(b.local@, w.tick) == at_tick(old(buffer).local@, w.tick));
        assert(at_tick(b.remote@, w.tick) == at_tick(old(buffer).remote@, w.tick));
        let cmds: Vec<GameCommand<S>> = take_commands(buffer, world.tick);
        assert(cmds@ == feed(w.tick));
        let ghost so_far = tally;
        let more: Tally = sim_tick(world, &cmds);
        tally = Tally { blue: tally.blue.plus(more.blue), red: tally.red.plus(more.red) };
        k = k + 1;
        assert forall|f: Faction|
            (#[trigger] tally.of(f)).plus(run_count(world@, feed, (n - k) as nat, f)) == run_count(
                m,
                feed,
                n as nat,
                f,
            ) by {
            assert(more.of(f) == tick_count(w, cmds@, f));
            assert(so_far.of(f).plus(run_count(w, feed, (n - k + 1) as nat, f)) == run_count(
                m,
                feed,
                n as nat,
                f,
            ));
        }
        assert forall|t: u32| t >= world.tick implies #[trigger] at_tick(buffer.local@, t) == at_tick(
            old(buffer).local@,
            t,
        ) by {
            assert(at_tick(b.local@, t) == at_tick(old(buffer).local@, t));
        }
        assert forall|t: u32| t >= world.tick implies #[trigger] at_tick(buffer.remote@, t) == at_tick(
            old(buffer).remote@,
            t,
        ) by {
            assert(at_tick(b.remote@, t) == at_tick(old(buffer).remote@, t));
        }
    }
    tally
}

/// Adds a command to those of a tick.
pub fn schedule<S: Scalar>(map: &mut HashMap<u32, Vec<GameCommand<S>>>, tick: u32, cmd: GameCommand<S>)
    ensures
        at_tick(final(map)@, tick) == at_tick(old(map)@, tick).push(cmd),
        forall|t: u32| t != tick ==> #[trigger] at_tick(final(map)@, t) == at_tick(old(map)@, t),
        final(map)@.contains_key(tick),
        forall|t: u32| t != tick ==> #[trigger] final(map)@.contains_key(t) == old(map)@.contains_key(t),
{
    let mut v: Vec<GameCommand<S>> = match map.remove(&tick) {
        Some(v) => v,
        None => Vec::new(),
    };
    assert(v@ =~= at_tick(old(map)@, tick));
    v.push(cmd);
    map.insert(tick, v);
}

/// Whatever the peers call their own and the other's commands, the order is the same, as long
/// as each side gives commands for itself only.
pub proof fn lockstep_order<S: Scalar>(a: Seq<GameCommand<S>>, b: Seq<GameCommand<S>>, f: Faction)
    requires
        forall|i: int| 0 <= i < a.len() ==> (#[trigger] a[i]).faction() == f,
        forall|i: int| 0 <= i < b.len() ==> (#[trigger] b[i]).faction() == f.other(),
    ensures
        exec_order(a + b) == exec_order(b + a),
        f == Faction::Player ==> exec_order(a + b) == a + b,
{
    lemma_of_side_add(a, b, Faction::Player);
    lemma_of_side_add(a, b, Faction::Enemy);
    lemma_of_side_add(b, a, Faction::Player);
    lemma_of_side_add(b, a, Faction::Enemy);
    lemma_of_side_all(a, f);
    lemma_of_side_none(a, f.other());
    lemma_of_side_all(b, f.other());
    lemma_of_side_none(b, f);
    assert(exec_order(a + b) =~= exec_order(b + a));
    if f == Faction::Player {
        assert(exec_order(a + b) =~= a + b);
    }
}

/// The order of commands that are in their order already is their order.
pub proof fn order_is_stable<S: Scalar>(cmds: Seq<GameCommand<S>>)
    ensures
        exec_order(exec_order(cmds)) == exec_order(cmds),
{
    let p = of_side(cmds, Faction::Player);
    let e = of_side(cmds, Faction::Enemy);
    lemma_of_side_members(cmds, Faction::Player);
    lemma_of_side_members(cmds, Faction::Enemy);
    lockstep_order(p, e, Faction::Player);
}

proof fn lemma_of_side_members<S: Scalar>(cmds: Seq<GameCommand<S>>, f: Faction)
    ensures
        forall|i: int| 0 <= i < of_side(cmds, f).len() ==> (#[trigger] of_side(cmds, f)[i]).faction() == f,
    decreases cmds.len(),
{
    if cmds.len() > 0 {
        lemma_of_side_members(cmds.drop_last(), f);
        let rest = of_side(cmds.drop_last(), f);
        assert forall|i: int| 0 <= i < of_side(cmds, f).len() implies (
        #[trigger] of_side(cmds, f)[i]).faction() == f by {
            if i < rest.len() {
                assert(rest[i].faction() == f);
            }
        }
    }
}

pub proof fn lemma_of_side_add<S: Scalar>(a: Seq<GameCommand<S>>, b: Seq<GameCommand<S>>, f: Faction)
    ensures
        of_side(a + b, f) == of_side(a, f) + of_side(b, f),
    decreases b.len(),
{
    if b.len() == 0 {
        assert(a + b =~= a);
        assert(of_side(a + b, f) =~= of_side(a, f) + of_side(b, f));
    } else {
        lemma_of_side_add(a, b.drop_last(), f);
        assert((a + b).drop_last() =~= a + b.drop_last());
        assert(of_side(a + b, f) =~= of_side(a, f) + of_side(b, f));
    }
}

proof fn lemma_of_side_all<S: Scalar>(a: Seq<GameCommand<S>>, f: Faction)
    requires
        forall|i: int| 0 <= i < a.len() ==> (#[trigger] a[i]).faction() == f,
    ensures
        of_side(a, f) == a,
    decreases a.len(),
{
    if a.len() > 0 {
        lemma_of_side_all(a.drop_last(), f);
        assert(a.last() == a[a.len() - 1]);
        assert(of_side(a, f) =~= a);
    } else {
        assert(of_side(a, f) =~= a);
    }
}

proof fn lemma_of_side_none<S: Scalar>(a: Seq<GameCommand<S>>, f: Faction)
    requires
        forall|i: int| 0 <= i < a.len() ==> (#[trigger] a[i]).faction() != f,
    ensures
        of_side(a, f) == Seq::<GameCommand<S>>::empty(),
    decreases a.len(),
{
    if a.len() > 0 {
        lemma_of_side_none(a.drop_last(), f);
        assert(a.last() == a[a.len() - 1]);
    }
}

/// When a match is won, nothing of the loser is left and everything of the winner stays; when it
/// is drawn, everything stays.
pub proof fn losers_are_gone<S: Scalar>(m: WorldModel<S>, a: Actor<S>)
    requires
        can_end(m.state),
    ensures
        judged(m).state == SimState::GameOver(None) ==> judged(m).units == m.units,
        judged(m).state matches SimState::GameOver(Some(w)) ==> {
            &&& judged(m).units.contains(a) ==> m.units.contains(a) && a.unit.faction == w
            &&& m.units.contains(a) && a.unit.faction == w ==> judged(m).units.contains(a)
        },
        !(judged(m).state is GameOver) ==> judged(m) == m,
{
    if let Some(Some(w)) = outcome_spec(m.units, m.timer.phase) {
        let doomed = siding(m.units, w.other());
        let after = survivors(m.units, doomed);
        if after.contains(a) {
            let k = choose|k: int| 0 <= k < after.len() && after[k] == a;
            let j = lemma_survivor_origin(m.units, doomed, k);
            assert(m.units[j] == a);
        }
        if m.units.contains(a) && a.unit.faction == w {
            let j = choose|j: int| 0 <= j < m.units.len() && m.units[j] == a;
            let k = lemma_unmarked_survives(m.units, doomed, j);
            assert(after[k] == a);
        }
    }
}

/// After the fallen are removed, whoever has no health left is a king, or a tower that decides.
pub proof fn the_fallen_are_gone<S: Scalar>(units: Seq<Actor<S>>, phase: MatchPhase, a: Actor<S>)
    requires
        survivors(units, falling(units, phase)).contains(a),
        a.health.gone(),
    ensures
        a.king || a.unit.kind == UnitKind::Tower && sudden_death(phase),
{
    let after = survivors(units, falling(units, phase));
    let k = choose|k: int| 0 <= k < after.len() && after[k] == a;
    let j = lemma_survivor_origin(units, falling(units, phase), k);
    assert(units[j] == a);
}

/// A match that is over stays as it is.
pub proof fn over_is_over<S: Scalar>(
    m: WorldModel<S>,
    feed: spec_fn(u32) -> Seq<GameCommand<S>>,
    n: nat,
)
    requires
        m.state is GameOver,
    ensures
        run_ticks(m, feed, n) == m,
        judged(m) == m,
{
}

} // verus!
