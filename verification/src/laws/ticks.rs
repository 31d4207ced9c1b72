//! What a tick comes to: in which order commands act, what an idle tick leaves alone, and where
//! bodies may stand when it is over.

use vstd::prelude::*;

use crate::buffs::BuffModel;
use crate::cards::{play_card_spec, playable, tower_snaps_spec, TowerSnap};
use crate::combat::{physics, UnitSnap};
use crate::combat::attack::attacking_spec;
use crate::combat::movement::moving_spec;
use crate::combat::physics::{ashore_is_stable, on_bridge};
use crate::combat::projectile::move_projectiles_spec;
use crate::combat::status::{aged, shaken};
use crate::combat::targeting::{snapshot, targeting_spec};
use crate::components::{Actor, Faction, GameCommand, UnitKind};
use crate::elixir::regenerated;
use crate::match_flow::{clock_spec, drained, Clock};
use crate::roster::survivors;
use crate::scalar::{zero, Scalar};
use crate::sim::{
    all_commanded, crumbling, exec_order, falling, judged, of_side, run_ticks, settled_down, tick_spec, worn,
};
use crate::spawn::{landed, spawned, waiting, Ranks};
use crate::tally::{accepted, missing, run_count, tick_count, troop_count};
use crate::vector::Vec3;
use crate::volley::volleys_spec;
use crate::world::WorldModel;

verus! {

proof fn lemma_of_side<S: Scalar>(cmds: Seq<GameCommand<S>>, side: Faction)
    ensures
        of_side(cmds, side) == cmds.filter(|c: GameCommand<S>| c->faction == side),
    decreases cmds.len(),
{
    reveal(Seq::filter);
    if cmds.len() > 0 {
        lemma_of_side(cmds.drop_last(), side);
    }
}

/// The commands of a tick are carried out blue before red, those of a side in the order in which it
/// gave them; none is lost and none comes twice.
pub proof fn blue_goes_first<S: Scalar>(cmds: Seq<GameCommand<S>>)
    ensures
        exec_order(cmds) == cmds.filter(|c: GameCommand<S>| c->faction == Faction::Player) + cmds.filter(
            |c: GameCommand<S>| c->faction == Faction::Enemy,
        ),
        exec_order(cmds).len() == cmds.len(),
{
    lemma_of_side(cmds, Faction::Player);
    lemma_of_side(cmds, Faction::Enemy);
    lemma_sides(cmds);
}

proof fn lemma_sides<S: Scalar>(cmds: Seq<GameCommand<S>>)
    ensures
        of_side(cmds, Faction::Player).len() + of_side(cmds, Faction::Enemy).len() == cmds.len(),
    decreases cmds.len(),
{
    if cmds.len() > 0 {
        lemma_sides(cmds.drop_last());
    }
}

/// Commands act one after the other: each goes to the log under the number of the tick, and then
/// its card is played on the ground where it says, by the rules for what the earlier ones have left.
pub proof fn commands_act_in_turn<S: Scalar>(
    m: WorldModel<S>,
    cmds: Seq<GameCommand<S>>,
    cmd: GameCommand<S>,
    towers: Seq<TowerSnap<S>>,
)
    ensures
        ({
            let before = all_commanded(m, cmds, towers);
            &&& all_commanded(m, Seq::empty(), towers) == m
            &&& all_commanded(m, cmds.push(cmd), towers) == play_card_spec(
                WorldModel { log: before.log.push((before.tick, cmd)), ..before },
                cmd->faction,
                cmd->card,
                Vec3 { x: cmd->x, y: zero(), z: cmd->z },
                towers,
            )
        }),
{
    assert(cmds.push(cmd).drop_last() =~= cmds);
}

/// A side is credited with those of its commands that can be carried out when it is their turn.
pub proof fn plays_are_credited<S: Scalar>(
    m: WorldModel<S>,
    cmds: Seq<GameCommand<S>>,
    cmd: GameCommand<S>,
    towers: Seq<TowerSnap<S>>,
    side: Faction,
)
    ensures
        ({
            let fits = playable(
                all_commanded(m, cmds, towers),
                cmd->faction,
                cmd->card,
                Vec3 { x: cmd->x, y: zero(), z: cmd->z },
                towers,
            ).is_some();
            &&& accepted(m, Seq::empty(), towers, side) == 0
            &&& cmd->faction == side && fits ==> accepted(m, cmds.push(cmd), towers, side) == accepted(
                m,
                cmds,
                towers,
                side,
            ) + 1
            &&& cmd->faction != side || !fits ==> accepted(m, cmds.push(cmd), towers, side) == accepted(
                m,
                cmds,
                towers,
                side,
            )
        }),
{
    assert(cmds.push(cmd).drop_last() =~= cmds);
}

/// The troops of a side are its units that are neither towers nor buildings.
pub proof fn troops_are_counted<S: Scalar>(units: Seq<Actor<S>>, side: Faction)
    ensures
        troop_count(units, side) == units.filter(
            |a: Actor<S>| a.unit.kind == UnitKind::Troop && a.unit.faction == side,
        ).len(),
    decreases units.len(),
{
    reveal(Seq::filter);
    if units.len() > 0 {
        troops_are_counted(units.drop_last(), side);
    }
}

/// A tick without commands leaves hands and log alone; cards on their way come a tick nearer, both
/// sides gain elixir at the same rate, and the count of ticks grows by one.
pub proof fn idle_ticks_only_run_on<S: Scalar>(m: WorldModel<S>)
    requires
        m.tick < u32::MAX,
    ensures
        ({
            let after = tick_spec(m, Seq::empty());
            &&& after.decks == m.decks
            &&& after.log == m.log
            &&& after.ghosts == waiting(m.ghosts)
            &&& after.elixir == regenerated(m.elixir, &after.timer)
            &&& after.tick == m.tick + 1
        }),
{
    reveal(tick_spec);
}

/// Runs consist of ticks: one tick more is one tick after the first, with the commands that are due
/// at its number; a match that is over does not go on.
pub proof fn runs_consist_of_ticks<S: Scalar>(m: WorldModel<S>, feed: spec_fn(u32) -> Seq<GameCommand<S>>, n: nat)
    ensures
        run_ticks(m, feed, 0) == m,
        m.state is GameOver ==> run_ticks(m, feed, n) == m,
        !(m.state is GameOver) ==> run_ticks(m, feed, n + 1) == run_ticks(tick_spec(m, feed(m.tick)), feed, n),
{
}

/// When a tick is over, no troop on the ground stands in the river: it is on a bridge, or at least
/// one and a quarter away from the middle line.
pub proof fn nobody_is_left_in_the_river<S: Scalar>(units: Seq<Actor<S>>, snaps: Seq<UnitSnap<S>>, i: int)
    requires
        0 <= i < units.len(),
        units[i].unit.kind == UnitKind::Troop,
        !units[i].flying,
    ensures
        ({
            let a = settled_down(units, snaps)[i];
            &&& settled_down(units, snaps).len() == units.len()
            &&& on_bridge(a.pos.x) || !a.pos.z.magnitude().less(S::ratio(125, 100))
            &&& a == (Actor { pos: a.pos, ..units[i] })
        }),
{
    let apart = physics::separate_spec(units, snaps);
    let free = apart.map_values(|a: Actor<S>| physics::unblocked(a, apart));
    ashore_is_stable(free[i].pos);
}

/// Flyers and structures stand where they stood.
pub proof fn flyers_and_structures_stay_put<S: Scalar>(units: Seq<Actor<S>>, snaps: Seq<UnitSnap<S>>, i: int)
    requires
        0 <= i < units.len(),
        units[i].unit.kind != UnitKind::Troop || units[i].flying,
    ensures
        settled_down(units, snaps)[i] == units[i],
{
}

/// The towers that the rules for cards go by are those on the field, with their side, their kind and their
/// place, in their order; nothing else is one.
pub proof fn towers_are_seen<S: Scalar>(units: Seq<Actor<S>>, a: Actor<S>)
    ensures
        tower_snaps_spec(Seq::<Actor<S>>::empty()).len() == 0,
        a.unit.kind == UnitKind::Tower ==> tower_snaps_spec(units.push(a)) == tower_snaps_spec(units).push(
            TowerSnap { faction: a.unit.faction, is_king: a.king, pos: a.pos },
        ),
        a.unit.kind != UnitKind::Tower ==> tower_snaps_spec(units.push(a)) == tower_snaps_spec(units),
{
    assert(units.push(a).drop_last() =~= units);
}

/// A side has lost as many troops as it has fewer than before; more of them are no loss.
pub proof fn losses_are_what_is_missing<S: Scalar>(before: Seq<Actor<S>>, after: Seq<Actor<S>>, side: Faction)
    ensures
        ({
            let f = |a: Actor<S>| a.unit.kind == UnitKind::Troop && a.unit.faction == side;
            let (x, y) = (before.filter(f).len(), after.filter(f).len());
            &&& x >= y ==> missing(before, after, side) == x - y
            &&& x < y ==> missing(before, after, side) == 0
        }),
{
    troops_are_counted(before, side);
    troops_are_counted(after, side);
}

/// Runs count what their ticks count, tick by tick; a match that is over counts nothing.
pub proof fn runs_count_every_tick<S: Scalar>(
    m: WorldModel<S>,
    feed: spec_fn(u32) -> Seq<GameCommand<S>>,
    n: nat,
    side: Faction,
)
    ensures
        ({
            let (one, rest, all) = (tick_count(m, feed(m.tick), side), run_count(
                tick_spec(m, feed(m.tick)),
                feed,
                n,
                side,
            ), run_count(m, feed, n + 1, side));
            &&& run_count(m, feed, 0, side).plays == 0 && run_count(m, feed, 0, side).losses == 0
            &&& m.state is GameOver ==> all.plays == 0 && all.losses == 0
            &&& !(m.state is GameOver) ==> all.plays == one.plays + rest.plays && all.losses == one.losses + rest.losses
            &&& one.plays == accepted(m, feed(m.tick), tower_snaps_spec(m.units), side)
        }),
{
}

/// The course of a tick. First the commands; then volleys rain, cards land, and stuns end charges before
/// buffs age. Of what stands then a picture is taken: by it targets are chosen, attacks made and
/// steps taken, in this order. Buildings age and crumble, those that are left send out troops, and
/// the shots fly, those of this tick among them. The crowd is pushed apart by the same picture.
/// The fallen leave; towers are drained and the clock runs by what is left; the match is judged, and
/// last both sides gain elixir.
pub proof fn ticks_take_their_course<S: Scalar>(m: WorldModel<S>, cmds: Seq<GameCommand<S>>)
    ensures
        ({
            let c = all_commanded(m, cmds, tower_snaps_spec(m.units));
            let b = volleys_spec(c.units, c.volleys);
            let r = landed(Ranks { units: b.units, statuses: c.statuses, next_entity: c.next_entity }, c.ghosts);
            let units = Seq::new(r.units.len(), |i: int| shaken(r.units[i], r.statuses[i]));
            let buffs = r.statuses.map_values(|s: Option<Seq<BuffModel<S>>>| aged(s));
            let picture = snapshot(units);
            let f = attacking_spec(targeting_spec(units, buffs), c.shots, buffs, picture);
            let moved = moving_spec(f.units, buffs, picture);
            let old = crumbling(moved);
            let s = spawned(
                Ranks {
                    units: survivors(moved.map_values(|a: Actor<S>| worn(a)), old),
                    statuses: survivors(buffs, old),
                    next_entity: r.next_entity,
                },
            );
            let flown = move_projectiles_spec(s.units, f.shots);
            let stood = settled_down(flown.units, picture);
            let left = survivors(stood, falling(stood, c.timer.phase));
            let clock = clock_spec(Clock { timer: c.timer, state: c.state }, left);
            let end = judged(
                WorldModel {
                    units: left.map_values(|a: Actor<S>| drained(a, c.timer.phase)),
                    statuses: survivors(s.statuses, falling(stood, c.timer.phase)),
                    shots: flown.shots,
                    volleys: b.volleys,
                    ghosts: waiting(c.ghosts),
                    next_entity: s.next_entity,
                    timer: clock.timer,
                    state: clock.state,
                    ..c
                },
            );
            tick_spec(m, cmds) == (WorldModel {
                elixir: regenerated(end.elixir, &end.timer),
                tick: (end.tick + 1) as u32,
                ..end
            })
        }),
{
    reveal(tick_spec);
}

} // verus!
