//! Who wins, and when: towers, kings and the clock.

use vstd::prelude::*;

use crate::components::{Actor, Faction, UnitKind};
use crate::fixed::Fixed;
use crate::match_flow::{
    celebrates, clock_spec, drained, elixir_multiplier, fallen_king_from, lemma_fallen_king,
    lost_tower, outcome_spec, tower_count, verdict, Clock, MatchPhase, MatchTimer, SimState,
    Verdict,
};
use crate::roster::{lemma_survivor_origin, lemma_unmarked_survives, survivors};
use crate::scalar::Scalar;
use crate::sim::{falling, judged, siding};
use crate::world::WorldModel;

verus! {

/// A tower of a side without health.
pub open spec fn tower_down<S: Scalar>(a: Actor<S>, side: Faction) -> bool {
    a.unit.kind == UnitKind::Tower && a.unit.faction == side && a.health.current.at_most(S::ratio(0, 1))
}

/// A king without health.
pub open spec fn king_down<S: Scalar>(a: Actor<S>) -> bool {
    a.unit.kind == UnitKind::Tower && a.king && a.health.current.at_most(S::ratio(0, 1))
}

/// After regular time a tower that falls loses the match for its side: if a tower of `loser` is
/// down, none of `winner` and no king, `winner` has won.
pub proof fn fallen_towers_lose<S: Scalar>(
    units: Seq<Actor<S>>,
    phase: MatchPhase,
    winner: Faction,
    loser: Faction,
    i: int,
)
    requires
        winner != loser,
        phase == MatchPhase::Overtime || phase == MatchPhase::Drain,
        0 <= i < units.len(),
        tower_down(units[i], loser),
        forall|j: int| 0 <= j < units.len() ==> !king_down(#[trigger] units[j]) && !tower_down(units[j], winner),
    ensures
        outcome_spec(units, phase) == Some(Some(winner)),
{
    lemma_fallen_king(units, 0);
    assert(lost_tower(units, loser));
}

/// If both sides lose a tower at once after regular time and no king falls, the match is drawn.
pub proof fn towers_lost_together_draw<S: Scalar>(units: Seq<Actor<S>>, phase: MatchPhase, i: int, k: int)
    requires
        phase == MatchPhase::Overtime || phase == MatchPhase::Drain,
        0 <= i < units.len(),
        0 <= k < units.len(),
        tower_down(units[i], Faction::Player),
        tower_down(units[k], Faction::Enemy),
        forall|j: int| 0 <= j < units.len() ==> !king_down(#[trigger] units[j]),
    ensures
        outcome_spec(units, phase) == Some(None::<Faction>),
{
    lemma_fallen_king(units, 0);
}

/// While all towers stand, nothing decides; in regular time nothing but a king does.
pub proof fn standing_towers_decide_nothing<S: Scalar>(units: Seq<Actor<S>>, phase: MatchPhase)
    requires
        forall|j: int| 0 <= j < units.len() ==> !king_down(#[trigger] units[j]),
        phase == MatchPhase::Regular || forall|j: int|
            0 <= j < units.len() ==> !tower_down(#[trigger] units[j], Faction::Player) && !tower_down(
                units[j],
                Faction::Enemy,
            ),
    ensures
        outcome_spec(units, phase).is_none(),
{
    lemma_fallen_king(units, 0);
}

/// The side whose king falls has lost, in every phase and whatever else is down.
pub proof fn fallen_kings_lose<S: Scalar>(
    units: Seq<Actor<S>>,
    phase: MatchPhase,
    winner: Faction,
    loser: Faction,
    i: int,
)
    requires
        winner != loser,
        0 <= i < units.len(),
        king_down(units[i]),
        units[i].unit.faction == loser,
        forall|j: int| 0 <= j < units.len() && king_down(#[trigger] units[j]) ==> units[j].unit.faction == loser,
    ensures
        outcome_spec(units, phase) == Some(Some(winner)),
{
    lemma_fallen_king(units, 0);
    assert(king_down(units[i]));
    assert(fallen_king_from(units, 0).is_some());
}

/// A match that is won is over for the winner, whose units are those that are left; the order of
/// them stays.
pub proof fn winners_stay<S: Scalar>(m: WorldModel<S>, winner: Faction, loser: Faction, i: int)
    requires
        winner != loser,
        m.state == SimState::Solo || m.state == SimState::Playing || m.state == SimState::CatchingUp
            || m.state == SimState::Replaying,
        0 <= i < m.units.len(),
        king_down(m.units[i]) || (m.timer.phase == MatchPhase::Overtime || m.timer.phase
            == MatchPhase::Drain) && tower_down(m.units[i], loser),
        m.units[i].unit.faction == loser,
        forall|j: int|
            0 <= j < m.units.len() ==> !tower_down(#[trigger] m.units[j], winner) && (king_down(m.units[j])
                ==> m.units[j].unit.faction == loser),
    ensures
        judged(m).state == SimState::GameOver(Some(winner)),
        forall|k: int|
            0 <= k < judged(m).units.len() ==> (#[trigger] judged(m).units[k]).unit.faction == winner
                && m.units.contains(judged(m).units[k]),
        forall|j: int|
            0 <= j < m.units.len() && (#[trigger] m.units[j]).unit.faction == winner ==> judged(
                m,
            ).units.contains(m.units[j]),
        judged(m).timer == m.timer,
        judged(m).elixir == m.elixir,
{
    if exists|j: int| 0 <= j < m.units.len() && king_down(#[trigger] m.units[j]) {
        let j = choose|j: int| 0 <= j < m.units.len() && king_down(#[trigger] m.units[j]);
        fallen_kings_lose(m.units, m.timer.phase, winner, loser, j);
    } else {
        fallen_towers_lose(m.units, m.timer.phase, winner, loser, i);
    }
    let doomed = siding(m.units, loser);
    assert(doomed =~= siding(m.units, winner.other()));
    let after = survivors(m.units, doomed);
    assert forall|k: int| 0 <= k < after.len() implies (#[trigger] after[k]).unit.faction == winner
        && m.units.contains(after[k]) by {
        let j = lemma_survivor_origin(m.units, doomed, k);
        assert(m.units[j] == after[k]);
    }
    assert forall|j: int| 0 <= j < m.units.len() && (#[trigger] m.units[j]).unit.faction == winner implies after.contains(
        m.units[j],
    ) by {
        let k = lemma_unmarked_survives(m.units, doomed, j);
        assert(after[k] == m.units[j]);
    }
}

/// Whose towers are counted, and how often: each tower of the side once, nothing else.
pub proof fn towers_are_counted<S: Scalar>(units: Seq<Actor<S>>, side: Faction)
    ensures
        tower_count(units, side) == units.filter(
            |a: Actor<S>| a.unit.kind == UnitKind::Tower && a.unit.faction == side,
        ).len(),
    decreases units.len(),
{
    let p = |a: Actor<S>| a.unit.kind == UnitKind::Tower && a.unit.faction == side;
    reveal(Seq::filter);
    if units.len() > 0 {
        towers_are_counted(units.drop_last(), side);
    }
}

/// When regular time is over, the side with more towers has won.
pub proof fn more_towers_win<S: Scalar>(c: Clock, units: Seq<Actor<S>>, winner: Faction, loser: Faction)
    requires
        winner != loser,
        c.timer.phase == MatchPhase::Regular,
        c.timer.ticks_left == 1,
        units.filter(|a: Actor<S>| a.unit.kind == UnitKind::Tower && a.unit.faction == loser).len()
            < units.filter(
            |a: Actor<S>| a.unit.kind == UnitKind::Tower && a.unit.faction == winner,
        ).len(),
    ensures
        clock_spec(c, units).state == SimState::GameOver(Some(winner)),
{
    towers_are_counted(units, winner);
    towers_are_counted(units, loser);
}

/// A clock `n` ticks on, while both sides keep as many towers.
pub open spec fn clock_after<S: Scalar>(c: Clock, units: Seq<Actor<S>>, n: nat) -> Clock
    decreases n,
{
    if n == 0 {
        c
    } else {
        clock_spec(clock_after(c, units, (n - 1) as nat), units)
    }
}

/// The timetable of a match at thirty ticks to the second: three minutes of regular time, two of
/// overtime, then the drain; elixir comes at single speed for two minutes, at double speed for
/// one, and at triple speed from then on. As long as no side is ahead, the clock ends nothing.
pub proof fn match_timetable<S: Scalar>(state: SimState, units: Seq<Actor<S>>, n: nat)
    requires
        tower_count(units, Faction::Player) == tower_count(units, Faction::Enemy),
    ensures
        ({
            let c = clock_after(Clock { timer: MatchTimer::new(), state }, units, n);
            let (minute, mult) = (30 * 60int, elixir_multiplier(&c.timer));
            &&& c.state == state
            &&& n < 3 * minute <==> c.timer.phase == MatchPhase::Regular
            &&& 3 * minute <= n < 5 * minute <==> c.timer.phase == MatchPhase::Overtime
            &&& n >= 5 * minute <==> c.timer.phase == MatchPhase::Drain
            &&& n < 3 * minute ==> c.timer.ticks_left == 3 * minute - n
            &&& n >= 5 * minute ==> c.timer.ticks_left == 0
            &&& 3 * minute <= n < 5 * minute ==> c.timer.ticks_left == 5 * minute - n
            &&& n < 2 * minute ==> mult == 1
            &&& 2 * minute <= n < 3 * minute ==> mult == 2
            &&& n >= 3 * minute ==> mult == 3
        }),
    decreases n,
{
    if n > 0 {
        match_timetable(state, units, (n - 1) as nat);
    }
}

/// In the drain every tower loses 20 health a tick, and nothing else loses any; before it the
/// clock hurts nobody.
pub proof fn drain_hurts_towers(a: Actor<Fixed>, phase: MatchPhase)
    requires
        a.health.current.raw >= i64::MIN + 20 * 65536,
    ensures
        drained(a, phase) == (Actor { health: drained(a, phase).health, ..a }),
        drained(a, phase).health.max == a.health.max,
        drained(a, phase).health.current.raw == a.health.current.raw - (if phase == MatchPhase::Drain
            && a.unit.kind == UnitKind::Tower {
            20 * 65536int
        } else {
            0
        }),
{
    vstd::arithmetic::div_mod::lemma_div_basics(20int * 65536);
}

/// Who stays on the field when the fallen are removed: everyone with health; of those without, the
/// kings in every phase and the other towers after regular time.
pub proof fn the_fallen_leave<S: Scalar>(units: Seq<Actor<S>>, phase: MatchPhase, i: int)
    requires
        0 <= i < units.len(),
        forall|j: int, k: int|
            0 <= j < k < units.len() ==> (#[trigger] units[j]).entity != (#[trigger] units[k]).entity,
    ensures
        survivors(units, falling(units, phase)).contains(units[i]) == (!units[i].health.current.at_most(
            S::ratio(0, 1),
        ) || units[i].king || units[i].unit.kind == UnitKind::Tower && phase != MatchPhase::Regular),
{
    let doomed = falling(units, phase);
    let after = survivors(units, doomed);
    if after.contains(units[i]) {
        let k = choose|k: int| 0 <= k < after.len() && after[k] == units[i];
        let j = lemma_survivor_origin(units, doomed, k);
        if j < i {
            assert(units[j].entity != units[i].entity);
        } else if i < j {
            assert(units[i].entity != units[j].entity);
        }
        assert(j == i);
    }
    if !doomed[i] {
        let k = lemma_unmarked_survives(units, doomed, i);
        assert(after[k] == units[i]);
    }
}

/// Only the winner is told of a victory, only the loser of a defeat, and a draw both. There is a
/// celebration for the winner, and for who watches a win.
pub proof fn verdicts_are_fair(winner: Option<Faction>, mine: Faction, theirs: Faction)
    requires
        mine != theirs,
    ensures
        (verdict(winner, Some(mine)) == Verdict::Victory) == (winner == Some(mine)),
        (verdict(winner, Some(mine)) == Verdict::Defeat) == (winner == Some(theirs)),
        (verdict(winner, Some(mine)) == Verdict::Draw) == winner.is_none(),
        winner matches Some(w) ==> verdict(winner, None) == Verdict::Wins(w),
        winner.is_none() ==> verdict(winner, None) == Verdict::Draw,
        celebrates(verdict(winner, Some(mine))) == (winner == Some(mine)),
        celebrates(verdict(winner, None)) == winner.is_some(),
{
}

} // verus!
