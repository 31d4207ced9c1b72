//! The course of a match: regular time, overtime, the final drain, and how each can end it.

use vstd::prelude::*;

use crate::components::{Actor, Faction, UnitKind};
use crate::constants::{drain_per_tick, DOUBLE_ELIXIR_TICKS, OVERTIME_TICKS, REGULAR_TICKS};
use crate::scalar::Scalar;

verus! {

/// Where a client stands.
#[derive(Clone, Copy, PartialEq, Eq, Structural, Debug)]
pub enum SimState {
    /// Alone, without a relay.
    Solo,
    /// In a room, waiting for the opponent.
    Waiting,
    /// A match is on.
    Playing,
    /// Back after a lost connection, running through the log.
    CatchingUp,
    /// Playing a recording.
    Replaying,
    /// The match is over, with a winner or drawn.
    GameOver(Option<Faction>),
}

/// The phases of a match.
#[derive(Clone, Copy, PartialEq, Eq, Structural, Debug)]
pub enum MatchPhase {
    /// Three minutes; elixir doubles in the last.
    Regular,
    /// Two minutes with triple elixir; the first tower lost loses.
    Overtime,
    /// All towers lose health until one falls.
    Drain,
}

/// The clock of a match.
#[derive(Clone, Copy, PartialEq, Eq, Structural, Debug)]
pub struct MatchTimer {
    pub phase: MatchPhase,
    pub ticks_left: u32,
}

impl MatchTimer {
    /// The clock at the start.
    #[verifier::allow_in_spec]
    pub fn new() -> MatchTimer
        returns
            (MatchTimer { phase: MatchPhase::Regular, ticks_left: REGULAR_TICKS }),
    {
        MatchTimer { phase: MatchPhase::Regular, ticks_left: REGULAR_TICKS }
    }

    /// A phase with an end has time left.
    pub open spec fn wf(self) -> bool {
        self.phase != MatchPhase::Drain ==> self.ticks_left > 0
    }
}

/// Whether a tower that falls decides the match.
#[verifier::allow_in_spec]
pub fn sudden_death(phase: MatchPhase) -> bool
    returns
        (phase != MatchPhase::Regular),
{
    phase != MatchPhase::Regular
}

/// How fast elixir comes: double in the last minute, triple after regular time.
#[verifier::allow_in_spec]
pub fn elixir_multiplier(timer: &MatchTimer) -> i64
    returns
        (match timer.phase {
            MatchPhase::Regular => if timer.ticks_left <= DOUBLE_ELIXIR_TICKS { 2i64 } else { 1i64 },
            MatchPhase::Overtime => 3i64,
            MatchPhase::Drain => 3i64,
        }),
{
    match timer.phase {
        MatchPhase::Regular => if timer.ticks_left <= DOUBLE_ELIXIR_TICKS {
            2i64
        } else {
            1i64
        },
        MatchPhase::Overtime => 3i64,
        MatchPhase::Drain => 3i64,
    }
}

/// How many towers a side has.
pub open spec fn tower_count<S: Scalar>(units: Seq<Actor<S>>, faction: Faction) -> nat
    decreases units.len(),
{
    if units.len() == 0 {
        0
    } else {
        let rest = tower_count(units.drop_last(), faction);
        let a = units.last();
        if a.unit.kind == UnitKind::Tower && a.unit.faction == faction { rest + 1 } else { rest }
    }
}

/// How many towers a side has.
pub fn count_towers<S: Scalar>(units: &Vec<Actor<S>>, faction: Faction) -> (r: usize)
    ensures
        r == tower_count(units@, faction),
{
    let n: usize = units.len();
    let mut r: usize = 0;
    assert(units@.take(0) =~= Seq::<Actor<S>>::empty());
    for i in 0..n
        invariant
            n == units@.len(),
            r <= i,
            r == tower_count(units@.take(i as int), faction),
    {
        assert(units@.take(i + 1).drop_last() =~= units@.take(i as int));
        if units[i].unit.kind == UnitKind::Tower && units[i].unit.faction == faction {
            r += 1;
        }
    }
    assert(units@.take(n as int) =~= units@);
    r
}

/// Clock and state.
#[derive(Clone, Copy, PartialEq, Eq, Structural, Debug)]
pub struct Clock {
    pub timer: MatchTimer,
    pub state: SimState,
}

/// Clock and state one tick later. At the end of regular time the side with more towers wins;
/// with as many the match goes into overtime, and from there into the drain.
pub open spec fn clock_spec<S: Scalar>(c: Clock, units: Seq<Actor<S>>) -> Clock {
    let left = (c.timer.ticks_left - 1) as u32;
    match c.timer.phase {
        MatchPhase::Drain => c,
        MatchPhase::Overtime => Clock {
            timer: if left == 0 {
                MatchTimer { phase: MatchPhase::Drain, ticks_left: 0 }
            } else {
                MatchTimer { ticks_left: left, ..c.timer }
            },
            ..c
        },
        MatchPhase::Regular => {
            let (p, e) = (tower_count(units, Faction::Player), tower_count(units, Faction::Enemy));
            if left > 0 {
                Clock { timer: MatchTimer { ticks_left: left, ..c.timer }, ..c }
            } else if p != e {
                Clock {
                    timer: MatchTimer { ticks_left: 0, ..c.timer },
                    state: SimState::GameOver(
                        Some(if p > e { Faction::Player } else { Faction::Enemy }),
                    ),
                }
            } else {
                Clock {
                    timer: MatchTimer { phase: MatchPhase::Overtime, ticks_left: OVERTIME_TICKS },
                    ..c
                }
            }
        },
    }
}

/// A unit one tick later as far as the clock is concerned.
#[verifier::allow_in_spec]
pub fn drained<S: Scalar>(a: Actor<S>, phase: MatchPhase) -> Actor<S>
    returns
        (if phase == MatchPhase::Drain && a.unit.kind == UnitKind::Tower {
            a.hurt(drain_per_tick())
        } else {
            a
        }),
{
    if phase == MatchPhase::Drain && a.unit.kind == UnitKind::Tower {
        a.hurt(drain_per_tick())
    } else {
        a
    }
}

/// Lets the clock run for one tick; in the drain every tower loses health.
pub fn tick_timer<S: Scalar>(timer: &mut MatchTimer, state: &mut SimState, units: &mut Vec<Actor<S>>)
    requires
        old(timer).wf(),
    ensures
        (Clock { timer: *final(timer), state: *final(state) }) == clock_spec(
            Clock { timer: *old(timer), state: *old(state) },
            old(units)@,
        ),
        final(units)@ == old(units)@.map_values(|a: Actor<S>| drained(a, old(timer).phase)),
{
    let ghost before = units@;
    let phase: MatchPhase = timer.phase;
    match phase {
        MatchPhase::Regular => {
            timer.ticks_left = timer.ticks_left - 1;
            if timer.ticks_left == 0 {
                let player: usize = count_towers(units, Faction::Player);
                let enemy: usize = count_towers(units, Faction::Enemy);
                if player != enemy {
                    let winner: Faction = if player > enemy { Faction::Player } else { Faction::Enemy };
                    *state = SimState::GameOver(Some(winner));
                } else {
                    timer.phase = MatchPhase::Overtime;
                    timer.ticks_left = OVERTIME_TICKS;
                }
            }
        },
        MatchPhase::Overtime => {
            timer.ticks_left = timer.ticks_left - 1;
            if timer.ticks_left == 0 {
                timer.phase = MatchPhase::Drain;
            }
        },
        MatchPhase::Drain => {
            let n: usize = units.len();
            for i in 0..n
                invariant
                    n == before.len(),
                    n == units@.len(),
                    phase == MatchPhase::Drain,
                    forall|j: int| i <= j < n ==> units@[j] == before[j],
                    forall|j: int| 0 <= j < i ==> units@[j] == drained(before[j], phase),
            {
                let a: Actor<S> = units[i];
                units[i] = drained(a, phase);
            }
        },
    }
    assert(units@ =~= before.map_values(|a: Actor<S>| drained(a, phase)));
}

/// Whether some tower of a side is down.
pub open spec fn lost_tower<S: Scalar>(units: Seq<Actor<S>>, faction: Faction) -> bool {
    exists|i: int|
        0 <= i < units.len() && (#[trigger] units[i]).unit.kind == UnitKind::Tower
            && units[i].unit.faction == faction && units[i].health.gone()
}

/// The place of the first king that is down, counted from `from`.
pub open spec fn fallen_king_from<S: Scalar>(units: Seq<Actor<S>>, from: int) -> Option<int>
    decreases units.len() - from,
{
    if from >= units.len() {
        None
    } else if units[from].unit.kind == UnitKind::Tower && units[from].king && units[from].health.gone() {
        Some(from)
    } else {
        fallen_king_from(units, from + 1)
    }
}

/// How the match has ended, if it has: the fall of a king decides at any time, that of any
/// tower after regular time, and if both sides lose one at once the match is drawn.
pub open spec fn outcome_spec<S: Scalar>(units: Seq<Actor<S>>, phase: MatchPhase) -> Option<Option<Faction>> {
    match fallen_king_from(units, 0) {
        Some(i) => Some(Some(units[i].unit.faction.other())),
        None => if !sudden_death(phase) {
            None
        } else {
            match (lost_tower(units, Faction::Player), lost_tower(units, Faction::Enemy)) {
                (true, true) => Some(None),
                (true, false) => Some(Some(Faction::Enemy)),
                (false, true) => Some(Some(Faction::Player)),
                (false, false) => None,
            }
        },
    }
}

fn has_lost_tower<S: Scalar>(units: &Vec<Actor<S>>, faction: Faction) -> (r: bool)
    ensures
        r == lost_tower(units@, faction),
{
    let n: usize = units.len();
    let mut i: usize = 0;
    while i < n
        invariant
            n == units@.len(),
            i <= n,
            forall|j: int|
                0 <= j < i ==> !((#[trigger] units@[j]).unit.kind == UnitKind::Tower
                    && units@[j].unit.faction == faction && units@[j].health.gone()),
        decreases n - i,
    {
        if units[i].unit.kind == UnitKind::Tower && units[i].unit.faction == faction
            && units[i].health.gone() {
            assert(units@[i as int].unit.kind == UnitKind::Tower);
            return true;
        }
        i += 1;
    }
    false
}

/// How the match has ended, if it has.
pub fn outcome<S: Scalar>(units: &Vec<Actor<S>>, phase: MatchPhase) -> (r: Option<Option<Faction>>)
    ensures
        r == outcome_spec(units@, phase),
{
    let n: usize = units.len();
    let mut i: usize = 0;
    while i < n
        invariant
            n == units@.len(),
            i <= n,
            fallen_king_from(units@, 0) == fallen_king_from(units@, i as int),
        decreases n - i,
    {
        if units[i].unit.kind == UnitKind::Tower && units[i].king && units[i].health.gone() {
            return Some(Some(units[i].unit.faction.other()));
        }
        i += 1;
    }
    if !sudden_death(phase) {
        return None;
    }
    match (has_lost_tower(units, Faction::Player), has_lost_tower(units, Faction::Enemy)) {
        (true, true) => Some(None),
        (true, false) => Some(Some(Faction::Enemy)),
        (false, true) => Some(Some(Faction::Player)),
        (false, false) => None,
    }
}

/// Whether a state is one in which the simulation runs and a match can end.
#[verifier::allow_in_spec]
pub fn can_end(state: SimState) -> bool
    returns
        (state == SimState::Solo || state == SimState::Playing || state == SimState::CatchingUp || state
            == SimState::Replaying),
{
    match state {
        SimState::Solo => true,
        SimState::Playing => true,
        SimState::CatchingUp => true,
        SimState::Replaying => true,
        _ => false,
    }
}

/// What the result screen says, and whether there are fireworks.
#[derive(Clone, Copy, PartialEq, Eq, Structural, Debug)]
pub enum Verdict {
    Draw,
    Victory,
    Defeat,
    /// Without a side of one's own the winner is named.
    Wins(Faction),
}

/// What the result screen says to someone on side `my`.
#[verifier::allow_in_spec]
pub fn verdict(winner: Option<Faction>, my: Option<Faction>) -> Verdict
    returns
        (match (winner, my) {
            (None, _) => Verdict::Draw,
            (Some(w), Some(m)) => if w == m { Verdict::Victory } else { Verdict::Defeat },
            (Some(w), None) => Verdict::Wins(w),
        }),
{
    match (winner, my) {
        (None, _) => Verdict::Draw,
        (Some(w), Some(m)) => if w == m {
            Verdict::Victory
        } else {
            Verdict::Defeat
        },
        (Some(w), None) => Verdict::Wins(w),
    }
}

/// Whether the result screen celebrates.
#[verifier::allow_in_spec]
pub fn celebrates(v: Verdict) -> bool
    returns
        (v != Verdict::Draw && v != Verdict::Defeat),
{
    match v {
        Verdict::Draw => false,
        Verdict::Defeat => false,
        _ => true,
    }
}

/// What the clock shows: minutes and seconds of the whole seconds left; nothing in the drain.
pub fn countdown(timer: &MatchTimer) -> (r: Option<(u32, u32)>)
    ensures
        r == (if timer.phase == MatchPhase::Drain {
            None
        } else {
            Some(
                (
                    ((timer.ticks_left / 30) / 60) as u32,
                    ((timer.ticks_left / 30) % 60) as u32,
                ),
            )
        }),
{
    match timer.phase {
        MatchPhase::Drain => None,
        _ => {
            let secs: u32 = timer.ticks_left / 30;
            Some((secs / 60, secs % 60))
        },
    }
}

/// The fall of a king decides a match in every phase, for the other side.
pub proof fn king_decides<S: Scalar>(units: Seq<Actor<S>>, phase: MatchPhase, i: int)
    requires
        0 <= i < units.len(),
        units[i].unit.kind == UnitKind::Tower,
        units[i].king,
        units[i].health.gone(),
        forall|j: int|
            0 <= j < units.len() && (#[trigger] units[j]).king && units[j].unit.kind == UnitKind::Tower
                && units[j].health.gone() ==> units[j].unit.faction == units[i].unit.faction,
    ensures
        outcome_spec(units, phase) == Some(Some(units[i].unit.faction.other())),
{
    lemma_fallen_king(units, 0);
}

pub proof fn lemma_fallen_king<S: Scalar>(units: Seq<Actor<S>>, from: int)
    requires
        0 <= from,
    ensures
        match fallen_king_from(units, from) {
            Some(i) => from <= i < units.len() && units[i].king && units[i].unit.kind == UnitKind::Tower
                && units[i].health.gone(),
            None => forall|j: int|
                from <= j < units.len() ==> !((#[trigger] units[j]).king && units[j].unit.kind
                    == UnitKind::Tower && units[j].health.gone()),
        },
    decreases units.len() - from,
{
    if from < units.len() {
        lemma_fallen_king(units, from + 1);
    }
}

/// In regular time nothing but the fall of a king ends a match before the time is over.
pub proof fn regular_time_goes_on<S: Scalar>(units: Seq<Actor<S>>, c: Clock)
    requires
        c.timer.phase == MatchPhase::Regular,
        c.timer.ticks_left > 1,
        forall|j: int|
            0 <= j < units.len() ==> !((#[trigger] units[j]).king && units[j].unit.kind
                == UnitKind::Tower && units[j].health.gone()),
    ensures
        outcome_spec(units, c.timer.phase).is_none(),
        clock_spec(c, units).state == c.state,
        clock_spec(c, units).timer == (MatchTimer {
            phase: MatchPhase::Regular,
            ticks_left: (c.timer.ticks_left - 1) as u32,
        }),
{
    lemma_fallen_king(units, 0);
}

/// After regular time any tower that falls decides.
pub proof fn first_tower_decides<S: Scalar>(units: Seq<Actor<S>>, phase: MatchPhase, i: int)
    requires
        phase != MatchPhase::Regular,
        0 <= i < units.len(),
        units[i].unit.kind == UnitKind::Tower,
        units[i].health.gone(),
    ensures
        outcome_spec(units, phase).is_some(),
        outcome_spec(units, phase) == Some(None::<Faction>) ==> lost_tower(units, Faction::Player)
            && lost_tower(units, Faction::Enemy),
{
    assert(lost_tower(units, units[i].unit.faction));
}

/// A running match keeps its clock in order until it is over.
pub proof fn clock_keeps_order<S: Scalar>(c: Clock, units: Seq<Actor<S>>)
    requires
        c.timer.wf(),
    ensures
        clock_spec(c, units).timer.wf() || clock_spec(c, units).state is GameOver,
{
}

/// The multiplier never falls as the match goes on.
pub proof fn elixir_only_speeds_up<S: Scalar>(c: Clock, units: Seq<Actor<S>>)
    requires
        c.timer.wf(),
    ensures
        elixir_multiplier(&c.timer) <= elixir_multiplier(&clock_spec(c, units).timer),
        1 <= elixir_multiplier(&c.timer) <= 3,
{
}

} // verus!
