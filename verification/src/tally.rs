//! What a run counts for each side: cards that were played, and troops that were lost.

use vstd::prelude::*;

use crate::cards::{playable, tower_snaps_spec, TowerSnap};
use crate::combat::targeting::snapshot;
use crate::components::{Actor, Faction, GameCommand, UnitKind};
use crate::roster::survivors;
use crate::scalar::{zero, Scalar};
use crate::sim::{
    all_commanded, concluded, crumbling, fought, prepared, settled_down, tick_spec, worked, worn,
};
use crate::vector::Vec3;
use crate::world::WorldModel;

verus! {

/// Cards that a side has played and troops that it has lost, as a mathematical value.
pub ghost struct Count {
    pub plays: nat,
    pub losses: nat,
}

impl Count {
    /// Nothing yet.
    pub open spec fn none() -> Count {
        Count { plays: 0, losses: 0 }
    }

    /// Both together.
    pub open spec fn plus(self, o: Count) -> Count {
        Count { plays: self.plays + o.plays, losses: self.losses + o.losses }
    }
}

/// Cards that a side has played and troops that it has lost.
#[derive(Clone, Copy, PartialEq, Eq, Structural, Debug)]
pub struct Score {
    pub plays: u128,
    pub losses: u128,
}

impl View for Score {
    type V = Count;

    open spec fn view(&self) -> Count {
        Count { plays: self.plays as nat, losses: self.losses as nat }
    }
}

impl Score {
    /// Both together.
    pub fn plus(self, o: Score) -> (r: Score)
        requires
            self.plays + o.plays <= u128::MAX,
            self.losses + o.losses <= u128::MAX,
        ensures
            r@ == self@.plus(o@),
    {
        Score { plays: self.plays + o.plays, losses: self.losses + o.losses }
    }
}

/// The scores of both sides.
#[derive(Clone, Copy, PartialEq, Eq, Structural, Debug)]
pub struct Tally {
    pub blue: Score,
    pub red: Score,
}

impl Tally {
    /// Nothing yet.
    pub fn new() -> (r: Tally)
        ensures
            r.blue@ == Count::none(),
            r.red@ == Count::none(),
    {
        Tally { blue: Score { plays: 0, losses: 0 }, red: Score { plays: 0, losses: 0 } }
    }

    /// The score of a side.
    pub open spec fn of(self, faction: Faction) -> Count {
        match faction {
            Faction::Player => self.blue@,
            Faction::Enemy => self.red@,
        }
    }

    /// Neither score exceeds a bound.
    pub open spec fn within(self, bound: int) -> bool {
        self.blue.plays <= bound && self.blue.losses <= bound && self.red.plays <= bound
            && self.red.losses <= bound
    }
}

/// Whether a command is carried out: whether its card can be played now.
pub open spec fn takes<S: Scalar>(m: WorldModel<S>, cmd: GameCommand<S>, towers: Seq<TowerSnap<S>>) -> bool {
    match cmd {
        GameCommand::Deploy { faction, card, x, z } => playable(
            m,
            faction,
            card,
            Vec3 { x, y: zero(), z },
            towers,
        ).is_some(),
    }
}

/// How many commands of a side are carried out, each judged when it is its turn.
pub open spec fn accepted<S: Scalar>(
    m: WorldModel<S>,
    cmds: Seq<GameCommand<S>>,
    towers: Seq<TowerSnap<S>>,
    faction: Faction,
) -> nat
    decreases cmds.len(),
{
    if cmds.len() == 0 {
        0
    } else {
        let rest = cmds.drop_last();
        accepted(m, rest, towers, faction) + (if cmds.last().faction() == faction && takes(
            all_commanded(m, rest, towers),
            cmds.last(),
            towers,
        ) {
            1nat
        } else {
            0nat
        })
    }
}

/// How many troops a side has.
pub open spec fn troop_count<S: Scalar>(units: Seq<Actor<S>>, faction: Faction) -> nat
    decreases units.len(),
{
    if units.len() == 0 {
        0
    } else {
        let a = units.last();
        troop_count(units.drop_last(), faction) + (if a.unit.kind == UnitKind::Troop && a.unit.faction
            == faction {
            1nat
        } else {
            0nat
        })
    }
}

/// How many troops a side has.
pub fn count_troops<S: Scalar>(units: &Vec<Actor<S>>, faction: Faction) -> (r: usize)
    ensures
        r == troop_count(units@, faction),
        r <= units@.len(),
{
    let n: usize = units.len();
    let mut r: usize = 0;
    assert(units@.take(0) =~= Seq::<Actor<S>>::empty());
    for i in 0..n
        invariant
            n == units@.len(),
            r <= i,
            r == troop_count(units@.take(i as int), faction),
    {
        assert(units@.take(i + 1).drop_last() =~= units@.take(i as int));
        let a: &Actor<S> = &units[i];
        if a.unit.kind == UnitKind::Troop && a.unit.faction == faction {
            r += 1;
        }
    }
    assert(units@.take(n as int) =~= units@);
    r
}

/// How many troops fewer a side has.
pub open spec fn missing<S: Scalar>(before: Seq<Actor<S>>, after: Seq<Actor<S>>, faction: Faction) -> nat {
    let (a, b) = (troop_count(before, faction), troop_count(after, faction));
    if a > b { (a - b) as nat } else { 0 }
}

/// How many fewer.
pub fn fall(before: usize, after: usize) -> (r: u128)
    ensures
        r == (if before > after { before - after } else { 0 }),
{
    if before > after {
        (before - after) as u128
    } else {
        0
    }
}

/// The units of a world after those whose time is over have crumbled.
pub open spec fn aged_units<S: Scalar>(units: Seq<Actor<S>>) -> Seq<Actor<S>> {
    survivors(units.map_values(|a: Actor<S>| worn(a)), crumbling(units))
}

/// The world of a tick when everyone has fought and stands, before the fallen are removed.
pub open spec fn embattled<S: Scalar>(m: WorldModel<S>, cmds: Seq<GameCommand<S>>) -> WorldModel<S> {
    let start = prepared(all_commanded(m, cmds, tower_snaps_spec(m.units)));
    let busy = worked(fought(start));
    WorldModel { units: settled_down(busy.units, snapshot(start.units)), ..busy }
}

/// How many troops of a side leave the field in a tick: by age, by a blow, or because the match
/// is lost. One that is still on its way is not on the field.
#[verifier::opaque]
pub open spec fn lost_in_tick<S: Scalar>(
    m: WorldModel<S>,
    cmds: Seq<GameCommand<S>>,
    faction: Faction,
) -> nat {
    let units = fought(prepared(all_commanded(m, cmds, tower_snaps_spec(m.units)))).units;
    let end = embattled(m, cmds);
    missing(units, aged_units(units), faction) + missing(end.units, concluded(end).units, faction)
}

/// What a tick counts for a side.
pub open spec fn tick_count<S: Scalar>(
    m: WorldModel<S>,
    cmds: Seq<GameCommand<S>>,
    faction: Faction,
) -> Count {
    Count {
        plays: accepted(m, cmds, tower_snaps_spec(m.units), faction),
        losses: lost_in_tick(m, cmds, faction),
    }
}

/// What a run counts for a side.
pub open spec fn run_count<S: Scalar>(
    m: WorldModel<S>,
    feed: spec_fn(u32) -> Seq<GameCommand<S>>,
    n: nat,
    faction: Faction,
) -> Count
    decreases n,
{
    if n == 0 || m.state is GameOver {
        Count::none()
    } else {
        tick_count(m, feed(m.tick), faction).plus(
            run_count(tick_spec(m, feed(m.tick)), feed, (n - 1) as nat, faction),
        )
    }
}

} // verus!
