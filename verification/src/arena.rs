//! The field at the start of a match.

use vstd::prelude::*;

use crate::buffs::{status_models, statuses_wf, BuffModel, Buffs};
use crate::cards::own_sign;
use crate::components::{Actor, Faction};
use crate::constants::{king_tower, princess_tower, princess_x, princess_z, tower_z};
use crate::decks::{dealt, Decks};
use crate::elixir::initial;
use crate::match_flow::{MatchTimer, SimState};
use crate::scalar::{zero, Scalar};
use crate::spawn::{tower, tower_spec};
use crate::vector::Vec3;
use crate::world::{World, WorldModel};

verus! {

/// The towers of one side: the king in the middle, the princesses to its left and right.
pub open spec fn towers_of<S: Scalar>(faction: Faction, first: u64) -> Seq<Actor<S>> {
    let sign = own_sign::<S>(faction);
    seq![
        tower_spec(
            first,
            faction,
            king_tower(),
            Vec3 { x: zero(), y: zero(), z: sign.times(tower_z()) },
        ),
        tower_spec(
            (first + 1) as u64,
            faction,
            princess_tower(),
            Vec3 { x: princess_x::<S>().negated(), y: zero(), z: sign.times(princess_z()) },
        ),
        tower_spec(
            (first + 2) as u64,
            faction,
            princess_tower(),
            Vec3 { x: princess_x(), y: zero(), z: sign.times(princess_z()) },
        ),
    ]
}

/// The world at the start of a match with the decks of a seed.
pub open spec fn opening_spec<S: Scalar>(seed: u32, state: SimState) -> WorldModel<S> {
    WorldModel {
        units: towers_of(Faction::Player, 0) + towers_of(Faction::Enemy, 3),
        statuses: Seq::new(6, |i: int| None::<Seq<BuffModel<S>>>),
        shots: Seq::empty(),
        ghosts: Seq::empty(),
        volleys: Seq::empty(),
        next_entity: 6,
        decks: dealt(seed),
        elixir: initial(),
        timer: MatchTimer::new(),
        state,
        tick: 0,
        log: Seq::empty(),
    }
}

fn push_towers<S: Scalar>(units: &mut Vec<Actor<S>>, faction: Faction, first: u64)
    requires
        first <= 1000,
    ensures
        final(units)@ == old(units)@ + towers_of(faction, first),
{
    let sign: S = own_sign(faction);
    units.push(
        tower(
            first,
            faction,
            &king_tower(),
            Vec3 { x: zero(), y: zero(), z: sign.times(tower_z()) },
        ),
    );
    units.push(
        tower(
            first + 1,
            faction,
            &princess_tower(),
            Vec3 { x: princess_x::<S>().negated(), y: zero(), z: sign.times(princess_z()) },
        ),
    );
    units.push(
        tower(
            first + 2,
            faction,
            &princess_tower(),
            Vec3 { x: princess_x(), y: zero(), z: sign.times(princess_z()) },
        ),
    );
    assert(units@ =~= old(units)@ + towers_of(faction, first));
}

/// The world at the start of a match with the decks of a seed.
pub fn opening<S: Scalar>(seed: u32, state: SimState) -> (w: World<S>)
    ensures
        w.wf(),
        w@ == opening_spec::<S>(seed, state),
{
    let mut units: Vec<Actor<S>> = Vec::new();
    push_towers(&mut units, Faction::Player, 0);
    push_towers(&mut units, Faction::Enemy, 3);
    assert(units@ =~= towers_of(Faction::Player, 0) + towers_of(Faction::Enemy, 3));
    let mut buffs: Vec<Option<Buffs<S>>> = Vec::new();
    let mut i: usize = 0;
    while i < 6
        invariant
            i <= 6,
            buffs@.len() == i,
            forall|j: int| 0 <= j < i ==> (#[trigger] buffs@[j]).is_none(),
        decreases 6 - i,
    {
        buffs.push(None);
        i += 1;
    }
    assert(status_models(buffs@) =~= Seq::new(6, |i: int| None::<Seq<BuffModel<S>>>));
    assert(statuses_wf(buffs@));
    World {
        units,
        buffs,
        shots: Vec::new(),
        ghosts: Vec::new(),
        volleys: Vec::new(),
        next_entity: 6,
        decks: Decks::shuffled_with(seed),
        elixir: initial(),
        timer: MatchTimer::new(),
        state,
        tick: 0,
        log: Vec::new(),
    }
}

} // verus!
