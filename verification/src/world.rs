//! The state of a match.

use vstd::prelude::*;

use crate::buffs::{status_models, statuses_wf, BuffModel, Buffs};
use crate::components::{Actor, Deploying, Elixir, GameCommand, Projectile, SpellVolley};
use crate::decks::{Decks, DecksModel};
use crate::match_flow::{MatchTimer, SimState};
use crate::scalar::Scalar;

verus! {

/// Everything that a tick reads and writes.
pub struct World<S> {
    pub units: Vec<Actor<S>>,
    /// The buffs of each unit, in the order of the units.
    pub buffs: Vec<Option<Buffs<S>>>,
    pub shots: Vec<Projectile<S>>,
    pub ghosts: Vec<Deploying<S>>,
    pub volleys: Vec<SpellVolley<S>>,
    /// What the next unit will be called.
    pub next_entity: u64,
    pub decks: Decks,
    pub elixir: Elixir<S>,
    pub timer: MatchTimer,
    pub state: SimState,
    pub tick: u32,
    /// Every command that was carried out, with its tick.
    pub log: Vec<(u32, GameCommand<S>)>,
}

/// The state of a match as a mathematical value.
pub ghost struct WorldModel<S> {
    pub units: Seq<Actor<S>>,
    pub statuses: Seq<Option<Seq<BuffModel<S>>>>,
    pub shots: Seq<Projectile<S>>,
    pub ghosts: Seq<Deploying<S>>,
    pub volleys: Seq<SpellVolley<S>>,
    pub next_entity: u64,
    pub decks: DecksModel,
    pub elixir: Elixir<S>,
    pub timer: MatchTimer,
    pub state: SimState,
    pub tick: u32,
    pub log: Seq<(u32, GameCommand<S>)>,
}

impl<S: Scalar> View for World<S> {
    type V = WorldModel<S>;

    open spec fn view(&self) -> WorldModel<S> {
        WorldModel {
            units: self.units@,
            statuses: status_models(self.buffs@),
            shots: self.shots@,
            ghosts: self.ghosts@,
            volleys: self.volleys@,
            next_entity: self.next_entity,
            decks: self.decks@,
            elixir: self.elixir,
            timer: self.timer,
            state: self.state,
            tick: self.tick,
            log: self.log@,
        }
    }
}

/// Every card on its way has time left.
pub open spec fn ghosts_wf<S: Scalar>(ghosts: Seq<Deploying<S>>) -> bool {
    forall|i: int| 0 <= i < ghosts.len() ==> (#[trigger] ghosts[i]).ticks_left >= 1
}

/// Every volley has a wave left.
pub open spec fn volleys_wf<S: Scalar>(volleys: Seq<SpellVolley<S>>) -> bool {
    forall|i: int| 0 <= i < volleys.len() ==> (#[trigger] volleys[i]).wf()
}

impl<S: Scalar> WorldModel<S> {
    /// What every tick relies on and keeps.
    pub open spec fn wf(self) -> bool {
        &&& self.statuses.len() == self.units.len()
        &&& ghosts_wf(self.ghosts)
        &&& volleys_wf(self.volleys)
        &&& self.decks.wf()
        &&& (self.timer.wf() || self.state is GameOver)
    }
}

impl<S: Scalar> World<S> {
    /// What every tick relies on and keeps.
    pub open spec fn wf(&self) -> bool {
        &&& self@.wf()
        &&& statuses_wf(self.buffs@)
    }
}

} // verus!
