//! What a click on the field means.

use vstd::prelude::*;

use crate::cards::{deploy_zone_ok, deploy_zone_ok_spec, tower_snaps, tower_snaps_spec, TowerSnap};
use crate::components::{Faction, GameCommand};
use crate::constants::{arena_half_depth, arena_half_width, card, card_spec, CardKind, HAND_SIZE};
use crate::net::takes_input;
use crate::scalar::{clamped, zero, Scalar};
use crate::vector::Vec3;
use crate::world::{World, WorldModel};

verus! {

/// How someone takes part.
#[derive(Clone, Copy, PartialEq, Eq, Structural, Debug)]
pub enum Seating {
    /// Online, in the seat of this number.
    Online(u8),
    /// Against the computer, as blue.
    AgainstBot,
    /// Alone, playing both sides.
    Alone,
}

/// A point moved onto the field.
#[verifier::allow_in_spec]
pub fn onto_field<S: Scalar>(p: Vec3<S>) -> Vec3<S>
    returns
        (Vec3 {
            x: clamped(p.x, arena_half_width::<S>().negated(), arena_half_width()),
            y: p.y,
            z: clamped(p.z, arena_half_depth::<S>().negated(), arena_half_depth()),
        }),
{
    Vec3 {
        x: clamped(p.x, arena_half_width::<S>().negated(), arena_half_width()),
        y: p.y,
        z: clamped(p.z, arena_half_depth::<S>().negated(), arena_half_depth()),
    }
}

/// The side that a click at a point is for: alone, the one whose half it is.
#[verifier::allow_in_spec]
pub fn side_of_click<S: Scalar>(seating: Seating, point: Vec3<S>) -> Option<Faction>
    returns
        (match seating {
            Seating::Online(i) => Faction::from_index(i),
            Seating::AgainstBot => Some(Faction::Player),
            Seating::Alone => if point.z.less(zero()) {
                Some(Faction::Player)
            } else {
                Some(Faction::Enemy)
            },
        }),
{
    match seating {
        Seating::Online(i) => Faction::from_index(i),
        Seating::AgainstBot => Some(Faction::Player),
        Seating::Alone => if point.z.less(zero()) {
            Some(Faction::Player)
        } else {
            Some(Faction::Enemy)
        },
    }
}

/// The card in hand that is selected; the last one for a slot that there is not.
pub open spec fn selected_card<S: Scalar>(m: WorldModel<S>, faction: Faction, slot: usize) -> u8 {
    m.decks.queue(faction)[if slot < HAND_SIZE { slot as int } else { HAND_SIZE - 1 }]
}

/// The command of a click: the selected card at the point, moved onto the field. Without a side,
/// while no input is taken, or where the card may not go, there is none; alone it may go
/// anywhere.
pub open spec fn click_spec<S: Scalar>(
    m: WorldModel<S>,
    seating: Seating,
    slot: usize,
    point: Vec3<S>,
) -> Option<GameCommand<S>> {
    let p = onto_field(point);
    match side_of_click(seating, p) {
        Some(faction) if takes_input(m.state) => {
            let c = selected_card(m, faction, slot);
            if seating == Seating::Alone || (card_spec::<S>(c) matches Some(spec) && deploy_zone_ok_spec(
                spec,
                faction,
                p,
                tower_snaps_spec(m.units),
            )) {
                Some(GameCommand::Deploy { faction, card: c, x: p.x, z: p.z })
            } else {
                None
            }
        },
        _ => None,
    }
}

/// The command of a click.
pub fn gather_input<S: Scalar>(world: &World<S>, seating: Seating, slot: usize, point: Vec3<S>) -> (r: Option<
    GameCommand<S>,
>)
    requires
        world.wf(),
    ensures
        r == click_spec(world@, seating, slot, point),
{
    if !takes_input(world.state) {
        return None;
    }
    let p: Vec3<S> = onto_field(point);
    let faction: Faction = match side_of_click(seating, p) {
        Some(f) => f,
        None => {
            return None;
        },
    };
    let c: u8 = world.decks.queue(faction)[if slot < HAND_SIZE { slot } else { HAND_SIZE - 1 }];
    if seating != Seating::Alone {
        let towers: Vec<TowerSnap<S>> = tower_snaps(&world.units);
        let ok: bool = match card::<S>(c) {
            Some(spec) => deploy_zone_ok(&spec, faction, p, &towers),
            None => false,
        };
        if !ok {
            return None;
        }
    }
    Some(GameCommand::Deploy { faction, card: c, x: p.x, z: p.z })
}

/// The circle that shows the reach of the selected card under the pointer, if it is a spell.
pub open spec fn spell_range_spec<S: Scalar>(
    m: WorldModel<S>,
    seating: Seating,
    slot: usize,
    point: Vec3<S>,
) -> Option<(Vec3<S>, S)> {
    let p = onto_field(point);
    match side_of_click(seating, p) {
        Some(faction) if takes_input(m.state) => match card_spec::<S>(selected_card(m, faction, slot)) {
            Some(spec) => match spec.kind {
                CardKind::Spell(s) => Some((p, s.radius)),
                _ => None,
            },
            None => None,
        },
        _ => None,
    }
}

/// The circle that shows the reach of the selected card under the pointer, if it is a spell.
pub fn spell_range<S: Scalar>(world: &World<S>, seating: Seating, slot: usize, point: Vec3<S>) -> (r: Option<
    (Vec3<S>, S),
>)
    requires
        world.wf(),
    ensures
        r == spell_range_spec(world@, seating, slot, point),
{
    if !takes_input(world.state) {
        return None;
    }
    let p: Vec3<S> = onto_field(point);
    let faction: Faction = match side_of_click(seating, p) {
        Some(f) => f,
        None => {
            return None;
        },
    };
    let c: u8 = world.decks.queue(faction)[if slot < HAND_SIZE { slot } else { HAND_SIZE - 1 }];
    match card::<S>(c) {
        Some(spec) => match spec.kind {
            CardKind::Spell(s) => Some((p, s.radius)),
            _ => None,
        },
        None => None,
    }
}

/// Online and against the computer, a click never gives a command that the rules of the card's
/// zone forbid, and never one for the other side.
pub proof fn clicks_keep_the_rules<S: Scalar>(m: WorldModel<S>, seating: Seating, slot: usize, point: Vec3<S>)
    requires
        seating != Seating::Alone,
    ensures
        click_spec(m, seating, slot, point) matches Some(GameCommand::Deploy { faction, card: c, x, z }) ==> {
            &&& side_of_click(seating, onto_field(point)) == Some(faction)
            &&& card_spec::<S>(c) matches Some(spec) && deploy_zone_ok_spec(
                spec,
                faction,
                onto_field(point),
                tower_snaps_spec(m.units),
            )
        },
{
}

} // verus!
