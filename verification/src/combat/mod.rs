//! Combat: who sees whom, who strikes whom, who moves where.
//!
//! Each system takes the units of a tick and gives those of the next. Targets, attacks and
//! movement of one tick all look at one picture of the field, taken before any of them.

use vstd::prelude::*;

use crate::components::{Faction, UnitKind};
use crate::scalar::Scalar;
use crate::vector::Vec3;

pub mod attack;
pub mod grid;
pub mod movement;
pub mod nearest;
pub mod physics;
pub mod picture;
pub mod projectile;
pub mod status;
pub mod targeting;

verus! {

/// One unit in the picture of the field.
#[derive(Clone, Copy, Debug)]
pub struct UnitSnap<S> {
    pub entity: u64,
    pub kind: UnitKind,
    pub faction: Faction,
    pub pos: Vec3<S>,
    pub radius: S,
    pub mass: S,
    pub flying: bool,
}

impl<S: Scalar> UnitSnap<S> {
    /// Whether it is a tower or a building.
    #[verifier::allow_in_spec]
    pub fn is_building_kind(&self) -> bool
        returns
            (self.kind != UnitKind::Troop),
    {
        self.kind != UnitKind::Troop
    }
}

/// The distance on the ground between the edges of two discs.
#[verifier::allow_in_spec]
pub fn edge_dist<S: Scalar>(a_pos: Vec3<S>, a_r: S, b_pos: Vec3<S>, b_r: S) -> S
    returns
        a_pos.ground_distance(b_pos).minus(a_r).minus(b_r),
{
    a_pos.ground_distance(b_pos).minus(a_r).minus(b_r)
}

/// Whether an attacker may choose `s`: flyers only if it hits air, troops only if it does not
/// go for structures alone.
#[verifier::allow_in_spec]
pub fn can_target<S: Scalar>(hits_air: bool, building_only: bool, s: &UnitSnap<S>) -> bool
    returns
        ((s.flying ==> hits_air) && (building_only ==> s.is_building_kind())),
{
    if s.flying && !hits_air {
        return false;
    }
    if building_only {
        return s.is_building_kind();
    }
    true
}

} // verus!
