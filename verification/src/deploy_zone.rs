//! The areas that show where a side may put its troops.

use vstd::prelude::*;

use crate::cards::{own_sign, TowerSnap};
use crate::components::Faction;
use crate::constants::{arena_half_depth, princess_z, river_half_width};
use crate::scalar::{one, whole, zero, Scalar};

verus! {

/// The areas.
#[derive(Clone, Copy, PartialEq, Eq, Structural, Debug)]
pub enum ZoneKind {
    /// The own half.
    OwnHalf,
    /// What opens when the enemy's left tower has fallen.
    ExpandLeft,
    /// What opens when the enemy's right tower has fallen.
    ExpandRight,
    /// Where nothing may go.
    EnemyBlocked,
}

/// A rectangle by its middle and its size.
#[derive(Clone, Copy, Debug)]
pub struct Zone<S> {
    pub visible: bool,
    pub x: S,
    pub z: S,
    pub width: S,
    pub depth: S,
}

/// From the river to the edge.
#[verifier::allow_in_spec]
pub fn half_depth<S: Scalar>() -> S
    returns
        arena_half_depth::<S>().minus(river_half_width()),
{
    arena_half_depth::<S>().minus(river_half_width())
}

/// The middle between the river and a line.
#[verifier::allow_in_spec]
pub fn middle<S: Scalar>(sign: S, line: S) -> S
    returns
        sign.times(river_half_width::<S>().plus(line)).over(whole(2)),
{
    sign.times(river_half_width::<S>().plus(line)).over(whole(2))
}

/// Whether the opponent still has a princess tower on the side of this sign.
pub open spec fn princess_alive<S: Scalar>(towers: Seq<TowerSnap<S>>, my: Faction, sign: S) -> bool {
    exists|i: int|
        0 <= i < towers.len() && (#[trigger] towers[i]).faction != my && !towers[i].is_king
            && towers[i].pos.x.sign().same(sign)
}

fn is_princess_alive<S: Scalar>(towers: &Vec<TowerSnap<S>>, my: Faction, sign: S) -> (r: bool)
    ensures
        r == princess_alive(towers@, my, sign),
{
    let n: usize = towers.len();
    let mut i: usize = 0;
    while i < n
        invariant
            n == towers@.len(),
            i <= n,
            forall|j: int|
                0 <= j < i ==> !((#[trigger] towers@[j]).faction != my && !towers@[j].is_king
                    && towers@[j].pos.x.sign().same(sign)),
        decreases n - i,
    {
        if towers[i].faction != my && !towers[i].is_king && towers[i].pos.x.sign().same(sign) {
            assert(towers@[i as int].faction != my);
            return true;
        }
        i += 1;
    }
    false
}

/// An area for someone who plays both sides: both halves are open, the river is not.
pub open spec fn shared_zone<S: Scalar>(kind: ZoneKind) -> Zone<S> {
    let line = river_half_width::<S>().plus(arena_half_depth()).over(whole(2));
    match kind {
        ZoneKind::OwnHalf => Zone {
            visible: true,
            x: zero(),
            z: river_half_width::<S>().plus(arena_half_depth()).negated().over(whole(2)),
            width: whole(16),
            depth: half_depth(),
        },
        ZoneKind::ExpandLeft => Zone {
            visible: true,
            x: whole::<S>(4).negated(),
            z: line,
            width: whole(8),
            depth: half_depth(),
        },
        ZoneKind::ExpandRight => Zone {
            visible: true,
            x: whole(4),
            z: line,
            width: whole(8),
            depth: half_depth(),
        },
        ZoneKind::EnemyBlocked => Zone {
            visible: true,
            x: zero(),
            z: zero(),
            width: whole(18),
            depth: river_half_width::<S>().times(whole(2)),
        },
    }
}

/// An area for a side: its half, the other half, and the flanks whose tower has fallen.
pub open spec fn own_zone<S: Scalar>(kind: ZoneKind, my: Faction, towers: Seq<TowerSnap<S>>) -> Zone<S> {
    let sign = own_sign::<S>(my);
    match kind {
        ZoneKind::OwnHalf => Zone {
            visible: true,
            x: zero(),
            z: middle(sign, arena_half_depth()),
            width: whole(16),
            depth: half_depth(),
        },
        ZoneKind::EnemyBlocked => Zone {
            visible: true,
            x: zero(),
            z: middle(sign.negated(), arena_half_depth()),
            width: whole(16),
            depth: half_depth(),
        },
        ZoneKind::ExpandLeft => Zone {
            visible: !princess_alive(towers, my, one::<S>().negated()),
            x: one::<S>().negated().times(whole(4)),
            z: middle(sign.negated(), princess_z()),
            width: whole(8),
            depth: princess_z::<S>().minus(river_half_width()),
        },
        ZoneKind::ExpandRight => Zone {
            visible: !princess_alive(towers, my, one()),
            x: one::<S>().times(whole(4)),
            z: middle(sign.negated(), princess_z()),
            width: whole(8),
            depth: princess_z::<S>().minus(river_half_width()),
        },
    }
}

/// An area as it is to be shown: to someone who plays both sides, to a side, or to someone who
/// is online without a seat yet, who sees none.
pub fn zone<S: Scalar>(kind: ZoneKind, online: bool, my: Option<Faction>, towers: &Vec<TowerSnap<S>>) -> (r: Option<
    Zone<S>,
>)
    ensures
        r == (if !online {
            Some(shared_zone::<S>(kind))
        } else {
            match my {
                Some(f) => Some(own_zone(kind, f, towers@)),
                None => None,
            }
        }),
{
    if !online {
        let line: S = river_half_width::<S>().plus(arena_half_depth()).over(whole(2));
        return Some(
            match kind {
                ZoneKind::OwnHalf => Zone {
                    visible: true,
                    x: zero(),
                    z: river_half_width::<S>().plus(arena_half_depth()).negated().over(whole(2)),
                    width: whole(16),
                    depth: half_depth(),
                },
                ZoneKind::ExpandLeft => Zone {
                    visible: true,
                    x: whole::<S>(4).negated(),
                    z: line,
                    width: whole(8),
                    depth: half_depth(),
                },
                ZoneKind::ExpandRight => Zone {
                    visible: true,
                    x: whole(4),
                    z: line,
                    width: whole(8),
                    depth: half_depth(),
                },
                ZoneKind::EnemyBlocked => Zone {
                    visible: true,
                    x: zero(),
                    z: zero(),
                    width: whole(18),
                    depth: river_half_width::<S>().times(whole(2)),
                },
            },
        );
    }
    let my: Faction = match my {
        Some(f) => f,
        None => {
            return None;
        },
    };
    let sign: S = own_sign(my);
    Some(
        match kind {
            ZoneKind::OwnHalf => Zone {
                visible: true,
                x: zero(),
                z: middle(sign, arena_half_depth()),
                width: whole(16),
                depth: half_depth(),
            },
            ZoneKind::EnemyBlocked => Zone {
                visible: true,
                x: zero(),
                z: middle(sign.negated(), arena_half_depth()),
                width: whole(16),
                depth: half_depth(),
            },
            ZoneKind::ExpandLeft => Zone {
                visible: !is_princess_alive(towers, my, one::<S>().negated()),
                x: one::<S>().negated().times(whole(4)),
                z: middle(sign.negated(), princess_z()),
                width: whole(8),
                depth: princess_z::<S>().minus(river_half_width()),
            },
            ZoneKind::ExpandRight => Zone {
                visible: !is_princess_alive(towers, my, one()),
                x: one::<S>().times(whole(4)),
                z: middle(sign.negated(), princess_z()),
                width: whole(8),
                depth: princess_z::<S>().minus(river_half_width()),
            },
        },
    )
}

} // verus!
