//! What units are made of, and the state that a match carries besides them.

use std::collections::HashMap;
use vstd::prelude::*;

use crate::scalar::{one, zero, Scalar};
use crate::vector::Vec3;

verus! {

/// The two sides.
#[derive(Clone, Copy, PartialEq, Eq, Structural, Debug)]
pub enum Faction {
    Player,
    Enemy,
}

impl Faction {
    /// The side of a seat number: 0 is blue, 1 is red, there are no others.
    #[verifier::allow_in_spec]
    pub fn from_index(index: u8) -> Option<Faction>
        returns
            (match index {
                0 => Some(Faction::Player),
                1 => Some(Faction::Enemy),
                _ => None,
            }),
    {
        match index {
            0 => Some(Faction::Player),
            1 => Some(Faction::Enemy),
            _ => None,
        }
    }

    /// The seat number, by which commands of one tick are ordered.
    #[verifier::allow_in_spec]
    pub fn index(self) -> u8
        returns
            (match self {
                Faction::Player => 0u8,
                Faction::Enemy => 1u8,
            }),
    {
        match self {
            Faction::Player => 0u8,
            Faction::Enemy => 1u8,
        }
    }

    /// The opponent.
    #[verifier::allow_in_spec]
    pub fn other(self) -> Faction
        returns
            (match self {
                Faction::Player => Faction::Enemy,
                Faction::Enemy => Faction::Player,
            }),
    {
        match self {
            Faction::Player => Faction::Enemy,
            Faction::Enemy => Faction::Player,
        }
    }
}

/// Seat numbers and sides correspond one to one.
pub proof fn faction_index_round_trip(f: Faction, i: u8)
    ensures
        Faction::from_index(f.index()) == Some(f),
        Faction::from_index(i) matches Some(g) ==> g.index() == i,
        Faction::from_index(i).is_some() == (i < 2),
{
}

/// The kinds of units. Snapshots list them in this order.
#[derive(Clone, Copy, PartialEq, Eq, Structural, Debug)]
pub enum UnitKind {
    /// Moves and is pushed about.
    Troop,
    /// A king or princess tower.
    Tower,
    /// Put up by a card, stays in place, crumbles in time.
    Building,
}

impl UnitKind {
    /// The place of the kind in a snapshot: troops, towers, buildings.
    #[verifier::allow_in_spec]
    pub fn rank(self) -> u8
        returns
            (match self {
                UnitKind::Troop => 0u8,
                UnitKind::Tower => 1u8,
                UnitKind::Building => 2u8,
            }),
    {
        match self {
            UnitKind::Troop => 0u8,
            UnitKind::Tower => 1u8,
            UnitKind::Building => 2u8,
        }
    }
}

/// What every unit has: kind, side, card and size.
#[derive(Clone, Copy, Debug)]
pub struct Unit<S> {
    pub kind: UnitKind,
    pub faction: Faction,
    /// The card it came from; towers have none.
    pub card: Option<u8>,
    pub radius: S,
    /// Zero for what cannot be pushed.
    pub mass: S,
}

impl<S: Scalar> Unit<S> {
    /// A troop.
    #[verifier::allow_in_spec]
    pub fn troop(faction: Faction, card: u8, radius: S, mass: S) -> Self
        returns
            (Unit { kind: UnitKind::Troop, faction, card: Some(card), radius, mass }),
    {
        Unit { kind: UnitKind::Troop, faction, card: Some(card), radius, mass }
    }

    /// A tower.
    #[verifier::allow_in_spec]
    pub fn tower(faction: Faction, radius: S) -> Self
        returns
            (Unit { kind: UnitKind::Tower, faction, card: None, radius, mass: zero::<S>() }),
    {
        Unit { kind: UnitKind::Tower, faction, card: None, radius, mass: zero() }
    }

    /// A building.
    #[verifier::allow_in_spec]
    pub fn building(faction: Faction, card: u8, radius: S) -> Self
        returns
            (Unit {
                kind: UnitKind::Building,
                faction,
                card: Some(card),
                radius,
                mass: zero::<S>(),
            }),
    {
        Unit { kind: UnitKind::Building, faction, card: Some(card), radius, mass: zero() }
    }

    /// Whether it is a tower or a building.
    #[verifier::allow_in_spec]
    pub fn is_building_kind(&self) -> bool
        returns
            (self.kind != UnitKind::Troop),
    {
        self.kind != UnitKind::Troop
    }
}

/// The ability to attack, with its current target and cooldown.
#[derive(Clone, Copy, Debug)]
pub struct Attacker<S> {
    pub damage: S,
    /// Reach, from edge to edge.
    pub attack_range: S,
    /// Seconds between two attacks.
    pub interval: S,
    /// Seconds to the next attack; runs only while the target is in reach.
    pub cooldown: S,
    /// Zero for a single target.
    pub splash_radius: S,
    pub hits_air: bool,
    /// Shoots rather than strikes.
    pub ranged: bool,
    pub target: Option<u64>,
    /// Whether the target has been in reach since it was chosen.
    pub engaged: bool,
}

/// How a unit looks for targets.
#[derive(Clone, Copy, Debug)]
pub enum TargetPolicy<S> {
    /// Troops: the nearest enemy within sight, else the nearest enemy structure anywhere.
    Seek { aggro_range: S, building_only: bool },
    /// Structures: the nearest enemy troop in reach.
    Guard,
}

/// A charge in progress.
#[derive(Clone, Copy, Debug)]
pub struct Charge<S> {
    /// Seconds of movement so far.
    pub progress: S,
    /// Seconds of movement that it takes.
    pub windup: S,
    pub speed_mult: S,
    pub damage_mult: S,
}

impl<S: Scalar> Charge<S> {
    /// Whether the charge is ready.
    #[verifier::allow_in_spec]
    pub fn charged(&self) -> bool
        returns
            self.windup.at_most(self.progress),
    {
        self.windup.at_most(self.progress)
    }

    /// The same charge, wound down.
    #[verifier::allow_in_spec]
    pub fn cleared(self) -> Self
        returns
            (Charge { progress: zero::<S>(), ..self }),
    {
        Charge { progress: zero(), ..self }
    }
}

/// Hit points.
#[derive(Clone, Copy, Debug)]
pub struct Health<S> {
    pub current: S,
    pub max: S,
}

impl<S: Scalar> Health<S> {
    /// Full health.
    #[verifier::allow_in_spec]
    pub fn new(max: S) -> Self
        returns
            (Health { current: max, max }),
    {
        Health { current: max, max }
    }

    /// Health after a blow.
    #[verifier::allow_in_spec]
    pub fn hurt(self, damage: S) -> Self
        returns
            (Health { current: self.current.minus(damage), max: self.max }),
    {
        Health { current: self.current.minus(damage), max: self.max }
    }

    /// Whether nothing is left.
    #[verifier::allow_in_spec]
    pub fn gone(&self) -> bool
        returns
            self.current.at_most(zero::<S>()),
    {
        self.current.at_most(zero())
    }
}

/// A building that sends out troops.
#[derive(Clone, Copy, Debug)]
pub struct Spawner<S> {
    pub interval: S,
    pub card_id: u8,
    /// Seconds to the next troop.
    pub cooldown: S,
}

/// Control flags, one bit each.
#[derive(Clone, Copy, PartialEq, Eq, Structural, Debug)]
pub struct CCFlags(pub u8);

impl CCFlags {
    /// No flag.
    #[verifier::allow_in_spec]
    pub fn none() -> CCFlags
        returns
            CCFlags(0),
    {
        CCFlags(0)
    }

    /// Neither moves, attacks, looks around nor casts; ends a charge.
    #[verifier::allow_in_spec]
    pub fn stun() -> CCFlags
        returns
            CCFlags(1),
    {
        CCFlags(1)
    }

    /// Does not move.
    #[verifier::allow_in_spec]
    pub fn root() -> CCFlags
        returns
            CCFlags(2),
    {
        CCFlags(2)
    }

    /// Does not attack.
    #[verifier::allow_in_spec]
    pub fn disarm() -> CCFlags
        returns
            CCFlags(4),
    {
        CCFlags(4)
    }

    /// Does not look for targets.
    #[verifier::allow_in_spec]
    pub fn blind() -> CCFlags
        returns
            CCFlags(8),
    {
        CCFlags(8)
    }

    /// Does not cast.
    #[verifier::allow_in_spec]
    pub fn silence() -> CCFlags
        returns
            CCFlags(16),
    {
        CCFlags(16)
    }

    /// Passive abilities are off.
    #[verifier::allow_in_spec]
    pub fn broken() -> CCFlags
        returns
            CCFlags(32),
    {
        CCFlags(32)
    }

    /// Whether every flag of `other` is set.
    #[verifier::allow_in_spec]
    pub fn contains(self, other: CCFlags) -> bool
        returns
            (self.0 & other.0 == other.0),
    {
        self.0 & other.0 == other.0
    }

    /// The flags of all.
    pub fn union(flags: &Vec<CCFlags>) -> (r: CCFlags)
        ensures
            r == union_spec(flags@),
    {
        let n: usize = flags.len();
        let mut r: CCFlags = CCFlags::none();
        assert(flags@.take(0) =~= Seq::<CCFlags>::empty());
        for i in 0..n
            invariant
                n == flags@.len(),
                r == union_spec(flags@.take(i as int)),
        {
            assert(flags@.take(i + 1).drop_last() =~= flags@.take(i as int));
            r = r.with(flags[i]);
        }
        assert(flags@.take(n as int) =~= flags@);
        r
    }

    /// The flags of both.
    #[verifier::allow_in_spec]
    pub fn with(self, other: CCFlags) -> CCFlags
        returns
            CCFlags(self.0 | other.0),
    {
        CCFlags(self.0 | other.0)
    }
}

/// The flags of all.
pub open spec fn union_spec(flags: Seq<CCFlags>) -> CCFlags
    decreases flags.len(),
{
    if flags.len() == 0 {
        CCFlags::none()
    } else {
        union_spec(flags.drop_last()).with(flags.last())
    }
}

/// What control flags keep a unit from doing.
#[derive(Clone, Copy, PartialEq, Eq, Structural, Debug)]
pub struct Channels {
    pub cannot_move: bool,
    pub cannot_attack: bool,
    pub cannot_seek: bool,
    pub cannot_cast: bool,
}

/// What a set of control flags keeps a unit from doing.
#[verifier::allow_in_spec]
pub fn cc_channels(cc: CCFlags) -> Channels
    returns
        (Channels {
            cannot_move: cc.contains(CCFlags::stun()) || cc.contains(CCFlags::root()),
            cannot_attack: cc.contains(CCFlags::stun()) || cc.contains(CCFlags::disarm()),
            cannot_seek: cc.contains(CCFlags::stun()) || cc.contains(CCFlags::blind()),
            cannot_cast: cc.contains(CCFlags::stun()) || cc.contains(CCFlags::silence()),
        }),
{
    let stunned: bool = cc.contains(CCFlags::stun());
    Channels {
        cannot_move: stunned || cc.contains(CCFlags::root()),
        cannot_attack: stunned || cc.contains(CCFlags::disarm()),
        cannot_seek: stunned || cc.contains(CCFlags::blind()),
        cannot_cast: stunned || cc.contains(CCFlags::silence()),
    }
}

/// The attributes that buffs modify.
#[derive(Clone, Copy, PartialEq, Eq, Structural, Debug)]
pub enum StatKind {
    MoveSpeed,
    AttackSpeed,
}

/// How a modifier enters the result.
#[derive(Clone, Copy, PartialEq, Eq, Structural, Debug)]
pub enum Op {
    /// Before the percentage.
    Add,
    /// Percentages add up.
    Pct,
    /// After the percentage.
    FlatAdd,
}

/// One modifier of one attribute.
#[derive(Clone, Copy, Debug)]
pub struct StatMod<S> {
    pub stat: StatKind,
    pub op: Op,
    pub value: S,
}

/// What happens when a buff of the same name comes again.
#[derive(Clone, Copy, PartialEq, Eq, Structural, Debug)]
pub enum StackPolicy {
    /// Time and modifiers of the new one.
    Refresh,
    /// The longer time of the two.
    Longer,
    /// Both run side by side.
    Independent,
    /// One more layer, up to so many.
    Stack(u8),
}

/// The sums that modify one attribute.
#[derive(Clone, Copy, Debug)]
pub struct Slot<S> {
    pub add: S,
    pub mul: S,
    pub flat: S,
}

impl<S: Scalar> Slot<S> {
    /// The sums of no modifier at all.
    #[verifier::allow_in_spec]
    pub fn neutral() -> Self
        returns
            (Slot { add: zero::<S>(), mul: one::<S>(), flat: zero::<S>() }),
    {
        Slot { add: zero(), mul: one(), flat: zero() }
    }

    /// One more modifier, `n` times.
    #[verifier::allow_in_spec]
    pub fn modified(self, op: Op, value: S, n: u8) -> Self
        returns
            (match op {
                Op::Add => Slot {
                    add: self.add.plus(value.times(S::ratio(n as i64, 1))),
                    ..self
                },
                Op::Pct => Slot {
                    mul: self.mul.plus(value.times(S::ratio(n as i64, 1))),
                    ..self
                },
                Op::FlatAdd => Slot {
                    flat: self.flat.plus(value.times(S::ratio(n as i64, 1))),
                    ..self
                },
            }),
    {
        match op {
            Op::Add => Slot { add: self.add.plus(value.times(S::ratio(n as i64, 1))), ..self },
            Op::Pct => Slot { mul: self.mul.plus(value.times(S::ratio(n as i64, 1))), ..self },
            Op::FlatAdd => Slot { flat: self.flat.plus(value.times(S::ratio(n as i64, 1))), ..self },
        }
    }

    /// The attribute that a base value becomes.
    #[verifier::allow_in_spec]
    pub fn resolve(self, base: S) -> S
        returns
            base.plus(self.add).times(self.mul).plus(self.flat),
    {
        base.plus(self.add).times(self.mul).plus(self.flat)
    }
}

/// The sums of all attributes.
#[derive(Clone, Copy, Debug)]
pub struct StatFold<S> {
    pub move_speed: Slot<S>,
    pub attack_speed: Slot<S>,
}

impl<S: Scalar> StatFold<S> {
    /// The sums of no modifier at all.
    #[verifier::allow_in_spec]
    pub fn neutral() -> Self
        returns
            (StatFold { move_speed: Slot::<S>::neutral(), attack_speed: Slot::<S>::neutral() }),
    {
        StatFold { move_speed: Slot::neutral(), attack_speed: Slot::neutral() }
    }

    /// The sums of one attribute.
    #[verifier::allow_in_spec]
    pub fn slot(self, kind: StatKind) -> Slot<S>
        returns
            (match kind {
                StatKind::MoveSpeed => self.move_speed,
                StatKind::AttackSpeed => self.attack_speed,
            }),
    {
        match kind {
            StatKind::MoveSpeed => self.move_speed,
            StatKind::AttackSpeed => self.attack_speed,
        }
    }

    /// One more modifier, `n` times.
    #[verifier::allow_in_spec]
    pub fn modified(self, e: StatMod<S>, n: u8) -> Self
        returns
            (match e.stat {
                StatKind::MoveSpeed => StatFold {
                    move_speed: self.move_speed.modified(e.op, e.value, n),
                    ..self
                },
                StatKind::AttackSpeed => StatFold {
                    attack_speed: self.attack_speed.modified(e.op, e.value, n),
                    ..self
                },
            }),
    {
        match e.stat {
            StatKind::MoveSpeed => StatFold {
                move_speed: self.move_speed.modified(e.op, e.value, n),
                ..self
            },
            StatKind::AttackSpeed => StatFold {
                attack_speed: self.attack_speed.modified(e.op, e.value, n),
                ..self
            },
        }
    }
}

/// A volley: a spell whose damage lands in waves, where the targets are by then.
#[derive(Clone, Copy, Debug)]
pub struct SpellVolley<S> {
    pub faction: Faction,
    /// Damage of one wave.
    pub damage: S,
    pub radius: S,
    pub x: S,
    pub z: S,
    pub waves_left: u32,
    /// Ticks to the next wave.
    pub next_in: u32,
    /// Ticks between waves.
    pub interval: u32,
}

impl<S: Scalar> SpellVolley<S> {
    /// A volley in flight has a wave left and some time between waves.
    pub open spec fn wf(&self) -> bool {
        self.waves_left >= 1 && self.interval >= 1
    }
}

/// A card that has been played and has not taken effect yet.
#[derive(Clone, Copy, Debug)]
pub struct Deploying<S> {
    pub card: u8,
    pub faction: Faction,
    pub ticks_left: u32,
    pub pos: Vec3<S>,
}

/// A shot on its way.
#[derive(Clone, Copy, Debug)]
pub struct Projectile<S> {
    pub target: u64,
    pub damage: S,
    pub splash_radius: S,
    pub hits_air: bool,
    /// The side that fired.
    pub attacker: Faction,
    pub pos: Vec3<S>,
}

/// One thing on the field. What it can do is told by which abilities it has.
#[derive(Clone, Copy, Debug)]
pub struct Actor<S> {
    pub entity: u64,
    pub unit: Unit<S>,
    pub pos: Vec3<S>,
    pub health: Health<S>,
    pub attacker: Option<Attacker<S>>,
    pub targeting: Option<TargetPolicy<S>>,
    /// Walking speed, for those that walk or fly.
    pub mover: Option<S>,
    pub charge: Option<Charge<S>>,
    pub flying: bool,
    pub king: bool,
    /// Seconds until it crumbles.
    pub lifetime: Option<S>,
    pub spawner: Option<Spawner<S>>,
}

impl<S: Scalar> Actor<S> {
    /// The same unit after a blow.
    #[verifier::allow_in_spec]
    pub fn hurt(self, damage: S) -> Self
        returns
            (Actor { health: self.health.hurt(damage), ..self }),
    {
        Actor { health: self.health.hurt(damage), ..self }
    }

    /// The same unit elsewhere.
    #[verifier::allow_in_spec]
    pub fn moved(self, pos: Vec3<S>) -> Self
        returns
            (Actor { pos, ..self }),
    {
        Actor { pos, ..self }
    }
}

/// The elixir of both sides.
#[derive(Clone, Copy, Debug)]
pub struct Elixir<S> {
    pub player: S,
    pub enemy: S,
}

impl<S: Scalar> Elixir<S> {
    /// The elixir of a side.
    #[verifier::allow_in_spec]
    pub fn of(self, faction: Faction) -> S
        returns
            (match faction {
                Faction::Player => self.player,
                Faction::Enemy => self.enemy,
            }),
    {
        match faction {
            Faction::Player => self.player,
            Faction::Enemy => self.enemy,
        }
    }

    /// The same with another amount for a side.
    #[verifier::allow_in_spec]
    pub fn with(self, faction: Faction, amount: S) -> Self
        returns
            (match faction {
                Faction::Player => Elixir { player: amount, ..self },
                Faction::Enemy => Elixir { enemy: amount, ..self },
            }),
    {
        match faction {
            Faction::Player => Elixir { player: amount, ..self },
            Faction::Enemy => Elixir { enemy: amount, ..self },
        }
    }
}

/// What a player can ask for: the only data that peers exchange.
#[derive(Clone, Copy, Debug)]
pub enum GameCommand<S> {
    /// Play `card` at `(x, z)`.
    Deploy { faction: Faction, card: u8, x: S, z: S },
}

impl<S: Scalar> GameCommand<S> {
    /// The side that gave it.
    #[verifier::allow_in_spec]
    pub fn faction(self) -> Faction
        returns
            (match self {
                GameCommand::Deploy { faction, .. } => faction,
            }),
    {
        match self {
            GameCommand::Deploy { faction, .. } => faction,
        }
    }
}

/// Commands waiting for their tick: own ones and the opponent's.
pub struct CommandBuffer<S> {
    pub local: HashMap<u32, Vec<GameCommand<S>>>,
    pub remote: HashMap<u32, Vec<GameCommand<S>>>,
}

} // verus!
