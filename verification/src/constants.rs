//! Every tunable number in one place.

use vstd::prelude::*;

use crate::scalar::{hundredths, one, whole, zero, Scalar};

verus! {

/// The version of the simulation rules; a recording replays faithfully only under its own.
pub const SIM_VERSION: u32 = 6;

/// Ticks per second.
pub const TICKS_PER_SEC: u32 = 30;

/// The length of one tick in nanoseconds.
pub const TICK_NANOS: u64 = 33_333_333;

/// How many ticks after a click its command takes effect.
pub const INPUT_DELAY: u32 = 4;

/// Regular time: three minutes.
pub const REGULAR_TICKS: u32 = 5400;

/// Elixir doubles when at most this much of regular time is left: one minute.
pub const DOUBLE_ELIXIR_TICKS: u32 = 1800;

/// Overtime: two minutes.
pub const OVERTIME_TICKS: u32 = 3600;

/// Ticks from the cast of a volley to its first wave.
pub const SPELL_WAVE_FIRST_TICKS: u32 = 15;

/// Ticks between two waves of a volley.
pub const SPELL_WAVE_INTERVAL_TICKS: u32 = 12;

/// How many cards there are.
pub const CARD_COUNT: usize = 21;

/// How many cards a deck holds.
pub const DECK_SIZE: usize = 8;

/// How many cards of a deck are in hand.
pub const HAND_SIZE: usize = 4;

/// Columns of the spatial grid.
pub const COLS: usize = 16;

/// Rows of the spatial grid.
pub const ROWS: usize = 24;

/// Cells of the spatial grid.
pub const CELLS: usize = 384;

/// The fixed step of the simulation in seconds: thirty ticks to the second.
#[verifier::allow_in_spec]
pub fn tick_dt<S: Scalar>() -> S
    returns
        S::ratio(1, 30),
{
    S::ratio(1, 30)
}

/// What every tower loses per tick in the last phase of a match.
#[verifier::allow_in_spec]
pub fn drain_per_tick<S: Scalar>() -> S
    returns
        whole::<S>(20),
{
    whole(20)
}

/// Half the width of a bridge.
#[verifier::allow_in_spec]
pub fn bridge_half_width<S: Scalar>() -> S
    returns
        hundredths::<S>(150),
{
    hundredths(150)
}

/// Half the width of the river.
#[verifier::allow_in_spec]
pub fn river_half_width<S: Scalar>() -> S
    returns
        hundredths::<S>(125),
{
    hundredths(125)
}

/// How far the king towers stand from the middle.
#[verifier::allow_in_spec]
pub fn tower_z<S: Scalar>() -> S
    returns
        hundredths::<S>(1250),
{
    hundredths(1250)
}

/// How far the princess towers stand to the side.
#[verifier::allow_in_spec]
pub fn princess_x<S: Scalar>() -> S
    returns
        hundredths::<S>(650),
{
    hundredths(650)
}

/// How far the princess towers stand from the middle; also how deep a broken flank opens.
#[verifier::allow_in_spec]
pub fn princess_z<S: Scalar>() -> S
    returns
        hundredths::<S>(850),
{
    hundredths(850)
}

/// Half the width of the field.
#[verifier::allow_in_spec]
pub fn arena_half_width<S: Scalar>() -> S
    returns
        whole::<S>(8),
{
    whole(8)
}

/// Half the depth of the field.
#[verifier::allow_in_spec]
pub fn arena_half_depth<S: Scalar>() -> S
    returns
        whole::<S>(14),
{
    whole(14)
}

/// The health of a king tower.
#[verifier::allow_in_spec]
pub fn tower_hp<S: Scalar>() -> S
    returns
        whole::<S>(10000),
{
    whole(10000)
}

/// Seconds between two shots of a tower.
#[verifier::allow_in_spec]
pub fn attack_interval<S: Scalar>() -> S
    returns
        one::<S>(),
{
    one()
}

/// The damage of one shot of a tower.
#[verifier::allow_in_spec]
pub fn tower_attack_damage<S: Scalar>() -> S
    returns
        whole::<S>(200),
{
    whole(200)
}

/// Units per second that a shot travels.
#[verifier::allow_in_spec]
pub fn projectile_speed<S: Scalar>() -> S
    returns
        whole::<S>(14),
{
    whole(14)
}

/// The cap on the force with which a crowd pushes one unit.
#[verifier::allow_in_spec]
pub fn max_steering_force<S: Scalar>() -> S
    returns
        whole::<S>(4),
{
    whole(4)
}

/// How high flying units hover.
#[verifier::allow_in_spec]
pub fn fly_height<S: Scalar>() -> S
    returns
        hundredths::<S>(160),
{
    hundredths(160)
}

/// The edge of a cell of the spatial grid.
#[verifier::allow_in_spec]
pub fn grid_cell<S: Scalar>() -> S
    returns
        whole::<S>(2),
{
    whole(2)
}

/// The lower edge of the grid across.
#[verifier::allow_in_spec]
pub fn grid_min_x<S: Scalar>() -> S
    returns
        whole::<S>(16).negated(),
{
    whole::<S>(16).negated()
}

/// The lower edge of the grid along.
#[verifier::allow_in_spec]
pub fn grid_min_z<S: Scalar>() -> S
    returns
        whole::<S>(24).negated(),
{
    whole::<S>(24).negated()
}

/// No troop is wider: grid searches widen their circle by this much.
#[verifier::allow_in_spec]
pub fn monster_radius_max<S: Scalar>() -> S
    returns
        hundredths::<S>(150),
{
    hundredths(150)
}

/// The radius of every building that a card puts up.
#[verifier::allow_in_spec]
pub fn building_radius<S: Scalar>() -> S
    returns
        hundredths::<S>(60),
{
    hundredths(60)
}

/// The most elixir that a side can hold.
#[verifier::allow_in_spec]
pub fn elixir_max<S: Scalar>() -> S
    returns
        whole::<S>(10),
{
    whole(10)
}

/// The elixir that each side starts with.
#[verifier::allow_in_spec]
pub fn elixir_start<S: Scalar>() -> S
    returns
        whole::<S>(5),
{
    whole(5)
}

/// Regeneration per second: one point in 2.8 seconds.
#[verifier::allow_in_spec]
pub fn elixir_per_sec<S: Scalar>() -> S
    returns
        one::<S>().over(S::ratio(28, 10)),
{
    one::<S>().over(S::ratio(28, 10))
}

/// Distances up to this count as none.
#[verifier::allow_in_spec]
pub fn small_distance<S: Scalar>() -> S
    returns
        S::ratio(1, 10000),
{
    S::ratio(1, 10000)
}

/// How far beyond its range an engaged unit still strikes.
#[verifier::allow_in_spec]
pub fn reach_slack<S: Scalar>() -> S
    returns
        hundredths::<S>(5),
{
    hundredths(5)
}

/// Where the two bridges lie across the field.
#[verifier::allow_in_spec]
pub fn bridges<S: Scalar>() -> (S, S)
    returns
        (hundredths::<S>(450).negated(), hundredths::<S>(450)),
{
    (hundredths::<S>(450).negated(), hundredths(450))
}

/// The build of a tower.
#[derive(Clone, Copy, Debug)]
pub struct TowerSpec<S> {
    pub hp: S,
    pub body_radius: S,
    pub body_height: S,
    pub roof_radius: S,
    pub roof_height: S,
    pub bar_width: S,
    pub bar_y: S,
    /// How far it sees and shoots, from edge to edge.
    pub attack_range: S,
    /// Whether its fall loses the match.
    pub is_king: bool,
}

/// A charge: what a unit gains once it has kept moving long enough.
#[derive(Clone, Copy, Debug)]
pub struct ChargeSpec<S> {
    /// Seconds of movement until the charge is ready.
    pub windup_secs: S,
    pub speed_mult: S,
    /// The factor on the first strike.
    pub damage_mult: S,
}

/// What a troop card puts on the field.
#[derive(Clone, Copy, Debug)]
pub struct MonsterSpec<S> {
    pub hp: S,
    pub damage: S,
    /// Reach of its attack, from edge to edge.
    pub attack_range: S,
    /// How far it notices enemies, from edge to edge.
    pub aggro_range: S,
    pub speed: S,
    pub radius: S,
    /// In a crowd the heavy push the light.
    pub mass: S,
    /// Whether it shoots rather than strikes.
    pub ranged: bool,
    pub attack_interval: S,
    /// Zero for a single target.
    pub splash_radius: S,
    pub hits_air: bool,
    pub flying: bool,
    /// Whether it ignores troops altogether.
    pub building_only: bool,
    pub charge: Option<ChargeSpec<S>>,
}

/// A troop without any special trait: it hits air exactly when it shoots.
#[verifier::allow_in_spec]
#[allow(clippy::too_many_arguments)]
pub fn trooper<S: Scalar>(
    hp: S,
    damage: S,
    attack_range: S,
    aggro_range: S,
    speed: S,
    radius: S,
    mass: S,
    ranged: bool,
    attack_interval: S,
) -> MonsterSpec<S>
    returns
        (MonsterSpec {
            hp,
            damage,
            attack_range,
            aggro_range,
            speed,
            radius,
            mass,
            ranged,
            attack_interval,
            splash_radius: zero::<S>(),
            hits_air: ranged,
            flying: false,
            building_only: false,
            charge: None,
        }),
{
    MonsterSpec {
        hp,
        damage,
        attack_range,
        aggro_range,
        speed,
        radius,
        mass,
        ranged,
        attack_interval,
        splash_radius: zero(),
        hits_air: ranged,
        flying: false,
        building_only: false,
        charge: None,
    }
}

/// Rage: a percentage on the speed of movement and attack.
#[derive(Clone, Copy, Debug)]
pub struct RageSpec<S> {
    /// A fraction of one: 0.35 is 35 percent.
    pub pct: S,
    pub secs: S,
}

/// What a spell does around the point it is cast on.
#[derive(Clone, Copy, Debug)]
pub struct SpellSpec<S> {
    /// Damage to enemies, over all waves.
    pub damage: S,
    pub radius: S,
    /// How long enemies are stunned.
    pub stun_secs: S,
    /// In how many waves the damage lands; one takes effect at once.
    pub waves: u32,
    /// What friends gain.
    pub rage: Option<RageSpec<S>>,
}

/// The gun of a building.
#[derive(Clone, Copy, Debug)]
pub struct BuildingAttack<S> {
    pub damage: S,
    pub range: S,
    pub interval: S,
    pub hits_air: bool,
}

/// A building that sends out troops.
#[derive(Clone, Copy, Debug)]
pub struct BuildingSpawner<S> {
    pub interval_secs: S,
    pub card_id: u8,
}

/// What a building card puts on the field.
#[derive(Clone, Copy, Debug)]
pub struct BuildingSpec<S> {
    pub hp: S,
    /// Seconds until it crumbles by itself.
    pub lifetime_secs: S,
    pub attack: Option<BuildingAttack<S>>,
    pub spawner: Option<BuildingSpawner<S>>,
}

/// The three kinds of cards.
#[derive(Clone, Copy, Debug)]
pub enum CardKind<S> {
    Troop(MonsterSpec<S>),
    Spell(SpellSpec<S>),
    Building(BuildingSpec<S>),
}

/// A card.
#[derive(Clone, Copy, Debug)]
pub struct CardSpec<S> {
    pub id: u8,
    pub name: &'static str,
    pub cost: S,
    /// How many units a troop card brings.
    pub count: u32,
    /// Ticks from the play of the card to its effect.
    pub deploy_ticks: u32,
    pub kind: CardKind<S>,
}

/// The catalogue of cards.
pub open spec fn card_spec<S: Scalar>(id: u8) -> Option<CardSpec<S>> {
    match id {
        0 => Some(CardSpec {
            id: 0,
            name: "Knight",
            cost: whole(3),
            count: 1,
            deploy_ticks: 30,
            kind: CardKind::Troop(trooper(whole(2000), whole(100), hundredths(75), whole(5), hundredths(150), hundredths(50), one(), false, one())),
        }),
        1 => Some(CardSpec {
            id: 1,
            name: "Skeletons",
            cost: one(),
            count: 3,
            deploy_ticks: 30,
            kind: CardKind::Troop(trooper(whole(300), whole(50), hundredths(45), whole(2), whole(2), hundredths(30), hundredths(30), false, one())),
        }),
        2 => Some(CardSpec {
            id: 2,
            name: "Musketeer",
            cost: whole(4),
            count: 1,
            deploy_ticks: 30,
            kind: CardKind::Troop(trooper(whole(1000), whole(120), whole(4), whole(5), hundredths(150), hundredths(50), hundredths(80), true, one())),
        }),
        3 => Some(CardSpec {
            id: 3,
            name: "Giant",
            cost: whole(5),
            count: 1,
            deploy_ticks: 30,
            kind: CardKind::Troop(MonsterSpec { building_only: true, ..trooper(whole(5000), whole(150), hundredths(120), whole(5), one(), hundredths(80), whole(3), false, hundredths(150)) }),
        }),
        4 => Some(CardSpec {
            id: 4,
            name: "Goblins",
            cost: whole(2),
            count: 3,
            deploy_ticks: 30,
            kind: CardKind::Troop(trooper(whole(360), whole(70), hundredths(45), whole(2), hundredths(250), hundredths(30), hundredths(40), false, hundredths(110))),
        }),
        5 => Some(CardSpec {
            id: 5,
            name: "Archers",
            cost: whole(3),
            count: 2,
            deploy_ticks: 30,
            kind: CardKind::Troop(trooper(whole(450), whole(80), whole(4), whole(5), hundredths(150), hundredths(40), hundredths(60), true, hundredths(120))),
        }),
        6 => Some(CardSpec {
            id: 6,
            name: "MiniPEKKA",
            cost: whole(4),
            count: 1,
            deploy_ticks: 30,
            kind: CardKind::Troop(trooper(whole(1600), whole(350), hundredths(75), whole(5), whole(2), hundredths(50), hundredths(120), false, hundredths(180))),
        }),
        7 => Some(CardSpec {
            id: 7,
            name: "Barbarians",
            cost: whole(5),
            count: 4,
            deploy_ticks: 30,
            kind: CardKind::Troop(trooper(whole(900), whole(100), hundredths(70), whole(5), hundredths(150), hundredths(45), one(), false, hundredths(140))),
        }),
        8 => Some(CardSpec {
            id: 8,
            name: "HogRider",
            cost: whole(4),
            count: 1,
            deploy_ticks: 30,
            kind: CardKind::Troop(MonsterSpec { building_only: true, ..trooper(whole(1600), whole(150), hundredths(90), whole(5), hundredths(250), hundredths(50), hundredths(120), false, hundredths(160)) }),
        }),
        9 => Some(CardSpec {
            id: 9,
            name: "Prince",
            cost: whole(5),
            count: 1,
            deploy_ticks: 30,
            kind: CardKind::Troop(MonsterSpec { charge: Some(ChargeSpec { windup_secs: hundredths(250), speed_mult: whole(2), damage_mult: whole(2) }), ..trooper(whole(1900), whole(200), hundredths(90), whole(5), hundredths(150), hundredths(55), hundredths(150), false, hundredths(140)) }),
        }),
        10 => Some(CardSpec {
            id: 10,
            name: "Bomber",
            cost: whole(3),
            count: 1,
            deploy_ticks: 30,
            kind: CardKind::Troop(MonsterSpec { splash_radius: hundredths(150), hits_air: false, ..trooper(whole(400), whole(190), hundredths(350), hundredths(450), hundredths(150), hundredths(35), hundredths(50), true, hundredths(190)) }),
        }),
        11 => Some(CardSpec {
            id: 11,
            name: "Valkyrie",
            cost: whole(4),
            count: 1,
            deploy_ticks: 30,
            kind: CardKind::Troop(MonsterSpec { splash_radius: hundredths(150), hits_air: false, ..trooper(whole(1800), whole(210), hundredths(90), whole(5), hundredths(150), hundredths(55), hundredths(120), false, hundredths(150)) }),
        }),
        12 => Some(CardSpec {
            id: 12,
            name: "Wizard",
            cost: whole(5),
            count: 1,
            deploy_ticks: 30,
            kind: CardKind::Troop(MonsterSpec { splash_radius: hundredths(120), ..trooper(whole(1100), whole(182), whole(4), whole(5), hundredths(150), hundredths(50), hundredths(80), true, hundredths(140)) }),
        }),
        13 => Some(CardSpec {
            id: 13,
            name: "Minions",
            cost: whole(3),
            count: 3,
            deploy_ticks: 30,
            kind: CardKind::Troop(MonsterSpec { flying: true, hits_air: true, ..trooper(whole(320), whole(80), hundredths(45), whole(3), whole(2), hundredths(30), hundredths(30), false, one()) }),
        }),
        14 => Some(CardSpec {
            id: 14,
            name: "BabyDragon",
            cost: whole(4),
            count: 1,
            deploy_ticks: 30,
            kind: CardKind::Troop(MonsterSpec { splash_radius: hundredths(120), flying: true, ..trooper(whole(1200), whole(160), hundredths(250), whole(4), hundredths(150), hundredths(60), hundredths(80), true, hundredths(160)) }),
        }),
        15 => Some(CardSpec {
            id: 15,
            name: "Zap",
            cost: whole(2),
            count: 0,
            deploy_ticks: 0,
            kind: CardKind::Spell(SpellSpec { damage: whole(160), radius: hundredths(120), stun_secs: hundredths(50), waves: 1, rage: None }),
        }),
        16 => Some(CardSpec {
            id: 16,
            name: "Arrows",
            cost: whole(3),
            count: 0,
            deploy_ticks: 0,
            kind: CardKind::Spell(SpellSpec { damage: whole(300), radius: whole(2), stun_secs: zero(), waves: 3, rage: None }),
        }),
        17 => Some(CardSpec {
            id: 17,
            name: "Fireball",
            cost: whole(4),
            count: 0,
            deploy_ticks: 0,
            kind: CardKind::Spell(SpellSpec { damage: whole(550), radius: hundredths(150), stun_secs: zero(), waves: 1, rage: None }),
        }),
        18 => Some(CardSpec {
            id: 18,
            name: "Rage",
            cost: whole(2),
            count: 0,
            deploy_ticks: 0,
            kind: CardKind::Spell(SpellSpec { damage: zero(), radius: whole(3), stun_secs: zero(), waves: 1, rage: Some(RageSpec { pct: hundredths(35), secs: whole(6) }) }),
        }),
        19 => Some(CardSpec {
            id: 19,
            name: "Cannon",
            cost: whole(3),
            count: 1,
            deploy_ticks: 30,
            kind: CardKind::Building(BuildingSpec { hp: whole(1400), lifetime_secs: whole(30), attack: Some(BuildingAttack { damage: whole(90), range: whole(5), interval: hundredths(90), hits_air: false }), spawner: None }),
        }),
        20 => Some(CardSpec {
            id: 20,
            name: "Tombstone",
            cost: whole(3),
            count: 1,
            deploy_ticks: 30,
            kind: CardKind::Building(BuildingSpec { hp: whole(800), lifetime_secs: whole(30), attack: None, spawner: Some(BuildingSpawner { interval_secs: whole(4), card_id: 1 }) }),
        }),
        _ => None,
    }
}

/// The card with this id, if there is one.
#[verifier::when_used_as_spec(card_spec)]
pub fn card<S: Scalar>(id: u8) -> (r: Option<CardSpec<S>>)
    ensures
        r == card_spec::<S>(id),
        r.is_some() == (id < CARD_COUNT),
        r.is_some() ==> r->0.id == id,
{
    match id {
        0 => Some(CardSpec {
            id: 0,
            name: "Knight",
            cost: whole(3),
            count: 1,
            deploy_ticks: 30,
            kind: CardKind::Troop(trooper(whole(2000), whole(100), hundredths(75), whole(5), hundredths(150), hundredths(50), one(), false, one())),
        }),
        1 => Some(CardSpec {
            id: 1,
            name: "Skeletons",
            cost: one(),
            count: 3,
            deploy_ticks: 30,
            kind: CardKind::Troop(trooper(whole(300), whole(50), hundredths(45), whole(2), whole(2), hundredths(30), hundredths(30), false, one())),
        }),
        2 => Some(CardSpec {
            id: 2,
            name: "Musketeer",
            cost: whole(4),
            count: 1,
            deploy_ticks: 30,
            kind: CardKind::Troop(trooper(whole(1000), whole(120), whole(4), whole(5), hundredths(150), hundredths(50), hundredths(80), true, one())),
        }),
        3 => Some(CardSpec {
            id: 3,
            name: "Giant",
            cost: whole(5),
            count: 1,
            deploy_ticks: 30,
            kind: CardKind::Troop(MonsterSpec { building_only: true, ..trooper(whole(5000), whole(150), hundredths(120), whole(5), one(), hundredths(80), whole(3), false, hundredths(150)) }),
        }),
        4 => Some(CardSpec {
            id: 4,
            name: "Goblins",
            cost: whole(2),
            count: 3,
            deploy_ticks: 30,
            kind: CardKind::Troop(trooper(whole(360), whole(70), hundredths(45), whole(2), hundredths(250), hundredths(30), hundredths(40), false, hundredths(110))),
        }),
        5 => Some(CardSpec {
            id: 5,
            name: "Archers",
            cost: whole(3),
            count: 2,
            deploy_ticks: 30,
            kind: CardKind::Troop(trooper(whole(450), whole(80), whole(4), whole(5), hundredths(150), hundredths(40), hundredths(60), true, hundredths(120))),
        }),
        6 => Some(CardSpec {
            id: 6,
            name: "MiniPEKKA",
            cost: whole(4),
            count: 1,
            deploy_ticks: 30,
            kind: CardKind::Troop(trooper(whole(1600), whole(350), hundredths(75), whole(5), whole(2), hundredths(50), hundredths(120), false, hundredths(180))),
        }),
        7 => Some(CardSpec {
            id: 7,
            name: "Barbarians",
            cost: whole(5),
            count: 4,
            deploy_ticks: 30,
            kind: CardKind::Troop(trooper(whole(900), whole(100), hundredths(70), whole(5), hundredths(150), hundredths(45), one(), false, hundredths(140))),
        }),
        8 => Some(CardSpec {
            id: 8,
            name: "HogRider",
            cost: whole(4),
            count: 1,
            deploy_ticks: 30,
            kind: CardKind::Troop(MonsterSpec { building_only: true, ..trooper(whole(1600), whole(150), hundredths(90), whole(5), hundredths(250), hundredths(50), hundredths(120), false, hundredths(160)) }),
        }),
        9 => Some(CardSpec {
            id: 9,
            name: "Prince",
            cost: whole(5),
            count: 1,
            deploy_ticks: 30,
            kind: CardKind::Troop(MonsterSpec { charge: Some(ChargeSpec { windup_secs: hundredths(250), speed_mult: whole(2), damage_mult: whole(2) }), ..trooper(whole(1900), whole(200), hundredths(90), whole(5), hundredths(150), hundredths(55), hundredths(150), false, hundredths(140)) }),
        }),
        10 => Some(CardSpec {
            id: 10,
            name: "Bomber",
            cost: whole(3),
            count: 1,
            deploy_ticks: 30,
            kind: CardKind::Troop(MonsterSpec { splash_radius: hundredths(150), hits_air: false, ..trooper(whole(400), whole(190), hundredths(350), hundredths(450), hundredths(150), hundredths(35), hundredths(50), true, hundredths(190)) }),
        }),
        11 => Some(CardSpec {
            id: 11,
            name: "Valkyrie",
            cost: whole(4),
            count: 1,
            deploy_ticks: 30,
            kind: CardKind::Troop(MonsterSpec { splash_radius: hundredths(150), hits_air: false, ..trooper(whole(1800), whole(210), hundredths(90), whole(5), hundredths(150), hundredths(55), hundredths(120), false, hundredths(150)) }),
        }),
        12 => Some(CardSpec {
            id: 12,
            name: "Wizard",
            cost: whole(5),
            count: 1,
            deploy_ticks: 30,
            kind: CardKind::Troop(MonsterSpec { splash_radius: hundredths(120), ..trooper(whole(1100), whole(182), whole(4), whole(5), hundredths(150), hundredths(50), hundredths(80), true, hundredths(140)) }),
        }),
        13 => Some(CardSpec {
            id: 13,
            name: "Minions",
            cost: whole(3),
            count: 3,
            deploy_ticks: 30,
            kind: CardKind::Troop(MonsterSpec { flying: true, hits_air: true, ..trooper(whole(320), whole(80), hundredths(45), whole(3), whole(2), hundredths(30), hundredths(30), false, one()) }),
        }),
        14 => Some(CardSpec {
            id: 14,
            name: "BabyDragon",
            cost: whole(4),
            count: 1,
            deploy_ticks: 30,
            kind: CardKind::Troop(MonsterSpec { splash_radius: hundredths(120), flying: true, ..trooper(whole(1200), whole(160), hundredths(250), whole(4), hundredths(150), hundredths(60), hundredths(80), true, hundredths(160)) }),
        }),
        15 => Some(CardSpec {
            id: 15,
            name: "Zap",
            cost: whole(2),
            count: 0,
            deploy_ticks: 0,
            kind: CardKind::Spell(SpellSpec { damage: whole(160), radius: hundredths(120), stun_secs: hundredths(50), waves: 1, rage: None }),
        }),
        16 => Some(CardSpec {
            id: 16,
            name: "Arrows",
            cost: whole(3),
            count: 0,
            deploy_ticks: 0,
            kind: CardKind::Spell(SpellSpec { damage: whole(300), radius: whole(2), stun_secs: zero(), waves: 3, rage: None }),
        }),
        17 => Some(CardSpec {
            id: 17,
            name: "Fireball",
            cost: whole(4),
            count: 0,
            deploy_ticks: 0,
            kind: CardKind::Spell(SpellSpec { damage: whole(550), radius: hundredths(150), stun_secs: zero(), waves: 1, rage: None }),
        }),
        18 => Some(CardSpec {
            id: 18,
            name: "Rage",
            cost: whole(2),
            count: 0,
            deploy_ticks: 0,
            kind: CardKind::Spell(SpellSpec { damage: zero(), radius: whole(3), stun_secs: zero(), waves: 1, rage: Some(RageSpec { pct: hundredths(35), secs: whole(6) }) }),
        }),
        19 => Some(CardSpec {
            id: 19,
            name: "Cannon",
            cost: whole(3),
            count: 1,
            deploy_ticks: 30,
            kind: CardKind::Building(BuildingSpec { hp: whole(1400), lifetime_secs: whole(30), attack: Some(BuildingAttack { damage: whole(90), range: whole(5), interval: hundredths(90), hits_air: false }), spawner: None }),
        }),
        20 => Some(CardSpec {
            id: 20,
            name: "Tombstone",
            cost: whole(3),
            count: 1,
            deploy_ticks: 30,
            kind: CardKind::Building(BuildingSpec { hp: whole(800), lifetime_secs: whole(30), attack: None, spawner: Some(BuildingSpawner { interval_secs: whole(4), card_id: 1 }) }),
        }),
        _ => None,
    }
}

/// The king tower.
#[verifier::allow_in_spec]
pub fn king_tower<S: Scalar>() -> TowerSpec<S>
    returns
        (TowerSpec::<S> {
            hp: tower_hp(),
            body_radius: hundredths(120),
            body_height: hundredths(250),
            roof_radius: hundredths(150),
            roof_height: hundredths(120),
            bar_width: hundredths(240),
            bar_y: hundredths(430),
            attack_range: whole(6),
            is_king: true,
        }),
{
    TowerSpec {
        hp: tower_hp(),
        body_radius: hundredths(120),
        body_height: hundredths(250),
        roof_radius: hundredths(150),
        roof_height: hundredths(120),
        bar_width: hundredths(240),
        bar_y: hundredths(430),
        attack_range: whole(6),
        is_king: true,
    }
}

/// A princess tower.
#[verifier::allow_in_spec]
pub fn princess_tower<S: Scalar>() -> TowerSpec<S>
    returns
        (TowerSpec::<S> {
            hp: whole(6000),
            body_radius: one(),
            body_height: hundredths(220),
            roof_radius: hundredths(125),
            roof_height: one(),
            bar_width: whole(2),
            bar_y: hundredths(380),
            attack_range: whole(6),
            is_king: false,
        }),
{
    TowerSpec {
        hp: whole(6000),
        body_radius: one(),
        body_height: hundredths(220),
        roof_radius: hundredths(125),
        roof_height: one(),
        bar_width: whole(2),
        bar_y: hundredths(380),
        attack_range: whole(6),
        is_king: false,
    }
}

} // verus!
