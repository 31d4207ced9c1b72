//! The compact battle: monsters, towers and buildings as three plain lists, each with one rule
//! that looks, moves and strikes in a single pass.
//!
//! It plays like the systems of [`crate::combat`], without buffs and without the grid: every
//! monster considers every unit, keeps its target until it is gone or pushed out of reach, and
//! times its blows by a repeating timer.

use bevy::time::{Timer, TimerMode};
use std::time::Duration;
use vstd::arithmetic::div_mod::*;
use vstd::prelude::*;

use crate::combat::attack::Blast;
use crate::combat::movement::steering_goal;
use crate::combat::physics::ashore;
use crate::combat::projectile::{advanced, shell};
use crate::combat::{can_target, edge_dist, UnitSnap};
use crate::components::{Charge, Faction, Health, Projectile, UnitKind};
use crate::constants::{
    card, card_spec, fly_height, max_steering_force, projectile_speed, reach_slack, small_distance, tick_dt,
    tower_attack_damage, CardKind, MonsterSpec, TICK_NANOS,
};
use crate::fixed::{quotient, Fixed};
use crate::scalar::{hundredths, one, whole, zero, Scalar};
use crate::spawn::idle_charge;
use crate::vector::Vec3;

verus! {

/// A repeating timer: how far it has run, and how far it runs, in nanoseconds.
#[derive(Clone, Copy, PartialEq, Eq, Structural, Debug)]
pub struct AttackTimer {
    pub elapsed: u64,
    pub duration: u64,
}

/// A timer after some time, and whether it came round.
pub open spec fn timer_spec(t: AttackTimer, delta: u64) -> (AttackTimer, bool) {
    let total = t.elapsed + delta;
    if total < t.duration {
        (AttackTimer { elapsed: total as u64, ..t }, false)
    } else if t.duration == 0 {
        (AttackTimer { elapsed: 0, ..t }, true)
    } else {
        (
            AttackTimer { elapsed: (total % (t.duration as int)) as u64, ..t },
            (total / (t.duration as int)) % 0x1_0000_0000 != 0,
        )
    }
}

/// Runs a repeating timer.
///
/// Calls `bevy::time::Timer::tick` on a repeating timer that has run so far already. Of it the
/// contract says: the elapsed time grows by `delta`; if it reaches the duration, what is left of
/// it after whole rounds stays, and the timer reports that it finished as long as the number of
/// rounds is not a multiple of 2^32, the width of its counter; a timer without duration always
/// finishes and stands at zero.
#[verifier::external_body]
fn run_timer(t: AttackTimer, delta: u64) -> (r: (AttackTimer, bool))
    ensures
        r == timer_spec(t, delta),
{
    let mut timer = Timer::new(Duration::from_nanos(t.duration), TimerMode::Repeating);
    timer.set_elapsed(Duration::from_nanos(t.elapsed));
    timer.tick(Duration::from_nanos(delta));
    let elapsed = timer.elapsed().as_nanos() as u64;
    (AttackTimer { elapsed, duration: t.duration }, timer.just_finished())
}

/// A troop with everything that it needs.
#[derive(Clone, Copy, Debug)]
pub struct Monster<S> {
    pub entity: u64,
    pub faction: Faction,
    pub card: u8,
    pub pos: Vec3<S>,
    pub health: Health<S>,
    pub radius: S,
    pub mass: S,
    pub damage: S,
    pub attack_range: S,
    pub aggro_range: S,
    pub speed: S,
    pub ranged: bool,
    pub splash_radius: S,
    pub hits_air: bool,
    pub flying: bool,
    pub building_only: bool,
    pub target: Option<u64>,
    pub engaged: bool,
    pub charge: Option<Charge<S>>,
    /// Seconds of stun left.
    pub stun_secs: S,
    /// Seconds of rage left.
    pub rage_secs: S,
    pub rage_mult: S,
    pub timer: AttackTimer,
}

/// A tower.
#[derive(Clone, Copy, Debug)]
pub struct Tower<S> {
    pub entity: u64,
    pub faction: Faction,
    pub pos: Vec3<S>,
    pub health: Health<S>,
    pub radius: S,
    pub attack_range: S,
    pub target: Option<u64>,
    pub timer: AttackTimer,
}

/// The gun of a building.
#[derive(Clone, Copy, Debug)]
pub struct Gun<S> {
    pub damage: S,
    pub range: S,
    pub interval: S,
    pub hits_air: bool,
    pub cooldown: S,
    pub target: Option<u64>,
}

/// What sends out troops from a building.
#[derive(Clone, Copy, Debug)]
pub struct Hatch<S> {
    pub interval_secs: S,
    pub card_id: u8,
    pub cooldown: S,
}

/// A building.
#[derive(Clone, Copy, Debug)]
pub struct BuildingCard<S> {
    pub entity: u64,
    pub faction: Faction,
    pub card: u8,
    pub pos: Vec3<S>,
    pub health: Health<S>,
    pub radius: S,
    /// Seconds until it crumbles.
    pub lifetime: S,
    pub attack: Option<Gun<S>>,
    pub spawner: Option<Hatch<S>>,
}

/// The battle.
#[derive(Debug)]
pub struct Skirmish<S> {
    pub monsters: Vec<Monster<S>>,
    pub towers: Vec<Tower<S>>,
    pub buildings: Vec<BuildingCard<S>>,
    pub shots: Vec<Projectile<S>>,
    pub next_entity: u64,
}

/// The battle as a mathematical value.
pub ghost struct Camp<S> {
    pub monsters: Seq<Monster<S>>,
    pub towers: Seq<Tower<S>>,
    pub buildings: Seq<BuildingCard<S>>,
    pub shots: Seq<Projectile<S>>,
    pub next_entity: u64,
}

impl<S: Scalar> View for Skirmish<S> {
    type V = Camp<S>;

    open spec fn view(&self) -> Camp<S> {
        Camp {
            monsters: self.monsters@,
            towers: self.towers@,
            buildings: self.buildings@,
            shots: self.shots@,
            next_entity: self.next_entity,
        }
    }
}

/// A monster in the picture of the field.
#[verifier::allow_in_spec]
pub fn monster_snap<S: Scalar>(m: &Monster<S>) -> UnitSnap<S>
    returns
        (UnitSnap {
            entity: m.entity,
            kind: UnitKind::Troop,
            faction: m.faction,
            pos: m.pos,
            radius: m.radius,
            mass: m.mass,
            flying: m.flying,
        }),
{
    UnitSnap {
        entity: m.entity,
        kind: UnitKind::Troop,
        faction: m.faction,
        pos: m.pos,
        radius: m.radius,
        mass: m.mass,
        flying: m.flying,
    }
}

/// A tower in the picture of the field.
#[verifier::allow_in_spec]
pub fn tower_snap<S: Scalar>(t: &Tower<S>) -> UnitSnap<S>
    returns
        (UnitSnap {
            entity: t.entity,
            kind: UnitKind::Tower,
            faction: t.faction,
            pos: t.pos,
            radius: t.radius,
            mass: zero::<S>(),
            flying: false,
        }),
{
    UnitSnap {
        entity: t.entity,
        kind: UnitKind::Tower,
        faction: t.faction,
        pos: t.pos,
        radius: t.radius,
        mass: zero(),
        flying: false,
    }
}

/// A building in the picture of the field.
#[verifier::allow_in_spec]
pub fn building_snap<S: Scalar>(b: &BuildingCard<S>) -> UnitSnap<S>
    returns
        (UnitSnap {
            entity: b.entity,
            kind: UnitKind::Building,
            faction: b.faction,
            pos: b.pos,
            radius: b.radius,
            mass: zero::<S>(),
            flying: false,
        }),
{
    UnitSnap {
        entity: b.entity,
        kind: UnitKind::Building,
        faction: b.faction,
        pos: b.pos,
        radius: b.radius,
        mass: zero(),
        flying: false,
    }
}

/// Everyone on the field: monsters, towers, buildings.
pub open spec fn roll_call<S: Scalar>(c: Camp<S>) -> Seq<UnitSnap<S>> {
    c.monsters.map_values(|m: Monster<S>| monster_snap(&m)) + c.towers.map_values(
        |t: Tower<S>| tower_snap(&t),
    ) + c.buildings.map_values(|b: BuildingCard<S>| building_snap(&b))
}

fn call_roll<S: Scalar>(s: &Skirmish<S>) -> (r: Vec<UnitSnap<S>>)
    ensures
        r@ == roll_call(s@),
{
    let mut r: Vec<UnitSnap<S>> = Vec::new();
    let (n, k, l): (usize, usize, usize) = (s.monsters.len(), s.towers.len(), s.buildings.len());
    for i in 0..n
        invariant
            n == s.monsters@.len(),
            r@.len() == i,
            forall|j: int| 0 <= j < i ==> r@[j] == monster_snap(&s.monsters@[j]),
    {
        r.push(monster_snap(&s.monsters[i]));
    }
    for i in 0..k
        invariant
            n == s.monsters@.len(),
            k == s.towers@.len(),
            r@.len() == n + i,
            forall|j: int| 0 <= j < n ==> r@[j] == monster_snap(&s.monsters@[j]),
            forall|j: int| 0 <= j < i ==> #[trigger] r@[n + j] == tower_snap(&s.towers@[j]),
    {
        let ghost before = r@;
        r.push(tower_snap(&s.towers[i]));
        assert forall|j: int| 0 <= j < i implies #[trigger] r@[n + j] == tower_snap(&s.towers@[j]) by {
            assert(before[n + j] == r@[n + j]);
        }
    }
    for i in 0..l
        invariant
            n == s.monsters@.len(),
            k == s.towers@.len(),
            l == s.buildings@.len(),
            r@.len() == n + k + i,
            forall|j: int| 0 <= j < n ==> r@[j] == monster_snap(&s.monsters@[j]),
            forall|j: int| 0 <= j < k ==> #[trigger] r@[n + j] == tower_snap(&s.towers@[j]),
            forall|j: int| 0 <= j < i ==> #[trigger] r@[n + k + j] == building_snap(&s.buildings@[j]),
    {
        let ghost before = r@;
        r.push(building_snap(&s.buildings[i]));
        assert forall|j: int| 0 <= j < k implies #[trigger] r@[n + j] == tower_snap(&s.towers@[j]) by {
            assert(before[n + j] == r@[n + j]);
        }
        assert forall|j: int| 0 <= j < i implies #[trigger] r@[n + k + j] == building_snap(
            &s.buildings@[j],
        ) by {
            assert(before[n + k + j] == r@[n + k + j]);
        }
    }
    assert(r@ =~= roll_call(s@)) by {
        assert forall|j: int| 0 <= j < r@.len() implies r@[j] == roll_call(s@)[j] by {
            if j >= n && j < n + k {
                assert(r@[n + (j - n)] == tower_snap(&s.towers@[j - n]));
            } else if j >= n + k {
                assert(r@[n + k + (j - n - k)] == building_snap(&s.buildings@[j - n - k]));
            }
        }
    }
    r
}

/// The place of the first unit with this entity, counted from `from`.
pub open spec fn place_from<S: Scalar>(snaps: Seq<UnitSnap<S>>, entity: u64, from: int) -> Option<int>
    decreases snaps.len() - from,
{
    if from >= snaps.len() {
        None
    } else if snaps[from].entity == entity {
        Some(from)
    } else {
        place_from(snaps, entity, from + 1)
    }
}

/// The unit with this entity.
pub open spec fn seen<S: Scalar>(snaps: Seq<UnitSnap<S>>, entity: u64) -> Option<UnitSnap<S>> {
    match place_from(snaps, entity, 0) {
        Some(k) => Some(snaps[k]),
        None => None,
    }
}

fn look<S: Scalar>(snaps: &Vec<UnitSnap<S>>, entity: u64) -> (r: Option<UnitSnap<S>>)
    ensures
        r == seen(snaps@, entity),
{
    let n: usize = snaps.len();
    let mut i: usize = 0;
    while i < n
        invariant
            n == snaps@.len(),
            i <= n,
            place_from(snaps@, entity, 0) == place_from(snaps@, entity, i as int),
        decreases n - i,
    {
        if snaps[i].entity == entity {
            return Some(snaps[i]);
        }
        i += 1;
    }
    None
}

/// Whether a monster may choose `s` now: an enemy that it can hit, within sight; or, when it
/// only looks for a direction, an enemy structure anywhere.
#[verifier::allow_in_spec]
pub fn eligible<S: Scalar>(m: &Monster<S>, s: &UnitSnap<S>, marching: bool) -> bool
    returns
        (s.faction != m.faction && s.entity != m.entity && can_target(m.hits_air, m.building_only, s) && (
        if marching {
            s.is_building_kind()
        } else {
            edge_dist(m.pos, m.radius, s.pos, s.radius).at_most(m.aggro_range)
        })),
{
    s.faction != m.faction && s.entity != m.entity && can_target(m.hits_air, m.building_only, s) && (
    if marching {
        s.is_building_kind()
    } else {
        edge_dist(m.pos, m.radius, s.pos, s.radius).at_most(m.aggro_range)
    })
}

/// The nearest unit that a monster may choose: of equally near ones the first.
pub open spec fn nearest_spec<S: Scalar>(m: Monster<S>, snaps: Seq<UnitSnap<S>>, marching: bool) -> Option<
    (S, u64),
>
    decreases snaps.len(),
{
    if snaps.len() == 0 {
        None
    } else {
        let best = nearest_spec(m, snaps.drop_last(), marching);
        let s = snaps.last();
        let d2 = m.pos.distance_squared(s.pos);
        if eligible(&m, &s, marching) && (best.is_none() || d2.less((best->0).0)) {
            Some((d2, s.entity))
        } else {
            best
        }
    }
}

fn nearest<S: Scalar>(m: &Monster<S>, snaps: &Vec<UnitSnap<S>>, marching: bool) -> (r: Option<(S, u64)>)
    ensures
        r == nearest_spec(*m, snaps@, marching),
{
    let n: usize = snaps.len();
    let mut best: Option<(S, u64)> = None;
    assert(snaps@.take(0) =~= Seq::<UnitSnap<S>>::empty());
    for i in 0..n
        invariant
            n == snaps@.len(),
            best == nearest_spec(*m, snaps@.take(i as int), marching),
    {
        assert(snaps@.take(i + 1).drop_last() =~= snaps@.take(i as int));
        let s: UnitSnap<S> = snaps[i];
        if eligible(m, &s, marching) {
            let d2: S = m.pos.distance_squared(s.pos);
            let wins: bool = match best {
                Some((d, _)) => d2.less(d),
                None => true,
            };
            if wins {
                best = Some((d2, s.entity));
            }
        }
    }
    assert(snaps@.take(n as int) =~= snaps@);
    best
}

/// Whether a monster keeps its target: an enemy that is still there and, once engaged, in reach.
pub open spec fn holds_on<S: Scalar>(m: Monster<S>, snaps: Seq<UnitSnap<S>>) -> bool {
    m.target matches Some(e) && seen(snaps, e) matches Some(s) && s.faction != m.faction && !(m.engaged
        && m.attack_range.plus(reach_slack()).less(edge_dist(m.pos, m.radius, s.pos, s.radius)))
}

/// A monster with its target for this tick: a kept one is never given up for a nearer one.
pub open spec fn aimed<S: Scalar>(m: Monster<S>, snaps: Seq<UnitSnap<S>>) -> Monster<S> {
    if holds_on(m, snaps) {
        m
    } else {
        let found = match nearest_spec(m, snaps, false) {
            Some(x) => Some(x),
            None => nearest_spec(m, snaps, true),
        };
        Monster {
            target: match found {
                Some((_, e)) => Some(e),
                None => None,
            },
            engaged: if m.target.is_some() { false } else { m.engaged },
            ..m
        }
    }
}

fn aim<S: Scalar>(m: &Monster<S>, snaps: &Vec<UnitSnap<S>>) -> (r: Monster<S>)
    ensures
        r == aimed(*m, snaps@),
{
    let holds: bool = match m.target {
        Some(e) => match look(snaps, e) {
            Some(s) => s.faction != m.faction && !(m.engaged && m.attack_range.plus(reach_slack()).less(
                edge_dist(m.pos, m.radius, s.pos, s.radius),
            )),
            None => false,
        },
        None => false,
    };
    if holds {
        return *m;
    }
    let found: Option<(S, u64)> = match nearest(m, snaps, false) {
        Some(x) => Some(x),
        None => nearest(m, snaps, true),
    };
    let target: Option<u64> = match found {
        Some((_, e)) => Some(e),
        None => None,
    };
    let engaged: bool = if m.target.is_some() { false } else { m.engaged };
    Monster { target, engaged, ..*m }
}

/// The battle after a blow to the unit with this entity.
pub open spec fn struck<S: Scalar>(c: Camp<S>, entity: u64, damage: S) -> Camp<S> {
    match monster_place(c.monsters, entity, 0) {
        Some(i) => Camp {
            monsters: c.monsters.update(
                i,
                Monster { health: c.monsters[i].health.hurt(damage), ..c.monsters[i] },
            ),
            ..c
        },
        None => match tower_place(c.towers, entity, 0) {
            Some(i) => Camp {
                towers: c.towers.update(
                    i,
                    Tower { health: c.towers[i].health.hurt(damage), ..c.towers[i] },
                ),
                ..c
            },
            None => match building_place(c.buildings, entity, 0) {
                Some(i) => Camp {
                    buildings: c.buildings.update(
                        i,
                        BuildingCard { health: c.buildings[i].health.hurt(damage), ..c.buildings[i] },
                    ),
                    ..c
                },
                None => c,
            },
        },
    }
}

/// The place of a monster, counted from `from`.
pub open spec fn monster_place<S: Scalar>(list: Seq<Monster<S>>, entity: u64, from: int) -> Option<int>
    decreases list.len() - from,
{
    if from >= list.len() {
        None
    } else if list[from].entity == entity {
        Some(from)
    } else {
        monster_place(list, entity, from + 1)
    }
}

/// The place of a tower, counted from `from`.
pub open spec fn tower_place<S: Scalar>(list: Seq<Tower<S>>, entity: u64, from: int) -> Option<int>
    decreases list.len() - from,
{
    if from >= list.len() {
        None
    } else if list[from].entity == entity {
        Some(from)
    } else {
        tower_place(list, entity, from + 1)
    }
}

/// The place of a building, counted from `from`.
pub open spec fn building_place<S: Scalar>(list: Seq<BuildingCard<S>>, entity: u64, from: int) -> Option<int>
    decreases list.len() - from,
{
    if from >= list.len() {
        None
    } else if list[from].entity == entity {
        Some(from)
    } else {
        building_place(list, entity, from + 1)
    }
}

proof fn lemma_monster_place<S: Scalar>(list: Seq<Monster<S>>, entity: u64, from: int)
    requires
        0 <= from,
    ensures
        monster_place(list, entity, from) matches Some(k) ==> from <= k < list.len(),
    decreases list.len() - from,
{
    if from < list.len() {
        lemma_monster_place(list, entity, from + 1);
    }
}

/// A blow neither adds nor removes monsters.
pub proof fn lemma_struck_len<S: Scalar>(c: Camp<S>, entity: u64, damage: S)
    ensures
        struck(c, entity, damage).monsters.len() == c.monsters.len(),
{
    lemma_monster_place(c.monsters, entity, 0);
}

fn strike<S: Scalar>(s: &mut Skirmish<S>, entity: u64, damage: S)
    ensures
        final(s)@ == struck(old(s)@, entity, damage),
{
    let n: usize = s.monsters.len();
    let mut i: usize = 0;
    while i < n
        invariant
            n == s.monsters@.len(),
            i <= n,
            s@ == old(s)@,
            monster_place(s.monsters@, entity, 0) == monster_place(s.monsters@, entity, i as int),
        decreases n - i,
    {
        if s.monsters[i].entity == entity {
            let m: Monster<S> = s.monsters[i];
            s.monsters[i] = Monster { health: m.health.hurt(damage), ..m };
            return;
        }
        i += 1;
    }
    let n: usize = s.towers.len();
    let mut i: usize = 0;
    while i < n
        invariant
            n == s.towers@.len(),
            i <= n,
            s@ == old(s)@,
            monster_place(s.monsters@, entity, 0).is_none(),
            tower_place(s.towers@, entity, 0) == tower_place(s.towers@, entity, i as int),
        decreases n - i,
    {
        if s.towers[i].entity == entity {
            let t: Tower<S> = s.towers[i];
            s.towers[i] = Tower { health: t.health.hurt(damage), ..t };
            return;
        }
        i += 1;
    }
    let n: usize = s.buildings.len();
    let mut i: usize = 0;
    while i < n
        invariant
            n == s.buildings@.len(),
            i <= n,
            s@ == old(s)@,
            monster_place(s.monsters@, entity, 0).is_none(),
            tower_place(s.towers@, entity, 0).is_none(),
            building_place(s.buildings@, entity, 0) == building_place(s.buildings@, entity, i as int),
        decreases n - i,
    {
        if s.buildings[i].entity == entity {
            let b: BuildingCard<S> = s.buildings[i];
            s.buildings[i] = BuildingCard { health: b.health.hurt(damage), ..b };
            return;
        }
        i += 1;
    }
}

/// The battle after a blast, as far as it concerns the listed units.
pub open spec fn swept<S: Scalar>(c: Camp<S>, blast: Blast<S>, snaps: Seq<UnitSnap<S>>) -> Camp<S>
    decreases snaps.len(),
{
    if snaps.len() == 0 {
        c
    } else {
        let before = swept(c, blast, snaps.drop_last());
        if blast.reaches(&snaps.last()) {
            struck(before, snaps.last().entity, blast.damage)
        } else {
            before
        }
    }
}

proof fn lemma_swept_len<S: Scalar>(c: Camp<S>, blast: Blast<S>, snaps: Seq<UnitSnap<S>>)
    ensures
        swept(c, blast, snaps).monsters.len() == c.monsters.len(),
    decreases snaps.len(),
{
    if snaps.len() > 0 {
        lemma_swept_len(c, blast, snaps.drop_last());
        lemma_struck_len(swept(c, blast, snaps.drop_last()), snaps.last().entity, blast.damage);
    }
}

fn sweep<S: Scalar>(s: &mut Skirmish<S>, blast: &Blast<S>, snaps: &Vec<UnitSnap<S>>)
    ensures
        final(s)@ == swept(old(s)@, *blast, snaps@),
{
    let n: usize = snaps.len();
    assert(snaps@.take(0) =~= Seq::<UnitSnap<S>>::empty());
    for i in 0..n
        invariant
            n == snaps@.len(),
            s@ == swept(old(s)@, *blast, snaps@.take(i as int)),
    {
        assert(snaps@.take(i + 1).drop_last() =~= snaps@.take(i as int));
        let u: UnitSnap<S> = snaps[i];
        if blast.reaches(&u) {
            strike(s, u.entity, blast.damage);
        }
    }
    assert(snaps@.take(n as int) =~= snaps@);
}

/// How much time a blow is nearer after one tick: more under rage.
#[verifier::allow_in_spec]
pub fn attack_step<S: Scalar>(m: &Monster<S>) -> u64
    returns
        (if zero::<S>().less(m.rage_secs) {
            tick_dt::<S>().times(m.rage_mult).nanos()
        } else {
            TICK_NANOS
        }),
{
    if zero::<S>().less(m.rage_secs) {
        tick_dt::<S>().times(m.rage_mult).nanos()
    } else {
        TICK_NANOS
    }
}

/// The charge of a monster after a blow: a ready one is spent.
#[verifier::allow_in_spec]
pub fn discharged<S: Scalar>(charge: Option<Charge<S>>) -> Option<Charge<S>>
    returns
        (match charge {
            Some(c) => if c.charged() { Some(c.cleared()) } else { Some(c) },
            None => None,
        }),
{
    match charge {
        Some(c) => if c.charged() {
            Some(c.cleared())
        } else {
            Some(c)
        },
        None => None,
    }
}

/// The damage of a blow: more with a ready charge.
#[verifier::allow_in_spec]
pub fn impact<S: Scalar>(m: &Monster<S>) -> S
    returns
        (match m.charge {
            Some(c) => if c.charged() { m.damage.times(c.damage_mult) } else { m.damage },
            None => m.damage,
        }),
{
    match m.charge {
        Some(c) => if c.charged() {
            m.damage.times(c.damage_mult)
        } else {
            m.damage
        },
        None => m.damage,
    }
}

/// The battle after monster `i`, aimed as `m`, has spent a tick on a target in reach.
pub open spec fn clashed<S: Scalar>(
    c: Camp<S>,
    i: int,
    m: Monster<S>,
    target: UnitSnap<S>,
    snaps: Seq<UnitSnap<S>>,
) -> Camp<S> {
    let (timer, due) = timer_spec(m.timer, attack_step(&m));
    let ready = Monster { engaged: true, timer, ..m };
    if !due {
        Camp { monsters: c.monsters.update(i, ready), ..c }
    } else {
        let damage = impact(&m);
        let spent = Camp {
            monsters: c.monsters.update(i, Monster { charge: discharged(m.charge), ..ready }),
            ..c
        };
        if m.ranged {
            Camp {
                shots: c.shots.push(
                    Projectile {
                        target: target.entity,
                        damage,
                        splash_radius: m.splash_radius,
                        hits_air: m.hits_air,
                        attacker: m.faction,
                        pos: m.pos.raised(hundredths(150)),
                    },
                ),
                ..spent
            }
        } else {
            let hit = struck(spent, target.entity, damage);
            if zero::<S>().less(m.splash_radius) {
                swept(
                    hit,
                    Blast {
                        attacker: m.faction,
                        spared: target.entity,
                        hits_air: m.hits_air,
                        center: m.pos,
                        radius: m.splash_radius,
                        damage,
                    },
                    snaps,
                )
            } else {
                hit
            }
        }
    }
}

/// A monster after a step towards its target.
pub open spec fn marched<S: Scalar>(m: Monster<S>, target: UnitSnap<S>) -> Monster<S> {
    let goal = steering_goal(m.pos, target.pos, m.flying);
    let way = goal.minus(m.pos).flat();
    let dist = way.length();
    if !small_distance::<S>().less(dist) {
        m
    } else {
        let charge = match m.charge {
            Some(c) => Some(Charge { progress: c.progress.plus(tick_dt()), ..c }),
            None => None,
        };
        let run = match charge {
            Some(c) => if c.charged() { m.speed.times(c.speed_mult) } else { m.speed },
            None => m.speed,
        };
        let speed = if zero::<S>().less(m.rage_secs) { run.times(m.rage_mult) } else { run };
        let step = speed.times(tick_dt());
        let stop = m.attack_range.plus(m.radius).plus(target.radius);
        let stride = if goal.same(target.pos) {
            step.least(dist.minus(stop).most(zero()))
        } else {
            step.least(dist)
        };
        Monster { charge, pos: m.pos.plus(way.normalized().times(stride)), ..m }
    }
}

fn march<S: Scalar>(m: &Monster<S>, target: &UnitSnap<S>) -> (r: Monster<S>)
    ensures
        r == marched(*m, *target),
{
    let goal: Vec3<S> = steering_goal(m.pos, target.pos, m.flying);
    let way: Vec3<S> = goal.minus(m.pos).flat();
    let dist: S = way.length();
    if !small_distance::<S>().less(dist) {
        return *m;
    }
    let mut speed: S = m.speed;
    let mut charge: Option<Charge<S>> = None;
    if let Some(c) = m.charge {
        let c: Charge<S> = Charge { progress: c.progress.plus(tick_dt()), ..c };
        if c.charged() {
            speed = speed.times(c.speed_mult);
        }
        charge = Some(c);
    }
    if zero::<S>().less(m.rage_secs) {
        speed = speed.times(m.rage_mult);
    }
    let step: S = speed.times(tick_dt());
    let stop: S = m.attack_range.plus(m.radius).plus(target.radius);
    let stride: S = if goal.same(target.pos) {
        step.least(dist.minus(stop).most(zero()))
    } else {
        step.least(dist)
    };
    Monster { charge, pos: m.pos.plus(way.normalized().times(stride)), ..*m }
}

/// A stunned monster one tick later: it only recovers, and its charge is lost.
pub open spec fn recovering<S: Scalar>(m: Monster<S>) -> Monster<S> {
    Monster {
        stun_secs: m.stun_secs.minus(tick_dt()),
        charge: match m.charge {
            Some(c) => Some(c.cleared()),
            None => None,
        },
        ..m
    }
}

/// A monster whose rage, if it has any, is one tick older.
pub open spec fn calmed<S: Scalar>(m: Monster<S>) -> Monster<S> {
    if zero::<S>().less(m.rage_secs) {
        Monster { rage_secs: m.rage_secs.minus(tick_dt()), ..m }
    } else {
        m
    }
}

/// The battle after the turn of monster `i`.
pub open spec fn monster_turn<S: Scalar>(c: Camp<S>, i: int, snaps: Seq<UnitSnap<S>>) -> Camp<S> {
    let m = c.monsters[i];
    if zero::<S>().less(m.stun_secs) {
        Camp { monsters: c.monsters.update(i, recovering(m)), ..c }
    } else {
        let a = aimed(calmed(m), snaps);
        match a.target {
            None => Camp { monsters: c.monsters.update(i, a), ..c },
            Some(e) => match seen(snaps, e) {
                None => Camp { monsters: c.monsters.update(i, a), ..c },
                Some(t) => if edge_dist(a.pos, a.radius, t.pos, t.radius).at_most(
                    a.attack_range.plus(reach_slack()),
                ) {
                    clashed(c, i, a, t, snaps)
                } else {
                    Camp { monsters: c.monsters.update(i, marched(a, t)), ..c }
                },
            },
        }
    }
}

/// The battle after the turns of the first `n` monsters, in order.
pub open spec fn monster_turns<S: Scalar>(c: Camp<S>, n: int, snaps: Seq<UnitSnap<S>>) -> Camp<S>
    decreases n,
{
    if n <= 0 {
        c
    } else {
        monster_turn(monster_turns(c, n - 1, snaps), n - 1, snaps)
    }
}

proof fn lemma_turn_len<S: Scalar>(c: Camp<S>, i: int, snaps: Seq<UnitSnap<S>>)
    requires
        0 <= i < c.monsters.len(),
    ensures
        monster_turn(c, i, snaps).monsters.len() == c.monsters.len(),
{
    let m = aimed(calmed(c.monsters[i]), snaps);
    if let Some(e) = m.target {
        if let Some(t) = seen(snaps, e) {
            let (timer, due) = timer_spec(m.timer, attack_step(&m));
            let ready = Monster { engaged: true, timer, ..m };
            let damage = impact(&m);
            let spent = Camp {
                monsters: c.monsters.update(i, Monster { charge: discharged(m.charge), ..ready }),
                ..c
            };
            lemma_struck_len(spent, t.entity, damage);
            lemma_swept_len(
                struck(spent, t.entity, damage),
                Blast {
                    attacker: m.faction,
                    spared: t.entity,
                    hits_air: m.hits_air,
                    center: m.pos,
                    radius: m.splash_radius,
                    damage,
                },
                snaps,
            );
        }
    }
}

/// How often a monster strikes in some ticks: its timer comes round in so many of them. The
/// monster is given as it stands at its turn in each.
pub open spec fn strikes<S: Scalar>(ms: Seq<Monster<S>>) -> nat
    decreases ms.len(),
{
    if ms.len() == 0 {
        0
    } else {
        let m = ms.last();
        strikes(ms.drop_last()) + (if timer_spec(m.timer, attack_step(&m)).1 { 1nat } else { 0nat })
    }
}

/// Whether the timer of a monster has run from one turn to the next with its target in reach.
pub open spec fn runs_on<S: Scalar>(a: Monster<S>, b: Monster<S>) -> bool {
    b.timer == timer_spec(a.timer, attack_step(&a)).0
}

/// Whether a monster has its target in reach in each of some ticks.
pub open spec fn fighting<S: Scalar>(ms: Seq<Monster<S>>) -> bool {
    forall|i: int, j: int| 0 <= i && j == i + 1 && j < ms.len() ==> #[trigger] runs_on(ms[i], ms[j])
}

/// The same monsters, some of them with another health.
pub open spec fn only_wounded<S: Scalar>(before: Seq<Monster<S>>, after: Seq<Monster<S>>) -> bool {
    &&& before.len() == after.len()
    &&& forall|k: int|
        0 <= k < before.len() ==> (#[trigger] after[k]) == (Monster {
            health: after[k].health,
            ..before[k]
        })
}

proof fn lemma_swept_wounds<S: Scalar>(c: Camp<S>, blast: Blast<S>, snaps: Seq<UnitSnap<S>>)
    ensures
        only_wounded(c.monsters, swept(c, blast, snaps).monsters),
    decreases snaps.len(),
{
    if snaps.len() > 0 {
        lemma_swept_wounds(c, blast, snaps.drop_last());
        let before = swept(c, blast, snaps.drop_last());
        lemma_monster_place(before.monsters, snaps.last().entity, 0);
        let after = swept(c, blast, snaps).monsters;
        assert forall|k: int| 0 <= k < c.monsters.len() implies (#[trigger] after[k]) == (Monster {
            health: after[k].health,
            ..c.monsters[k]
        }) by {
            assert(before.monsters[k] == (Monster { health: before.monsters[k].health, ..c.monsters[k] }));
        }
    }
}

/// A turn with the target in reach runs the timer. If it comes round, the monster strikes: a
/// shot flies, or the target is hurt. Otherwise nothing else changes.
pub proof fn clash_runs_timer<S: Scalar>(
    c: Camp<S>,
    i: int,
    m: Monster<S>,
    target: UnitSnap<S>,
    snaps: Seq<UnitSnap<S>>,
)
    requires
        0 <= i < c.monsters.len(),
    ensures
        ({
            let (timer, due) = timer_spec(m.timer, attack_step(&m));
            let ready = Monster { engaged: true, timer, ..m };
            let spent = Monster { charge: discharged(m.charge), ..ready };
            let after = clashed(c, i, m, target, snaps);
            &&& !due ==> after == (Camp { monsters: c.monsters.update(i, ready), ..c })
            &&& due ==> only_wounded(c.monsters.update(i, spent), after.monsters)
            &&& due && m.ranged ==> after.shots.len() == c.shots.len() + 1
        }),
{
    let (timer, due) = timer_spec(m.timer, attack_step(&m));
    let ready = Monster { engaged: true, timer, ..m };
    let damage = impact(&m);
    let spent = Camp {
        monsters: c.monsters.update(i, Monster { charge: discharged(m.charge), ..ready }),
        ..c
    };
    lemma_monster_place(spent.monsters, target.entity, 0);
    let hit = struck(spent, target.entity, damage);
    assert(only_wounded(spent.monsters, hit.monsters));
    let blast = Blast {
        attacker: m.faction,
        spared: target.entity,
        hits_air: m.hits_air,
        center: m.pos,
        radius: m.splash_radius,
        damage,
    };
    lemma_swept_wounds(hit, blast, snaps);
    let swept_camp = swept(hit, blast, snaps);
    assert forall|k: int| 0 <= k < spent.monsters.len() implies (#[trigger] swept_camp.monsters[k])
        == (Monster { health: swept_camp.monsters[k].health, ..spent.monsters[k] }) by {
        assert(hit.monsters[k] == (Monster { health: hit.monsters[k].health, ..spent.monsters[k] }));
    }
}

/// Whether a monster spends its turn on a target in reach.
pub open spec fn fights<S: Scalar>(m: Monster<S>, snaps: Seq<UnitSnap<S>>) -> bool {
    let a = aimed(calmed(m), snaps);
    &&& !zero::<S>().less(m.stun_secs)
    &&& a.target matches Some(e) && seen(snaps, e) matches Some(t) && edge_dist(
        a.pos,
        a.radius,
        t.pos,
        t.radius,
    ).at_most(a.attack_range.plus(reach_slack()))
}

/// Timers run in reach and nowhere else: after the turns of all, the timer of a monster is one
/// step on if it has spent its own turn on a target in reach, and as it was otherwise.
pub proof fn timers_run_in_reach<S: Scalar>(c: Camp<S>, i: int, snaps: Seq<UnitSnap<S>>)
    requires
        0 <= i < c.monsters.len(),
    ensures
        ({
            let m = monster_turns(c, i, snaps).monsters[i];
            let a = aimed(calmed(m), snaps);
            let after = monster_turns(c, c.monsters.len() as int, snaps).monsters[i];
            &&& a.timer == c.monsters[i].timer
            &&& fights(m, snaps) ==> runs_on(a, after)
            &&& !fights(m, snaps) ==> after.timer == a.timer
        }),
{
    lemma_timers_rest(c, 0, i, i, snaps);
    let before = monster_turns(c, i, snaps);
    lemma_timer_of_turn(before, i, i, snaps);
    lemma_timers_rest(c, i + 1, c.monsters.len() as int, i, snaps);
}

proof fn lemma_timer_of_turn<S: Scalar>(c: Camp<S>, k: int, i: int, snaps: Seq<UnitSnap<S>>)
    requires
        0 <= k < c.monsters.len(),
        0 <= i < c.monsters.len(),
    ensures
        ({
            let m = c.monsters[i];
            let a = aimed(calmed(m), snaps);
            let after = monster_turn(c, k, snaps).monsters[i];
            &&& a.timer == m.timer
            &&& k != i || !fights(m, snaps) ==> after.timer == m.timer
            &&& k == i && fights(m, snaps) ==> runs_on(a, after)
        }),
{
    let m = c.monsters[k];
    let a = aimed(calmed(m), snaps);
    if let Some(e) = a.target {
        if let Some(t) = seen(snaps, e) {
            clash_runs_timer(c, k, a, t, snaps);
            let (timer, due) = timer_spec(a.timer, attack_step(&a));
            let ready = Monster { engaged: true, timer, ..a };
            let spent = Monster { charge: discharged(a.charge), ..ready };
            let after = clashed(c, k, a, t, snaps).monsters;
            if due {
                let base = c.monsters.update(k, spent);
                assert(after[i] == (Monster { health: after[i].health, ..base[i] }));
            }
        }
    }
}

proof fn lemma_turns_len<S: Scalar>(c: Camp<S>, n: int, snaps: Seq<UnitSnap<S>>)
    requires
        n <= c.monsters.len(),
    ensures
        monster_turns(c, n, snaps).monsters.len() == c.monsters.len(),
    decreases n,
{
    if n > 0 {
        lemma_turns_len(c, n - 1, snaps);
        lemma_turn_len(monster_turns(c, n - 1, snaps), n - 1, snaps);
    }
}

proof fn lemma_timers_rest<S: Scalar>(c: Camp<S>, from: int, to: int, i: int, snaps: Seq<UnitSnap<S>>)
    requires
        0 <= from <= to <= c.monsters.len(),
        0 <= i < c.monsters.len(),
        !(from <= i < to),
    ensures
        monster_turns(c, to, snaps).monsters.len() == c.monsters.len(),
        monster_turns(c, from, snaps).monsters.len() == c.monsters.len(),
        monster_turns(c, to, snaps).monsters[i].timer == monster_turns(c, from, snaps).monsters[i].timer,
    decreases to,
{
    if from < to {
        lemma_timers_rest(c, from, to - 1, i, snaps);
        let before = monster_turns(c, to - 1, snaps);
        lemma_timer_of_turn(before, to - 1, i, snaps);
        lemma_turn_len(before, to - 1, snaps);
    } else {
        lemma_turns_len(c, to, snaps);
    }
}

/// Rage never costs a blow: after any number of ticks with the target in reach, a monster under
/// rage has struck at least as often as one that had the same timer and no rage. So its n-th
/// blow comes no later.
///
/// It holds of every factor by which a step of the timer becomes no shorter; what the smallest
/// of them is depends on how finely the numbers are resolved.
pub proof fn rage_hastens_blows<S: Scalar>(raging: Seq<Monster<S>>, calm: Seq<Monster<S>>)
    requires
        raging.len() == calm.len(),
        fighting(raging),
        fighting(calm),
        raging.len() > 0 ==> {
            let t = raging[0].timer;
            &&& calm[0].timer == t
            &&& t.elapsed < t.duration || t.duration == 0
            &&& t.duration == 0 || attack_step(&raging[0]) < 0xffff_ffff * t.duration
            &&& attack_step(&raging[0]) >= TICK_NANOS
        },
        forall|i: int|
            0 <= i < raging.len() ==> zero::<S>().less((#[trigger] raging[i]).rage_secs)
                && raging[i].rage_mult == raging[0].rage_mult,
        forall|i: int| 0 <= i < calm.len() ==> !zero::<S>().less((#[trigger] calm[i]).rage_secs),
    ensures
        strikes(raging) >= strikes(calm),
{
    if raging.len() > 0 {
        let t = raging[0].timer;
        let s = attack_step(&raging[0]);
        assert forall|i: int| 0 <= i < raging.len() implies attack_step(&#[trigger] raging[i]) == s by {
            assert(zero::<S>().less(raging[i].rage_secs));
        }
        assert forall|i: int| 0 <= i < calm.len() implies attack_step(&#[trigger] calm[i]) == TICK_NANOS by {
            assert(!zero::<S>().less(calm[i].rage_secs));
        }
        lemma_strikes(raging, s);
        lemma_strikes(calm, TICK_NANOS);
        lemma_longer_steps(t, TICK_NANOS, s, raging.len());
    }
}

/// In fixed point every factor that exceeds one by at least a two-thousandth makes the steps of
/// the timer longer; a smaller one is lost to rounding.
pub proof fn rage_lengthens_steps(m: Monster<Fixed>)
    requires
        m.rage_secs.raw > 0,
        65569 <= m.rage_mult.raw <= 0x100_0000_0000,
    ensures
        attack_step(&m) > TICK_NANOS,
{
    let raw = m.rage_mult.raw as int;
    lemma_div_basics(65536int);
    assert(tick_dt::<Fixed>().raw == 2184) by {
        lemma_fundamental_div_mod_converse(65536, 30, 2184, 16);
    }
    lemma_div_is_ordered(2184int * 65569int, 2184 * raw, 65536);
    lemma_div_is_ordered(2184 * raw, 2184int * 0x100_0000_0000int, 65536);
    let q = (2184 * raw) / 65536;
    assert(2185 <= q <= 2184 * 0x100_0000);
    assert(tick_dt::<Fixed>().times(m.rage_mult).raw == q);
    lemma_div_is_ordered(2185int * 1_000_000_000int, q * 1_000_000_000, 65536);
    lemma_div_is_ordered(q * 1_000_000_000, 2184int * 0x100_0000int * 1_000_000_000int, 65536);
    assert(zero::<Fixed>().raw == 0) by {
        assert(quotient(0, 1) == 0);
    }
}

/// A timer after `n` steps of the same length, and how often it came round.
pub open spec fn timer_run(t: AttackTimer, step: u64, n: nat) -> (AttackTimer, nat)
    decreases n,
{
    if n == 0 {
        (t, 0)
    } else {
        let (u, rounds) = timer_run(t, step, (n - 1) as nat);
        let (v, due) = timer_spec(u, step);
        (v, rounds + (if due { 1nat } else { 0nat }))
    }
}

proof fn lemma_strikes<S: Scalar>(ms: Seq<Monster<S>>, step: u64)
    requires
        fighting(ms),
        forall|i: int| 0 <= i < ms.len() ==> attack_step(&#[trigger] ms[i]) == step,
        ms.len() > 0,
    ensures
        strikes(ms) == timer_run(ms[0].timer, step, ms.len()).1,
        timer_spec(ms.last().timer, step).0 == timer_run(ms[0].timer, step, ms.len()).0,
    decreases ms.len(),
{
    let n = ms.len();
    let rest = ms.drop_last();
    assert(attack_step(&ms[n - 1]) == step);
    if n == 1 {
        reveal_with_fuel(timer_run, 2);
        reveal_with_fuel(strikes, 2);
    } else {
        assert forall|i: int, j: int| 0 <= i && j == i + 1 && j < rest.len() implies #[trigger] runs_on(
            rest[i],
            rest[j],
        ) by {
            assert(runs_on(ms[i], ms[j]));
        }
        assert forall|i: int| 0 <= i < rest.len() implies attack_step(&#[trigger] rest[i]) == step by {
            assert(attack_step(&ms[i]) == step);
        }
        lemma_strikes(rest, step);
        assert(runs_on(ms[n - 2], ms[n - 1]));
        assert(rest.last() == ms[n - 2]);
        assert(attack_step(&ms[n - 2]) == step);
    }
}

/// A timer that runs in longer steps comes round in at least as many of them.
proof fn lemma_longer_steps(t: AttackTimer, short: u64, long: u64, n: nat)
    requires
        short <= long,
        t.elapsed < t.duration || t.duration == 0,
        t.duration == 0 || long < 0xffff_ffff * t.duration,
    ensures
        timer_run(t, short, n).1 <= timer_run(t, long, n).1,
{
    lemma_timer_run(t, short, n);
    lemma_timer_run(t, long, n);
    if long < t.duration {
        let (u, a) = timer_run(t, short, n);
        let (v, b) = timer_run(t, long, n);
        assert(n * short <= n * long) by (nonlinear_arith)
            requires
                short <= long,
        ;
        let d = t.duration;
        assert(a <= b) by (nonlinear_arith)
            requires
                a * d + u.elapsed <= b * d + v.elapsed,
                0 <= u.elapsed,
                0 <= v.elapsed < d,
        ;
    }
}

proof fn lemma_timer_run(t: AttackTimer, step: u64, n: nat)
    requires
        t.elapsed < t.duration || t.duration == 0,
        t.duration == 0 || step < 0xffff_ffff * t.duration,
    ensures
        ({
            let (u, rounds) = timer_run(t, step, n);
            &&& u.duration == t.duration
            &&& u.elapsed < u.duration || u.duration == 0
            &&& rounds <= n
            &&& step < t.duration ==> rounds * t.duration + u.elapsed == t.elapsed + n * step
            &&& step >= t.duration ==> rounds == n
        }),
    decreases n,
{
    if n > 0 {
        lemma_timer_run(t, step, (n - 1) as nat);
        let (u, rounds) = timer_run(t, step, (n - 1) as nat);
        let d = t.duration as int;
        let total = u.elapsed + step;
        if step < d {
            assert(n * step == (n - 1) * step + step) by (nonlinear_arith)
                requires
                    n >= 1,
            ;
            assert((rounds + 1) * d == rounds * d + d) by (nonlinear_arith);
            if total >= d {
                lemma_fundamental_div_mod_converse(total, d, 1, total - d);
            }
        } else if d > 0 {
            lemma_fundamental_div_mod(total, d);
            lemma_mod_bound(total, d);
            let q = total / d;
            assert(1 <= q < 0x1_0000_0000) by (nonlinear_arith)
                requires
                    total == d * q + total % d,
                    0 <= total % d < d,
                    d <= total,
                    total < 0x1_0000_0000 * d,
                    d > 0,
            ;
        }
    }
}

fn clash<S: Scalar>(
    s: &mut Skirmish<S>,
    i: usize,
    m: &Monster<S>,
    target: &UnitSnap<S>,
    snaps: &Vec<UnitSnap<S>>,
)
    requires
        i < old(s).monsters@.len(),
    ensures
        final(s)@ == clashed(old(s)@, i as int, *m, *target, snaps@),
{
    let (timer, due): (AttackTimer, bool) = run_timer(m.timer, attack_step(m));
    let ready: Monster<S> = Monster { engaged: true, timer, ..*m };
    if !due {
        s.monsters[i] = ready;
        return;
    }
    let damage: S = impact(m);
    s.monsters[i] = Monster { charge: discharged(m.charge), ..ready };
    if m.ranged {
        s.shots.push(
            Projectile {
                target: target.entity,
                damage,
                splash_radius: m.splash_radius,
                hits_air: m.hits_air,
                attacker: m.faction,
                pos: m.pos.raised(hundredths(150)),
            },
        );
    } else {
        strike(s, target.entity, damage);
        if zero::<S>().less(m.splash_radius) {
            let blast: Blast<S> = Blast {
                attacker: m.faction,
                spared: target.entity,
                hits_air: m.hits_air,
                center: m.pos,
                radius: m.splash_radius,
                damage,
            };
            sweep(s, &blast, snaps);
        }
    }
}

/// Lets every monster take its turn, by the positions before any of them moved: stunned ones
/// recover; the others look for a target, strike it if it is in reach and walk if it is not.
pub fn monster_ai<S: Scalar>(s: &mut Skirmish<S>)
    ensures
        final(s)@ == monster_turns(
            old(s)@,
            old(s).monsters@.len() as int,
            roll_call(old(s)@),
        ),
        final(s).monsters@.len() == old(s).monsters@.len(),
{
    let snaps: Vec<UnitSnap<S>> = call_roll(s);
    let n: usize = s.monsters.len();
    let ghost start = s@;
    for i in 0..n
        invariant
            n == start.monsters.len(),
            n == s.monsters@.len(),
            s@ == monster_turns(start, i as int, snaps@),
    {
        let ghost before = s@;
        proof {
            lemma_turn_len(before, i as int, snaps@);
        }
        let m: Monster<S> = s.monsters[i];
        if zero::<S>().less(m.stun_secs) {
            let charge: Option<Charge<S>> = match m.charge {
                Some(c) => Some(c.cleared()),
                None => None,
            };
            s.monsters[i] = Monster { stun_secs: m.stun_secs.minus(tick_dt()), charge, ..m };
        } else {
            let calm: Monster<S> = if zero::<S>().less(m.rage_secs) {
                Monster { rage_secs: m.rage_secs.minus(tick_dt()), ..m }
            } else {
                m
            };
            let a: Monster<S> = aim(&calm, &snaps);
            let target: Option<UnitSnap<S>> = match a.target {
                Some(e) => look(&snaps, e),
                None => None,
            };
            match target {
                None => {
                    s.monsters[i] = a;
                },
                Some(t) => {
                    if edge_dist(a.pos, a.radius, t.pos, t.radius).at_most(
                        a.attack_range.plus(reach_slack()),
                    ) {
                        clash(s, i, &a, &t, &snaps);
                    } else {
                        s.monsters[i] = march(&a, &t);
                    }
                },
            }
        }
        assert(s@ == monster_turn(before, i as int, snaps@));
    }
}

/// A target that is kept while it lives, and while the monster was never pushed away from it,
/// is not given up for whoever comes nearer.
pub proof fn targets_are_kept<S: Scalar>(m: Monster<S>, snaps: Seq<UnitSnap<S>>, s: UnitSnap<S>)
    requires
        m.target == Some(s.entity),
        seen(snaps, s.entity) == Some(s),
        s.faction != m.faction,
        !m.engaged,
    ensures
        aimed(m, snaps).target == m.target,
{
}

proof fn lemma_nearest_seen<S: Scalar>(m: Monster<S>, snaps: Seq<UnitSnap<S>>, marching: bool, all: Seq<UnitSnap<S>>)
    requires
        snaps.len() <= all.len(),
        snaps == all.take(snaps.len() as int),
    ensures
        nearest_spec(m, snaps, marching) matches Some((_, e)) ==> seen(all, e).is_some(),
    decreases snaps.len(),
{
    if snaps.len() > 0 {
        assert(snaps.drop_last() =~= all.take(snaps.len() - 1));
        lemma_nearest_seen(m, snaps.drop_last(), marching, all);
        lemma_place_exists(all, 0, snaps.len() - 1);
    }
}

proof fn lemma_place_exists<S: Scalar>(snaps: Seq<UnitSnap<S>>, from: int, k: int)
    requires
        0 <= from <= k < snaps.len(),
    ensures
        place_from(snaps, snaps[k].entity, from).is_some(),
    decreases snaps.len() - from,
{
    if from < k {
        lemma_place_exists(snaps, from + 1, k);
    }
}

/// Whoever a monster aims at is on the field.
pub proof fn targets_are_present<S: Scalar>(m: Monster<S>, snaps: Seq<UnitSnap<S>>)
    ensures
        aimed(m, snaps).target matches Some(e) ==> seen(snaps, e).is_some(),
{
    assert(snaps =~= snaps.take(snaps.len() as int));
    lemma_nearest_seen(m, snaps, false, snaps);
    lemma_nearest_seen(m, snaps, true, snaps);
}

/// A stunned monster neither moves, nor strikes, nor forgets its target.
pub proof fn stunned_monsters_wait<S: Scalar>(c: Camp<S>, i: int, snaps: Seq<UnitSnap<S>>)
    requires
        0 <= i < c.monsters.len(),
        zero::<S>().less(c.monsters[i].stun_secs),
    ensures
        monster_turn(c, i, snaps).monsters[i].pos == c.monsters[i].pos,
        monster_turn(c, i, snaps).monsters[i].target == c.monsters[i].target,
        monster_turn(c, i, snaps).shots == c.shots,
        monster_turn(c, i, snaps).towers == c.towers,
        monster_turn(c, i, snaps).buildings == c.buildings,
        forall|j: int|
            0 <= j < c.monsters.len() && j != i ==> monster_turn(c, i, snaps).monsters[j] == c.monsters[j],
{
}

/// The nearest monster that a guard can shoot at.
pub open spec fn prey_spec<S: Scalar>(
    pos: Vec3<S>,
    radius: S,
    faction: Faction,
    range: S,
    hits_air: bool,
    monsters: Seq<Monster<S>>,
) -> Option<(S, u64)>
    decreases monsters.len(),
{
    if monsters.len() == 0 {
        None
    } else {
        let best = prey_spec(pos, radius, faction, range, hits_air, monsters.drop_last());
        let m = monsters.last();
        let d2 = pos.distance_squared(m.pos);
        if in_sights(pos, radius, faction, range, hits_air, &m) && (best.is_none() || d2.less(
            (best->0).0,
        )) {
            Some((d2, m.entity))
        } else {
            best
        }
    }
}

/// Whether a guard can shoot at a monster: an enemy in range, a flyer only if it hits air.
#[verifier::allow_in_spec]
pub fn in_sights<S: Scalar>(
    pos: Vec3<S>,
    radius: S,
    faction: Faction,
    range: S,
    hits_air: bool,
    m: &Monster<S>,
) -> bool
    returns
        (m.faction != faction && (m.flying ==> hits_air) && edge_dist(pos, radius, m.pos, m.radius).at_most(
            range,
        )),
{
    m.faction != faction && (hits_air || !m.flying) && edge_dist(pos, radius, m.pos, m.radius).at_most(
        range,
    )
}

fn prey<S: Scalar>(
    pos: Vec3<S>,
    radius: S,
    faction: Faction,
    range: S,
    hits_air: bool,
    monsters: &Vec<Monster<S>>,
) -> (r: Option<(S, u64)>)
    ensures
        r == prey_spec(pos, radius, faction, range, hits_air, monsters@),
{
    let n: usize = monsters.len();
    let mut best: Option<(S, u64)> = None;
    assert(monsters@.take(0) =~= Seq::<Monster<S>>::empty());
    for i in 0..n
        invariant
            n == monsters@.len(),
            best == prey_spec(pos, radius, faction, range, hits_air, monsters@.take(i as int)),
    {
        assert(monsters@.take(i + 1).drop_last() =~= monsters@.take(i as int));
        let m: &Monster<S> = &monsters[i];
        if in_sights(pos, radius, faction, range, hits_air, m) {
            let d2: S = pos.distance_squared(m.pos);
            let wins: bool = match best {
                Some((d, _)) => d2.less(d),
                None => true,
            };
            if wins {
                best = Some((d2, m.entity));
            }
        }
    }
    assert(monsters@.take(n as int) =~= monsters@);
    best
}

/// The target of a guard for this tick: the one it has while it can shoot at it, else the nearest.
pub open spec fn watched<S: Scalar>(
    pos: Vec3<S>,
    radius: S,
    faction: Faction,
    range: S,
    hits_air: bool,
    target: Option<u64>,
    monsters: Seq<Monster<S>>,
) -> Option<u64> {
    if target matches Some(e) && monster_place(monsters, e, 0) matches Some(k) && in_sights(
        pos,
        radius,
        faction,
        range,
        hits_air,
        &monsters[k],
    ) {
        target
    } else {
        match prey_spec(pos, radius, faction, range, hits_air, monsters) {
            Some((_, e)) => Some(e),
            None => None,
        }
    }
}

fn watch<S: Scalar>(
    pos: Vec3<S>,
    radius: S,
    faction: Faction,
    range: S,
    hits_air: bool,
    target: Option<u64>,
    monsters: &Vec<Monster<S>>,
) -> (r: Option<u64>)
    ensures
        r == watched(pos, radius, faction, range, hits_air, target, monsters@),
{
    if let Some(e) = target {
        let n: usize = monsters.len();
        let mut i: usize = 0;
        while i < n
            invariant_except_break
                monster_place(monsters@, e, 0) == monster_place(monsters@, e, i as int),
            invariant
                n == monsters@.len(),
                i <= n,
                target == Some(e),
            ensures
                monster_place(monsters@, e, 0) matches Some(k) ==> !in_sights(
                    pos,
                    radius,
                    faction,
                    range,
                    hits_air,
                    &monsters@[k],
                ),
            decreases n - i,
        {
            if monsters[i].entity == e {
                if in_sights(pos, radius, faction, range, hits_air, &monsters[i]) {
                    return target;
                }
                break;
            }
            i += 1;
        }
    }
    match prey(pos, radius, faction, range, hits_air, monsters) {
        Some((_, e)) => Some(e),
        None => None,
    }
}

/// A shot of a guard.
#[verifier::allow_in_spec]
pub fn guard_shot<S: Scalar>(target: u64, damage: S, hits_air: bool, faction: Faction, muzzle: Vec3<S>) -> Projectile<
    S,
>
    returns
        (Projectile {
            target,
            damage,
            splash_radius: zero::<S>(),
            hits_air,
            attacker: faction,
            pos: muzzle,
        }),
{
    Projectile { target, damage, splash_radius: zero(), hits_air, attacker: faction, pos: muzzle }
}

/// A tower after its turn, and its shot if it fires: the timer runs only while it has a target.
pub open spec fn tower_turn<S: Scalar>(t: Tower<S>, monsters: Seq<Monster<S>>) -> (Tower<S>, Option<Projectile<S>>) {
    let target = watched(t.pos, t.radius, t.faction, t.attack_range, true, t.target, monsters);
    match target {
        None => (Tower { target, ..t }, None),
        Some(e) => {
            let (timer, due) = timer_spec(t.timer, TICK_NANOS);
            (
                Tower { target, timer, ..t },
                if due {
                    Some(
                        guard_shot(e, tower_attack_damage(), true, t.faction, t.pos.raised(hundredths(350))),
                    )
                } else {
                    None
                },
            )
        },
    }
}

/// The shots that the first `n` towers fire.
pub open spec fn tower_shots<S: Scalar>(towers: Seq<Tower<S>>, monsters: Seq<Monster<S>>, n: int) -> Seq<Projectile<S>>
    decreases n,
{
    if n <= 0 {
        Seq::empty()
    } else {
        let rest = tower_shots(towers, monsters, n - 1);
        match tower_turn(towers[n - 1], monsters).1 {
            Some(p) => rest.push(p),
            None => rest,
        }
    }
}

/// Lets every tower take its turn: it shoots at the nearest enemy monster in range, and stays
/// with it while it is in range.
pub fn tower_ai<S: Scalar>(s: &mut Skirmish<S>)
    ensures
        final(s)@ == (Camp {
            towers: old(s)@.towers.map_values(|t: Tower<S>| tower_turn(t, old(s)@.monsters).0),
            shots: old(s)@.shots + tower_shots(
                old(s)@.towers,
                old(s)@.monsters,
                old(s)@.towers.len() as int,
            ),
            ..old(s)@
        }),
{
    let n: usize = s.towers.len();
    let ghost start = s@;
    assert(start.shots + tower_shots(start.towers, start.monsters, 0) =~= start.shots);
    for i in 0..n
        invariant
            n == start.towers.len(),
            n == s.towers@.len(),
            s@ == (Camp { towers: s@.towers, shots: s@.shots, ..start }),
            forall|j: int| i <= j < n ==> s.towers@[j] == start.towers[j],
            forall|j: int| 0 <= j < i ==> s.towers@[j] == tower_turn(start.towers[j], start.monsters).0,
            s.shots@ == start.shots + tower_shots(start.towers, start.monsters, i as int),
    {
        let t: Tower<S> = s.towers[i];
        let target: Option<u64> = watch(
            t.pos,
            t.radius,
            t.faction,
            t.attack_range,
            true,
            t.target,
            &s.monsters,
        );
        let ghost shots = s.shots@;
        match target {
            None => {
                s.towers[i] = Tower { target, ..t };
            },
            Some(e) => {
                let (timer, due): (AttackTimer, bool) = run_timer(t.timer, TICK_NANOS);
                s.towers[i] = Tower { target, timer, ..t };
                if due {
                    s.shots.push(
                        guard_shot(e, tower_attack_damage(), true, t.faction, t.pos.raised(hundredths(350))),
                    );
                }
            },
        }
        assert(s.shots@ =~= start.shots + tower_shots(start.towers, start.monsters, i + 1));
    }
    assert(s@.towers =~= start.towers.map_values(|t: Tower<S>| tower_turn(t, start.monsters).0));
}

/// A monster of a card as it is sent out.
pub open spec fn recruit_spec<S: Scalar>(
    entity: u64,
    faction: Faction,
    card: u8,
    spec: MonsterSpec<S>,
    pos: Vec3<S>,
) -> Monster<S> {
    Monster {
        entity,
        faction,
        card,
        pos: pos.raised(
            whole::<S>(2).times(spec.radius).plus(if spec.flying { fly_height() } else { zero() }),
        ),
        health: Health::new(spec.hp),
        radius: spec.radius,
        mass: spec.mass,
        damage: spec.damage,
        attack_range: spec.attack_range,
        aggro_range: spec.aggro_range,
        speed: spec.speed,
        ranged: spec.ranged,
        splash_radius: spec.splash_radius,
        hits_air: spec.hits_air,
        flying: spec.flying,
        building_only: spec.building_only,
        target: None,
        engaged: false,
        charge: match spec.charge {
            Some(c) => Some(idle_charge(c)),
            None => None,
        },
        stun_secs: zero(),
        rage_secs: zero(),
        rage_mult: one(),
        timer: AttackTimer { elapsed: 0, duration: spec.attack_interval.nanos() },
    }
}

/// A monster of a card as it is sent out.
pub fn recruit<S: Scalar>(entity: u64, faction: Faction, card: u8, spec: &MonsterSpec<S>, pos: Vec3<S>) -> (r:
    Monster<S>)
    ensures
        r == recruit_spec(entity, faction, card, *spec, pos),
{
    let lift: S = if spec.flying { fly_height() } else { zero() };
    Monster {
        entity,
        faction,
        card,
        pos: pos.raised(whole::<S>(2).times(spec.radius).plus(lift)),
        health: Health::new(spec.hp),
        radius: spec.radius,
        mass: spec.mass,
        damage: spec.damage,
        attack_range: spec.attack_range,
        aggro_range: spec.aggro_range,
        speed: spec.speed,
        ranged: spec.ranged,
        splash_radius: spec.splash_radius,
        hits_air: spec.hits_air,
        flying: spec.flying,
        building_only: spec.building_only,
        target: None,
        engaged: false,
        charge: match spec.charge {
            Some(c) => Some(idle_charge(c)),
            None => None,
        },
        stun_secs: zero(),
        rage_secs: zero(),
        rage_mult: one(),
        timer: AttackTimer { elapsed: 0, duration: spec.attack_interval.nanos() },
    }
}

/// A gun after its turn, and whom it fires at: the cooldown always runs.
pub open spec fn gun_turn<S: Scalar>(
    g: Gun<S>,
    b: BuildingCard<S>,
    monsters: Seq<Monster<S>>,
) -> (Gun<S>, Option<u64>) {
    let target = watched(b.pos, b.radius, b.faction, g.range, g.hits_air, g.target, monsters);
    let cooldown = g.cooldown.minus(tick_dt());
    if target.is_some() && cooldown.at_most(zero()) {
        (Gun { target, cooldown: g.interval, ..g }, target)
    } else {
        (Gun { target, cooldown, ..g }, None)
    }
}

/// A hatch after its turn, and whether it sends a troop out.
#[verifier::allow_in_spec]
pub fn hatch_turn<S: Scalar>(h: Hatch<S>) -> (Hatch<S>, bool)
    returns
        (if h.cooldown.minus(tick_dt()).at_most(zero()) {
            (Hatch { cooldown: h.interval_secs, ..h }, true)
        } else {
            (Hatch { cooldown: h.cooldown.minus(tick_dt()), ..h }, false)
        }),
{
    let cooldown: S = h.cooldown.minus(tick_dt());
    if cooldown.at_most(zero()) {
        (Hatch { cooldown: h.interval_secs, ..h }, true)
    } else {
        (Hatch { cooldown, ..h }, false)
    }
}

/// A building after its turn, as long as it stands.
pub open spec fn building_after<S: Scalar>(b: BuildingCard<S>, monsters: Seq<Monster<S>>) -> BuildingCard<S> {
    BuildingCard {
        lifetime: b.lifetime.minus(tick_dt()),
        attack: match b.attack {
            Some(g) => Some(gun_turn(g, b, monsters).0),
            None => None,
        },
        spawner: match b.spawner {
            Some(h) => Some(hatch_turn(h).0),
            None => None,
        },
        ..b
    }
}

/// The troop that a hatch sends out, if its card is a troop.
pub open spec fn brood<S: Scalar>(c: Camp<S>, b: BuildingCard<S>) -> Camp<S> {
    match b.spawner {
        Some(h) if hatch_turn(h).1 => match card_spec::<S>(h.card_id) {
            Some(spec) => match spec.kind {
                CardKind::Troop(m) => Camp {
                    monsters: c.monsters.push(
                        recruit_spec(c.next_entity, b.faction, h.card_id, m, b.pos.flat()),
                    ),
                    next_entity: c.next_entity.wrapping_add(1),
                    ..c
                },
                _ => c,
            },
            None => c,
        },
        _ => c,
    }
}

/// The battle after the turn of one building, which looks at the monsters of the start of the
/// turn; those in `c` are the ones that go on.
pub open spec fn building_turn<S: Scalar>(
    c: Camp<S>,
    b: BuildingCard<S>,
    monsters: Seq<Monster<S>>,
) -> Camp<S> {
    if b.lifetime.minus(tick_dt()).at_most(zero()) {
        c
    } else {
        let fired = match b.attack {
            Some(g) => match gun_turn(g, b, monsters).1 {
                Some(e) => Camp {
                    shots: c.shots.push(
                        guard_shot(e, g.damage, g.hits_air, b.faction, b.pos.raised(hundredths(120))),
                    ),
                    ..c
                },
                None => c,
            },
            None => c,
        };
        brood(
            Camp { buildings: fired.buildings.push(building_after(b, monsters)), ..fired },
            b,
        )
    }
}

/// The battle after the turns of the listed buildings, in order.
pub open spec fn building_turns<S: Scalar>(c: Camp<S>, buildings: Seq<BuildingCard<S>>, monsters: Seq<Monster<S>>) -> Camp<
    S,
>
    decreases buildings.len(),
{
    if buildings.len() == 0 {
        c
    } else {
        building_turn(
            building_turns(c, buildings.drop_last(), monsters),
            buildings.last(),
            monsters,
        )
    }
}

fn run_gun<S: Scalar>(g: &Gun<S>, b: &BuildingCard<S>, monsters: &Vec<Monster<S>>) -> (r: (
    Gun<S>,
    Option<u64>,
))
    ensures
        r == gun_turn(*g, *b, monsters@),
{
    let target: Option<u64> = watch(
        b.pos,
        b.radius,
        b.faction,
        g.range,
        g.hits_air,
        g.target,
        monsters,
    );
    let cooldown: S = g.cooldown.minus(tick_dt());
    if target.is_some() && cooldown.at_most(zero()) {
        (Gun { target, cooldown: g.interval, ..*g }, target)
    } else {
        (Gun { target, cooldown, ..*g }, None)
    }
}

/// Lets every building take its turn: it ages and crumbles in the end, its gun shoots at the
/// nearest enemy monster in range, its hatch sends out troops.
pub fn building_ai<S: Scalar>(s: &mut Skirmish<S>)
    ensures
        final(s)@ == building_turns(
            Camp { buildings: Seq::empty(), ..old(s)@ },
            old(s)@.buildings,
            old(s)@.monsters,
        ),
{
    let ghost start = Camp { buildings: Seq::empty(), ..s@ };
    let ghost all = s.buildings@;
    let ghost monsters = s.monsters@;
    let mut kept: Vec<BuildingCard<S>> = Vec::new();
    let mut born: Vec<Monster<S>> = Vec::new();
    let n: usize = s.buildings.len();
    assert(all.take(0) =~= Seq::<BuildingCard<S>>::empty());
    assert(monsters + born@ =~= monsters);
    for i in 0..n
        invariant
            n == all.len(),
            s.buildings@ == all,
            s.monsters@ == monsters,
            s.towers@ == start.towers,
            (Camp { buildings: kept@, monsters: monsters + born@, ..s@ }) == building_turns(
                start,
                all.take(i as int),
                monsters,
            ),
    {
        assert(all.take(i + 1).drop_last() =~= all.take(i as int));
        let b: BuildingCard<S> = s.buildings[i];
        let lifetime: S = b.lifetime.minus(tick_dt());
        if !lifetime.at_most(zero()) {
            let mut attack: Option<Gun<S>> = None;
            if let Some(g) = b.attack {
                let (gun, fires): (Gun<S>, Option<u64>) = run_gun(&g, &b, &s.monsters);
                if let Some(e) = fires {
                    s.shots.push(
                        guard_shot(e, g.damage, g.hits_air, b.faction, b.pos.raised(hundredths(120))),
                    );
                }
                attack = Some(gun);
            }
            let mut spawner: Option<Hatch<S>> = None;
            let ghost before = born@;
            if let Some(h) = b.spawner {
                let (hatch, due): (Hatch<S>, bool) = hatch_turn(h);
                if due {
                    if let Some(spec) = card::<S>(h.card_id) {
                        if let CardKind::Troop(m) = spec.kind {
                            born.push(
                                recruit(s.next_entity, b.faction, h.card_id, &m, b.pos.flat()),
                            );
                            s.next_entity = s.next_entity.wrapping_add(1);
                            assert(monsters + born@ =~= (monsters + before).push(born@.last()));
                        }
                    }
                }
                spawner = Some(hatch);
            }
            kept.push(BuildingCard { lifetime, attack, spawner, ..b });
        }
    }
    assert(all.take(n as int) =~= all);
    s.monsters.append(&mut born);
    s.buildings = kept;
}

/// A position moved out of a tower or building.
#[verifier::allow_in_spec]
pub fn nudged<S: Scalar>(pos: Vec3<S>, radius: S, center: Vec3<S>, static_radius: S) -> Vec3<S>
    returns
        (if pos.minus(center).flat().length().less(static_radius.plus(radius)) && small_distance::<S>().less(
            pos.minus(center).flat().length(),
        ) {
            pos.plus(
                pos.minus(center).flat().normalized().times(
                    static_radius.plus(radius).minus(pos.minus(center).flat().length()),
                ),
            )
        } else {
            pos
        }),
{
    let diff: Vec3<S> = pos.minus(center).flat();
    let dist: S = diff.length();
    let min_dist: S = static_radius.plus(radius);
    if dist.less(min_dist) && small_distance::<S>().less(dist) {
        pos.plus(diff.normalized().times(min_dist.minus(dist)))
    } else {
        pos
    }
}

/// A position moved out of the towers, one after the other.
pub open spec fn clear_of_towers<S: Scalar>(pos: Vec3<S>, radius: S, towers: Seq<Tower<S>>) -> Vec3<S>
    decreases towers.len(),
{
    if towers.len() == 0 {
        pos
    } else {
        nudged(
            clear_of_towers(pos, radius, towers.drop_last()),
            radius,
            towers.last().pos,
            towers.last().radius,
        )
    }
}

/// A position moved out of the buildings, one after the other.
pub open spec fn clear_of_buildings<S: Scalar>(pos: Vec3<S>, radius: S, buildings: Seq<BuildingCard<S>>) -> Vec3<
    S,
>
    decreases buildings.len(),
{
    if buildings.len() == 0 {
        pos
    } else {
        nudged(
            clear_of_buildings(pos, radius, buildings.drop_last()),
            radius,
            buildings.last().pos,
            buildings.last().radius,
        )
    }
}

/// A monster outside of all towers and buildings; flyers pass over them.
pub open spec fn kept_off<S: Scalar>(m: Monster<S>, towers: Seq<Tower<S>>, buildings: Seq<BuildingCard<S>>) -> Monster<
    S,
> {
    if m.flying {
        m
    } else {
        Monster {
            pos: clear_of_buildings(
                clear_of_towers(m.pos, m.radius, towers),
                m.radius,
                buildings,
            ),
            ..m
        }
    }
}

/// Moves monsters on the ground out of towers and buildings.
pub fn separate_from_towers<S: Scalar>(s: &mut Skirmish<S>)
    ensures
        final(s)@ == (Camp {
            monsters: old(s)@.monsters.map_values(
                |m: Monster<S>| kept_off(m, old(s)@.towers, old(s)@.buildings),
            ),
            ..old(s)@
        }),
{
    let n: usize = s.monsters.len();
    let k: usize = s.towers.len();
    let l: usize = s.buildings.len();
    let ghost start = s@;
    for i in 0..n
        invariant
            n == start.monsters.len(),
            n == s.monsters@.len(),
            k == start.towers.len(),
            l == start.buildings.len(),
            s@ == (Camp { monsters: s@.monsters, ..start }),
            forall|j: int| i <= j < n ==> s.monsters@[j] == start.monsters[j],
            forall|j: int|
                0 <= j < i ==> s.monsters@[j] == kept_off(
                    start.monsters[j],
                    start.towers,
                    start.buildings,
                ),
    {
        let m: Monster<S> = s.monsters[i];
        if !m.flying {
            let mut pos: Vec3<S> = m.pos;
            assert(start.towers.take(0) =~= Seq::<Tower<S>>::empty());
            for a in 0..k
                invariant
                    k == s.towers@.len(),
                    s.towers@ == start.towers,
                    pos == clear_of_towers(m.pos, m.radius, start.towers.take(a as int)),
            {
                assert(start.towers.take(a + 1).drop_last() =~= start.towers.take(a as int));
                pos = nudged(pos, m.radius, s.towers[a].pos, s.towers[a].radius);
            }
            assert(start.towers.take(k as int) =~= start.towers);
            let ghost mid = pos;
            assert(start.buildings.take(0) =~= Seq::<BuildingCard<S>>::empty());
            for a in 0..l
                invariant
                    l == s.buildings@.len(),
                    s.buildings@ == start.buildings,
                    pos == clear_of_buildings(mid, m.radius, start.buildings.take(a as int)),
            {
                assert(start.buildings.take(a + 1).drop_last() =~= start.buildings.take(a as int));
                pos = nudged(pos, m.radius, s.buildings[a].pos, s.buildings[a].radius);
            }
            assert(start.buildings.take(l as int) =~= start.buildings);
            s.monsters[i] = Monster { pos, ..m };
        }
    }
    assert(s@.monsters =~= start.monsters.map_values(
        |m: Monster<S>| kept_off(m, start.towers, start.buildings),
    ));
}

/// A monster kept out of the river; flyers pass over it.
#[verifier::allow_in_spec]
pub fn banked<S: Scalar>(m: Monster<S>) -> Monster<S>
    returns
        (if m.flying { m } else { Monster { pos: ashore(m.pos), ..m } }),
{
    if m.flying {
        m
    } else {
        Monster { pos: ashore(m.pos), ..m }
    }
}

/// Puts monsters on the ground that were pushed into the river back on the bank.
pub fn keep_out_of_river<S: Scalar>(s: &mut Skirmish<S>)
    ensures
        final(s)@ == (Camp {
            monsters: old(s)@.monsters.map_values(|m: Monster<S>| banked(m)),
            ..old(s)@
        }),
{
    let n: usize = s.monsters.len();
    let ghost start = s@;
    for i in 0..n
        invariant
            n == start.monsters.len(),
            n == s.monsters@.len(),
            s@ == (Camp { monsters: s@.monsters, ..start }),
            forall|j: int| i <= j < n ==> s.monsters@[j] == start.monsters[j],
            forall|j: int| 0 <= j < i ==> s.monsters@[j] == banked(start.monsters[j]),
    {
        let m: Monster<S> = s.monsters[i];
        s.monsters[i] = banked(m);
    }
    assert(s@.monsters =~= start.monsters.map_values(|m: Monster<S>| banked(m)));
}

/// The push between two monsters on the ground that overlap.
#[verifier::allow_in_spec]
pub fn shove<S: Scalar>(a: &Monster<S>, b: &Monster<S>) -> Option<Vec3<S>>
    returns
        (if !a.flying && !b.flying && a.pos.minus(b.pos).flat().length().less(a.radius.plus(b.radius))
            && small_distance::<S>().less(a.pos.minus(b.pos).flat().length()) {
            Some(
                a.pos.minus(b.pos).flat().normalized().over(a.pos.minus(b.pos).flat().length()),
            )
        } else {
            None
        }),
{
    if a.flying || b.flying {
        return None;
    }
    let diff: Vec3<S> = a.pos.minus(b.pos).flat();
    let dist: S = diff.length();
    if dist.less(a.radius.plus(b.radius)) && small_distance::<S>().less(dist) {
        Some(diff.normalized().over(dist))
    } else {
        None
    }
}

/// The forces after the pair `i`, `j`: the lighter takes the greater share.
pub open spec fn paired<S: Scalar>(forces: Seq<Vec3<S>>, monsters: Seq<Monster<S>>, i: int, j: int) -> Seq<
    Vec3<S>,
> {
    match shove(&monsters[i], &monsters[j]) {
        None => forces,
        Some(f) => {
            let total = monsters[i].mass.plus(monsters[j].mass);
            forces.update(i, forces[i].plus(f.times(monsters[j].mass.over(total)))).update(
                j,
                forces[j].minus(f.times(monsters[i].mass.over(total))),
            )
        },
    }
}

/// The forces after the pairs of `i` with those between it and `j`.
pub open spec fn row_paired<S: Scalar>(forces: Seq<Vec3<S>>, monsters: Seq<Monster<S>>, i: int, j: int) -> Seq<
    Vec3<S>,
>
    decreases j - i,
{
    if j <= i + 1 {
        forces
    } else {
        paired(row_paired(forces, monsters, i, j - 1), monsters, i, j - 1)
    }
}

/// The forces after all pairs whose first is among the first `n`.
pub open spec fn all_paired<S: Scalar>(monsters: Seq<Monster<S>>, n: int) -> Seq<Vec3<S>>
    decreases n,
{
    if n <= 0 {
        Seq::new(monsters.len(), |k: int| Vec3::<S>::origin())
    } else {
        row_paired(all_paired(monsters, n - 1), monsters, n - 1, monsters.len() as int)
    }
}

/// A monster after a push.
pub open spec fn shoved<S: Scalar>(m: Monster<S>, force: Vec3<S>) -> Monster<S> {
    let d = force.flat();
    let mag = d.length();
    if m.flying || !small_distance::<S>().less(mag) {
        m
    } else {
        let capped = if max_steering_force::<S>().less(mag) {
            d.times(max_steering_force::<S>().over(mag))
        } else {
            d
        };
        Monster { pos: m.pos.plus(capped.times(tick_dt())), ..m }
    }
}

fn shove_off<S: Scalar>(m: &Monster<S>, force: Vec3<S>) -> (r: Monster<S>)
    ensures
        r == shoved(*m, force),
{
    let d: Vec3<S> = force.flat();
    let mag: S = d.length();
    if m.flying || !small_distance::<S>().less(mag) {
        return *m;
    }
    let capped: Vec3<S> = if max_steering_force::<S>().less(mag) {
        d.times(max_steering_force::<S>().over(mag))
    } else {
        d
    };
    Monster { pos: m.pos.plus(capped.times(tick_dt())), ..*m }
}

/// Pushes monsters on the ground apart, every pair of them.
pub fn separate_monsters<S: Scalar>(s: &mut Skirmish<S>)
    ensures
        final(s)@ == (Camp {
            monsters: Seq::new(
                old(s)@.monsters.len(),
                |k: int|
                    shoved(
                        old(s)@.monsters[k],
                        all_paired(old(s)@.monsters, old(s)@.monsters.len() as int)[k],
                    ),
            ),
            ..old(s)@
        }),
{
    let n: usize = s.monsters.len();
    let ghost start = s@;
    let ghost ms = start.monsters;
    let mut forces: Vec<Vec3<S>> = Vec::new();
    for k in 0..n
        invariant
            forces@.len() == k,
            forall|j: int| 0 <= j < k ==> forces@[j] == Vec3::<S>::origin(),
    {
        forces.push(Vec3::origin());
    }
    assert(forces@ =~= all_paired(ms, 0));
    for i in 0..n
        invariant
            n == ms.len(),
            s@ == start,
            ms == start.monsters,
            forces@.len() == n,
            forces@ == all_paired(ms, i as int),
    {
        let ghost before = forces@;
        let mut j: usize = i + 1;
        while j < n
            invariant
                n == ms.len(),
                s@ == start,
                ms == start.monsters,
                i < j <= n,
                forces@.len() == n,
                forces@ == row_paired(before, ms, i as int, j as int),
            decreases n - j,
        {
            let a: Monster<S> = s.monsters[i];
            let b: Monster<S> = s.monsters[j];
            if let Some(f) = shove(&a, &b) {
                let total: S = a.mass.plus(b.mass);
                let fi: Vec3<S> = forces[i].plus(f.times(b.mass.over(total)));
                let fj: Vec3<S> = forces[j].minus(f.times(a.mass.over(total)));
                forces[i] = fi;
                forces[j] = fj;
            }
            j += 1;
        }
    }
    for i in 0..n
        invariant
            n == ms.len(),
            n == s.monsters@.len(),
            ms == start.monsters,
            forces@.len() == n,
            forces@ == all_paired(ms, n as int),
            s@ == (Camp { monsters: s@.monsters, ..start }),
            forall|j: int| i <= j < n ==> s.monsters@[j] == ms[j],
            forall|j: int| 0 <= j < i ==> s.monsters@[j] == shoved(ms[j], forces@[j]),
    {
        let m: Monster<S> = s.monsters[i];
        s.monsters[i] = shove_off(&m, forces[i]);
    }
    assert(s@.monsters =~= Seq::new(ms.len(), |k: int| shoved(ms[k], all_paired(ms, ms.len() as int)[k])));
}

/// Flyers are neither pushed, nor kept from the river, nor blocked.
pub proof fn flyers_pass<S: Scalar>(
    m: Monster<S>,
    force: Vec3<S>,
    towers: Seq<Tower<S>>,
    buildings: Seq<BuildingCard<S>>,
)
    requires
        m.flying,
    ensures
        shoved(m, force) == m,
        banked(m) == m,
        kept_off(m, towers, buildings) == m,
{
}

/// Those of a list that are not towers.
pub open spec fn bodies<S: Scalar>(snaps: Seq<UnitSnap<S>>) -> Seq<UnitSnap<S>>
    decreases snaps.len(),
{
    if snaps.len() == 0 {
        Seq::empty()
    } else {
        let rest = bodies(snaps.drop_last());
        if snaps.last().kind == UnitKind::Tower { rest } else { rest.push(snaps.last()) }
    }
}

fn pick_bodies<S: Scalar>(snaps: &Vec<UnitSnap<S>>) -> (r: Vec<UnitSnap<S>>)
    ensures
        r@ == bodies(snaps@),
{
    let n: usize = snaps.len();
    let mut r: Vec<UnitSnap<S>> = Vec::new();
    assert(snaps@.take(0) =~= Seq::<UnitSnap<S>>::empty());
    for i in 0..n
        invariant
            n == snaps@.len(),
            r@ == bodies(snaps@.take(i as int)),
    {
        assert(snaps@.take(i + 1).drop_last() =~= snaps@.take(i as int));
        if snaps[i].kind != UnitKind::Tower {
            r.push(snaps[i]);
        }
    }
    assert(snaps@.take(n as int) =~= snaps@);
    r
}

/// Whether a shot reaches a unit within this tick.
#[verifier::allow_in_spec]
pub fn arrives<S: Scalar>(shot: &Projectile<S>, target: &UnitSnap<S>) -> bool
    returns
        target.pos.minus(shot.pos).length().at_most(
            projectile_speed::<S>().times(tick_dt()).plus(target.radius.times(hundredths(50))),
        ),
{
    target.pos.minus(shot.pos).length().at_most(
        projectile_speed::<S>().times(tick_dt()).plus(target.radius.times(hundredths(50))),
    )
}

/// The battle after a hit: the target is hurt, and with a splash what stands around it, but for
/// towers.
pub open spec fn landed<S: Scalar>(c: Camp<S>, shot: Projectile<S>, center: Vec3<S>) -> Camp<S> {
    let hit = struck(c, shot.target, shot.damage);
    if zero::<S>().less(shot.splash_radius) {
        swept(hit, shell(&shot, center), bodies(roll_call(c)))
    } else {
        hit
    }
}

/// The battle after one tick of one shot; the shots in `c` are those still on their way.
pub open spec fn flown<S: Scalar>(c: Camp<S>, shot: Projectile<S>) -> Camp<S> {
    match seen(roll_call(c), shot.target) {
        None => c,
        Some(t) => if arrives(&shot, &t) {
            landed(c, shot, t.pos)
        } else {
            Camp { shots: c.shots.push(advanced(shot, t.pos)), ..c }
        },
    }
}

/// The battle after one tick of the listed shots, in order.
pub open spec fn all_flown<S: Scalar>(c: Camp<S>, shots: Seq<Projectile<S>>) -> Camp<S>
    decreases shots.len(),
{
    if shots.len() == 0 {
        c
    } else {
        flown(all_flown(c, shots.drop_last()), shots.last())
    }
}

/// Moves every shot; those that hit or whose target is gone are removed.
pub fn move_projectiles<S: Scalar>(s: &mut Skirmish<S>)
    ensures
        final(s)@ == all_flown(Camp { shots: Seq::empty(), ..old(s)@ }, old(s)@.shots),
{
    let mut shots: Vec<Projectile<S>> = Vec::new();
    core::mem::swap(&mut s.shots, &mut shots);
    let ghost start = s@;
    assert(start.shots =~= Seq::<Projectile<S>>::empty());
    let n: usize = shots.len();
    assert(shots@.take(0) =~= Seq::<Projectile<S>>::empty());
    for i in 0..n
        invariant
            n == shots@.len(),
            s@ == all_flown(start, shots@.take(i as int)),
    {
        assert(shots@.take(i + 1).drop_last() =~= shots@.take(i as int));
        let shot: Projectile<S> = shots[i];
        let snaps: Vec<UnitSnap<S>> = call_roll(s);
        if let Some(t) = look(&snaps, shot.target) {
            if arrives(&shot, &t) {
                strike(s, shot.target, shot.damage);
                if zero::<S>().less(shot.splash_radius) {
                    let around: Vec<UnitSnap<S>> = pick_bodies(&snaps);
                    sweep(s, &shell(&shot, t.pos), &around);
                }
            } else {
                s.shots.push(advanced(shot, t.pos));
            }
        }
    }
    assert(shots@.take(n as int) =~= shots@);
}

} // verus!
