//! The systems of combat, in single precision.

use cr_arena::buffs::{ActiveBuff, Buffs};
use cr_arena::combat::attack::attacking;
use cr_arena::combat::grid::{Seeker, SpatialGrid};
use cr_arena::combat::movement::{moving, steering_goal};
use cr_arena::combat::physics::{keep_out_of_river, separate_from_statics, separate_monsters};
use cr_arena::combat::projectile::move_projectiles;
use cr_arena::combat::status::status_effects;
use cr_arena::combat::targeting::{targeting, WorldSnaps};
use cr_arena::combat::UnitSnap;
use cr_arena::components::{
    cc_channels, Actor, Attacker, CCFlags, Charge, Faction, Health, Op, Projectile, Spawner, StackPolicy, StatKind,
    StatMod, TargetPolicy, Unit, UnitKind,
};
use cr_arena::constants::{card, max_steering_force, monster_radius_max, tick_dt, CardKind};
use cr_arena::scalar::Scalar;
use cr_arena::sim::building_lifetime;
use cr_arena::spawn::building_spawner;
use cr_arena::vector::Vec3;

/// Single precision as the numbers of the simulation.
#[derive(Clone, Copy, PartialEq, PartialOrd, Debug)]
struct Real(f32);

impl Scalar for Real {
    fn ratio_spec(num: i64, den: i64) -> Self {
        Self::ratio(num, den)
    }
    fn ratio(num: i64, den: i64) -> Self {
        Real(num as f32 / den as f32)
    }
    fn infinity_spec() -> Self {
        Self::infinity()
    }
    fn infinity() -> Self {
        Real(f32::INFINITY)
    }
    fn plus_spec(self, other: Self) -> Self {
        self.plus(other)
    }
    fn plus(self, other: Self) -> Self {
        Real(self.0 + other.0)
    }
    fn minus_spec(self, other: Self) -> Self {
        self.minus(other)
    }
    fn minus(self, other: Self) -> Self {
        Real(self.0 - other.0)
    }
    fn times_spec(self, other: Self) -> Self {
        self.times(other)
    }
    fn times(self, other: Self) -> Self {
        Real(self.0 * other.0)
    }
    fn over_spec(self, other: Self) -> Self {
        self.over(other)
    }
    fn over(self, other: Self) -> Self {
        Real(self.0 / other.0)
    }
    fn root_spec(self) -> Self {
        self.root()
    }
    fn root(self) -> Self {
        Real(self.0.sqrt())
    }
    fn magnitude_spec(self) -> Self {
        self.magnitude()
    }
    fn magnitude(self) -> Self {
        Real(self.0.abs())
    }
    fn sign_spec(self) -> Self {
        self.sign()
    }
    fn sign(self) -> Self {
        Real(self.0.signum())
    }
    fn negated_spec(self) -> Self {
        self.negated()
    }
    fn negated(self) -> Self {
        Real(-self.0)
    }
    fn least_spec(self, other: Self) -> Self {
        self.least(other)
    }
    fn least(self, other: Self) -> Self {
        Real(self.0.min(other.0))
    }
    fn most_spec(self, other: Self) -> Self {
        self.most(other)
    }
    fn most(self, other: Self) -> Self {
        Real(self.0.max(other.0))
    }
    fn ceiling_spec(self) -> Self {
        self.ceiling()
    }
    fn ceiling(self) -> Self {
        Real(self.0.ceil())
    }
    fn fraction_spec(self) -> Self {
        self.fraction()
    }
    fn fraction(self) -> Self {
        Real(self.0.fract())
    }
    fn truncated_spec(self) -> i64 {
        self.truncated()
    }
    fn truncated(self) -> i64 {
        self.0 as i64
    }
    fn nanos_spec(self) -> u64 {
        self.nanos()
    }
    fn nanos(self) -> u64 {
        if self.0 > 0.0 {
            match std::time::Duration::try_from_secs_f32(self.0) {
                Ok(d) => u64::try_from(d.as_nanos()).unwrap_or(u64::MAX),
                Err(_) => u64::MAX,
            }
        } else {
            0
        }
    }
    fn bits_spec(self) -> u32 {
        self.bits()
    }
    fn bits(self) -> u32 {
        self.0.to_bits()
    }
    fn less_spec(self, other: Self) -> bool {
        self.less(other)
    }
    fn less(self, other: Self) -> bool {
        self.0 < other.0
    }
    fn at_most_spec(self, other: Self) -> bool {
        self.at_most(other)
    }
    fn at_most(self, other: Self) -> bool {
        self.0 <= other.0
    }
    fn same_spec(self, other: Self) -> bool {
        self.same(other)
    }
    fn same(self, other: Self) -> bool {
        self.0 == other.0
    }
    fn less_irreflexive(_a: Self) {}
    fn less_transitive(_a: Self, _b: Self, _c: Self) {}
    fn less_excludes_at_most(_a: Self, _b: Self) {}
    fn least_bounded(_a: Self, _b: Self) {}
    fn whole_less(_a: i64, _b: i64) {}
    fn whole_negated(_a: i64) {}
    fn unit_factor(_num: i64, _den: i64) {}
    fn at_most_reflexive(_a: Self) {}
    fn at_most_transitive(_a: Self, _b: Self, _c: Self) {}
    fn less_carries(_a: Self, _b: Self, _c: Self) {}
    fn minus_monotone(_a: Self, _b: Self, _c: Self, _d: Self) {}
    fn minus_shrinks(_a: Self, _d: Self) {}
    fn times_monotone(_k: Self, _a: Self, _b: Self) {}
}

fn v(x: f32, y: f32, z: f32) -> Vec3<Real> {
    Vec3 { x: Real(x), y: Real(y), z: Real(z) }
}

struct Field {
    units: Vec<Actor<Real>>,
    buffs: Vec<Option<Buffs<Real>>>,
    shots: Vec<Projectile<Real>>,
    next: u64,
}

impl Field {
    fn new() -> Self {
        Field { units: Vec::new(), buffs: Vec::new(), shots: Vec::new(), next: 0 }
    }

    fn add(&mut self, a: Actor<Real>) -> u64 {
        let e = self.next;
        self.next += 1;
        self.units.push(Actor { entity: e, ..a });
        self.buffs.push(None);
        e
    }

    fn get(&self, e: u64) -> Actor<Real> {
        *self.units.iter().find(|a| a.entity == e).unwrap()
    }

    fn get_mut(&mut self, e: u64) -> &mut Actor<Real> {
        self.units.iter_mut().find(|a| a.entity == e).unwrap()
    }

    fn target(&self, e: u64) -> Option<u64> {
        self.get(e).attacker.unwrap().target
    }

    fn aim(&mut self) -> WorldSnaps<Real> {
        targeting(&mut self.units, &self.buffs)
    }

    fn aim_and_strike(&mut self) {
        let snaps = self.aim();
        attacking(&mut self.units, &mut self.shots, &self.buffs, &snaps);
    }

    fn aim_and_move(&mut self) {
        let snaps = self.aim();
        moving(&mut self.units, &self.buffs, &snaps);
    }
}

fn attacker() -> Attacker<Real> {
    Attacker {
        damage: Real(100.0),
        attack_range: Real(0.75),
        interval: Real(1.0),
        cooldown: Real(1.0),
        splash_radius: Real(0.0),
        hits_air: false,
        ranged: false,
        target: None,
        engaged: false,
    }
}

fn body(unit: Unit<Real>, hp: f32, pos: Vec3<Real>) -> Actor<Real> {
    Actor {
        entity: 0,
        unit,
        pos,
        health: Health::new(Real(hp)),
        attacker: None,
        targeting: None,
        mover: None,
        charge: None,
        flying: false,
        king: false,
        lifetime: None,
        spawner: None,
    }
}

fn seeker(faction: Faction, pos: Vec3<Real>) -> Actor<Real> {
    Actor {
        attacker: Some(attacker()),
        targeting: Some(TargetPolicy::Seek { aggro_range: Real(5.0), building_only: false }),
        mover: Some(Real(1.5)),
        ..body(Unit::troop(faction, 0, Real(0.5), Real(1.0)), 2000.0, pos)
    }
}

fn guard_tower(faction: Faction, pos: Vec3<Real>) -> Actor<Real> {
    Actor {
        attacker: Some(Attacker {
            damage: Real(200.0),
            attack_range: Real(6.0),
            hits_air: true,
            ranged: true,
            ..attacker()
        }),
        targeting: Some(TargetPolicy::Guard),
        ..body(Unit::tower(faction, Real(1.0)), 6000.0, pos)
    }
}

fn distance(a: Vec3<Real>, b: Vec3<Real>) -> f32 {
    let d = a.minus(b);
    (d.x.0 * d.x.0 + d.y.0 * d.y.0 + d.z.0 * d.z.0).sqrt()
}

#[test]
fn monsters_aggro_each_other() {
    let mut f = Field::new();
    let a = f.add(seeker(Faction::Player, v(0.0, 1.0, -2.0)));
    let b = f.add(seeker(Faction::Enemy, v(0.0, 1.0, 2.0)));
    f.aim();
    assert_eq!(f.target(a), Some(b));
    assert_eq!(f.target(b), Some(a));
}

#[test]
fn marching_monster_retargets_to_enemy_entering_aggro() {
    let mut f = Field::new();
    let tower = f.add(guard_tower(Faction::Enemy, v(0.0, 0.0, 12.5)));
    let m = f.add(seeker(Faction::Player, v(0.0, 1.0, -5.0)));
    f.aim();
    assert_eq!(f.target(m), Some(tower));
    assert!(!f.get(m).attacker.unwrap().engaged);
    let e = f.add(seeker(Faction::Enemy, v(0.0, 1.0, -1.0)));
    f.aim();
    assert_eq!(f.target(m), Some(e));
}

#[test]
fn nearer_tower_beats_farther_monster() {
    let mut f = Field::new();
    let tower = f.add(guard_tower(Faction::Enemy, v(0.0, 0.0, -1.0)));
    f.add(seeker(Faction::Enemy, v(4.5, 1.0, -5.0)));
    let m = f.add(seeker(Faction::Player, v(0.0, 1.0, -5.0)));
    f.aim();
    assert_eq!(f.target(m), Some(tower));
}

#[test]
fn targeting_engaged_on_tower_never_retargets() {
    let mut f = Field::new();
    let tower = f.add(guard_tower(Faction::Enemy, v(0.0, 0.0, 12.5)));
    let m = f.add(seeker(Faction::Player, v(0.0, 1.0, 11.3)));
    f.aim_and_strike();
    assert_eq!(f.target(m), Some(tower));
    assert!(f.get(m).attacker.unwrap().engaged);
    f.add(seeker(Faction::Enemy, v(0.0, 1.0, 9.0)));
    f.aim_and_strike();
    assert_eq!(f.target(m), Some(tower));
}

#[test]
fn targeting_pushed_out_of_range_breaks_lock() {
    let mut f = Field::new();
    let tower = f.add(guard_tower(Faction::Enemy, v(0.0, 0.0, 12.5)));
    let m = f.add(seeker(Faction::Player, v(0.0, 1.0, 11.3)));
    f.aim_and_strike();
    assert_eq!(f.target(m), Some(tower));
    assert!(f.get(m).attacker.unwrap().engaged);
    f.get_mut(m).pos = v(0.0, 1.0, 9.0);
    let e = f.add(seeker(Faction::Enemy, v(0.0, 1.0, 8.0)));
    f.aim_and_strike();
    assert_eq!(f.target(m), Some(e));
}

#[test]
fn targeting_building_only_ignores_monsters() {
    let mut f = Field::new();
    let tower = f.add(guard_tower(Faction::Enemy, v(0.0, 0.0, 12.5)));
    let g = f.add(Actor {
        unit: Unit::troop(Faction::Player, 0, Real(0.5), Real(3.0)),
        targeting: Some(TargetPolicy::Seek { aggro_range: Real(5.0), building_only: true }),
        mover: Some(Real(1.0)),
        health: Health::new(Real(5000.0)),
        ..seeker(Faction::Player, v(0.0, 1.0, -5.0))
    });
    f.add(seeker(Faction::Enemy, v(0.0, 1.0, -1.0)));
    f.aim();
    assert_eq!(f.target(g), Some(tower));
}

#[test]
fn targeting_ground_unit_cannot_target_flying() {
    let mut f = Field::new();
    let tower = f.add(guard_tower(Faction::Enemy, v(0.0, 0.0, 12.5)));
    let knight = f.add(seeker(Faction::Player, v(0.0, 1.0, -5.0)));
    f.add(Actor {
        flying: true,
        targeting: Some(TargetPolicy::Seek { aggro_range: Real(3.0), building_only: false }),
        mover: Some(Real(2.0)),
        health: Health::new(Real(320.0)),
        ..seeker(Faction::Enemy, v(0.0, 2.6, -5.4))
    });
    f.aim();
    assert_eq!(f.target(knight), Some(tower));
}

#[test]
fn guard_tower_targets_and_releases() {
    let mut f = Field::new();
    let tower = f.add(guard_tower(Faction::Enemy, v(0.0, 0.0, 8.5)));
    let m = f.add(seeker(Faction::Player, v(0.0, 1.0, 12.5)));
    f.aim();
    assert_eq!(f.target(tower), Some(m));
    f.get_mut(m).pos = v(0.0, 1.0, 16.5);
    f.aim();
    assert_eq!(f.target(tower), None);
}

#[test]
fn attack_melee_splash_hits_nearby_enemy() {
    let mut f = Field::new();
    let a = f.add(seeker(Faction::Enemy, v(0.9, 1.0, 0.0)));
    let b = f.add(seeker(Faction::Enemy, v(0.0, 1.0, 1.0)));
    f.add(Actor {
        attacker: Some(Attacker { splash_radius: Real(1.5), ..attacker() }),
        ..seeker(Faction::Player, v(0.0, 1.0, 0.0))
    });
    for _ in 0..35 {
        f.aim_and_strike();
    }
    assert!(f.get(a).health.current.0 < 2000.0);
    assert!(f.get(b).health.current.0 < 2000.0);
}

#[test]
fn two_knights_fight() {
    let mut f = Field::new();
    let a = f.add(Actor { mover: Some(Real(3.0)), ..seeker(Faction::Player, v(0.0, 1.0, -2.0)) });
    let b = f.add(Actor { mover: Some(Real(3.0)), ..seeker(Faction::Enemy, v(0.0, 1.0, 2.0)) });
    for i in 0..121 {
        let snaps = f.aim();
        attacking(&mut f.units, &mut f.shots, &f.buffs, &snaps);
        moving(&mut f.units, &f.buffs, &snaps);
        if i == 0 {
            assert_eq!(f.target(a), Some(b));
            assert_eq!(f.target(b), Some(a));
        }
    }
    assert!(distance(f.get(a).pos, f.get(b).pos) < 2.0);
    assert!(f.get(a).health.current.0 < 2000.0 && f.get(b).health.current.0 < 2000.0);
}

#[test]
fn movement_charge_accelerates_after_windup() {
    let mut f = Field::new();
    f.add(Actor {
        attacker: Some(attacker()),
        health: Health::new(Real(60000.0)),
        ..guard_tower(Faction::Enemy, v(0.0, 0.0, 12.5))
    });
    let e = f.add(Actor {
        charge: Some(Charge {
            progress: Real(0.0),
            windup: Real(0.5),
            speed_mult: Real(3.0),
            damage_mult: Real(2.0),
        }),
        ..seeker(Faction::Player, v(0.0, 1.0, -5.0))
    });
    let start = f.get(e).pos;
    for _ in 0..20 {
        f.aim_and_move();
    }
    assert!(distance(f.get(e).pos, start) > 1.25);
}

#[test]
fn flying_units_go_straight() {
    let mut f = Field::new();
    f.add(Actor {
        attacker: Some(attacker()),
        health: Health::new(Real(60000.0)),
        ..guard_tower(Faction::Enemy, v(0.0, 0.0, 8.5))
    });
    let e = f.add(Actor {
        flying: true,
        mover: Some(Real(1.0)),
        health: Health::new(Real(320.0)),
        ..seeker(Faction::Player, v(0.0, 2.6, -5.0))
    });
    for _ in 0..60 {
        f.aim_and_move();
    }
    let p = f.get(e).pos;
    assert!(p.x.0.abs() < 0.05 && p.z.0 + 5.0 > 1.0);
}

#[test]
fn physics_heavy_pushes_light_more() {
    let mut f = Field::new();
    let heavy = f.add(body(
        Unit::troop(Faction::Player, 0, Real(0.5), Real(3.0)),
        1.0,
        v(0.0, 1.0, 0.0),
    ));
    let light = f.add(body(
        Unit::troop(Faction::Player, 0, Real(0.5), Real(0.3)),
        1.0,
        v(0.6, 1.0, 0.0),
    ));
    let snaps = f.aim();
    separate_monsters(&mut f.units, &snaps);
    let heavy_move = distance(f.get(heavy).pos, v(0.0, 1.0, 0.0));
    let light_move = distance(f.get(light).pos, v(0.6, 1.0, 0.0));
    assert!(light_move > heavy_move * 3.0);
    let cap = max_steering_force::<Real>().0 * tick_dt::<Real>().0 + 1e-6;
    assert!(light_move <= cap);
    assert!(heavy_move <= cap);
}

fn stun(secs: f32) -> ActiveBuff<Real> {
    ActiveBuff {
        name: "Stun",
        secs: Real(secs),
        stacks: 1,
        policy: StackPolicy::Longer,
        flags: CCFlags::stun(),
        effects: vec![],
    }
}

fn rage(pct: f32, secs: f32) -> ActiveBuff<Real> {
    ActiveBuff {
        name: "Rage",
        secs: Real(secs),
        stacks: 1,
        policy: StackPolicy::Refresh,
        flags: CCFlags::none(),
        effects: vec![
            StatMod { stat: StatKind::MoveSpeed, op: Op::Pct, value: Real(pct) },
            StatMod { stat: StatKind::AttackSpeed, op: Op::Pct, value: Real(pct) },
        ],
    }
}

#[test]
fn status_stun_freezes_monster() {
    let mut f = Field::new();
    f.add(Actor {
        attacker: Some(attacker()),
        ..guard_tower(Faction::Enemy, v(0.0, 0.0, 12.5))
    });
    let e = f.add(seeker(Faction::Player, v(0.0, 1.0, -5.0)));
    f.buffs[1] = Some(Buffs::new(stun(1.0)));
    for _ in 0..29 {
        status_effects(&mut f.units, &mut f.buffs);
        f.aim_and_move();
    }
    assert_eq!(f.get(e).pos.x, Real(0.0));
    assert_eq!(f.get(e).pos.y, Real(1.0));
    assert_eq!(f.get(e).pos.z, Real(-5.0));
    for _ in 0..10 {
        status_effects(&mut f.units, &mut f.buffs);
        f.aim_and_move();
    }
    assert!(f.get(e).pos.z.0 > -5.0);
    assert!(f.buffs[1].is_none());
}

#[test]
fn building_spawns_and_fires() {
    let mut f = Field::new();
    f.add(Actor {
        lifetime: Some(Real(100.0)),
        spawner: Some(Spawner { interval: Real(4.0), card_id: 1, cooldown: Real(4.0) }),
        ..body(Unit::building(Faction::Player, 20, Real(0.6)), 800.0, v(-4.0, 0.7, -5.0))
    });
    f.add(Actor {
        lifetime: Some(Real(100.0)),
        attacker: Some(Attacker {
            damage: Real(90.0),
            attack_range: Real(5.0),
            interval: Real(0.9),
            cooldown: Real(0.0),
            ranged: true,
            ..attacker()
        }),
        targeting: Some(TargetPolicy::Guard),
        ..body(Unit::building(Faction::Enemy, 19, Real(0.6)), 1400.0, v(4.0, 0.7, 5.0))
    });
    f.add(seeker(Faction::Player, v(4.0, 1.0, 1.0)));
    for _ in 0..125 {
        let snaps = f.aim();
        attacking(&mut f.units, &mut f.shots, &f.buffs, &snaps);
        moving(&mut f.units, &f.buffs, &snaps);
        building_lifetime(&mut f.units, &mut f.buffs);
        building_spawner(&mut f.units, &mut f.buffs, &mut f.next);
    }
    let skeletons = f.units.iter().filter(|a| a.unit.card == Some(1)).count();
    assert_eq!(skeletons, 1);
    let fired = f.shots.iter().filter(|p| p.attacker == Faction::Enemy).count();
    assert!(fired > 0);
}

#[test]
fn buildings_building_expires_after_lifetime() {
    let mut f = Field::new();
    f.add(Actor {
        lifetime: Some(Real(1.0)),
        ..body(Unit::building(Faction::Player, 19, Real(0.6)), 1400.0, v(0.0, 0.7, -5.0))
    });
    for _ in 0..35 {
        building_lifetime(&mut f.units, &mut f.buffs);
    }
    assert_eq!(f.units.len(), 0);
    assert_eq!(f.buffs.len(), 0);
}

struct Noise(u32);

impl Noise {
    fn next(&mut self) -> u32 {
        self.0 ^= self.0 << 13;
        self.0 ^= self.0 >> 17;
        self.0 ^= self.0 << 5;
        self.0
    }
}

fn snap(i: usize, pos: Vec3<Real>, faction: Faction, flying: bool) -> UnitSnap<Real> {
    UnitSnap {
        entity: i as u64,
        kind: UnitKind::Troop,
        faction,
        pos,
        radius: Real(0.5),
        mass: Real(1.0),
        flying,
    }
}

fn dist_xz(a: Vec3<Real>, b: Vec3<Real>) -> f32 {
    let d = a.minus(b);
    (d.x.0 * d.x.0 + d.z.0 * d.z.0).sqrt()
}

#[test]
fn query_nearest_matches_brute_force() {
    let mut rng = Noise(0x9E37_79B9);
    for case in 0..40 {
        let mut grid = SpatialGrid::new();
        let mut snaps = Vec::new();
        for i in 0..50 {
            let x = (rng.next() % 3200) as f32 / 100.0 - 16.0;
            let z = (rng.next() % 4800) as f32 / 100.0 - 24.0;
            let flying = rng.next() % 4 == 0;
            let y = if flying { 2.6 } else { 1.0 };
            let faction = if i % 2 == 0 { Faction::Player } else { Faction::Enemy };
            snaps.push(snap(i, v(x, y, z), faction, flying));
        }
        grid.clear();
        for (i, s) in snaps.iter().enumerate() {
            grid.insert(s.pos, i as u32);
        }
        let pos = v(
            (rng.next() % 3200) as f32 / 100.0 - 16.0,
            1.0,
            (rng.next() % 4800) as f32 / 100.0 - 24.0,
        );
        let (self_r, range) = (0.5f32, 6.0f32);
        let seeker = Seeker {
            entity: 1000,
            faction: Faction::Player,
            pos,
            radius: Real(self_r),
            range: Real(range),
            hits_air: true,
        };
        let got = grid.query_nearest(
            &snaps,
            &seeker,
            Real(range + self_r + monster_radius_max::<Real>().0),
        );
        let want = snaps
            .iter()
            .enumerate()
            .filter(|(_, s)| {
                s.faction == Faction::Enemy && dist_xz(pos, s.pos) - self_r - s.radius.0 <= range
            })
            .map(|(i, s)| (pos.distance_squared(s.pos).0, i as u32))
            .min_by(|a, b| a.0.partial_cmp(&b.0).unwrap());
        match (got, want) {
            (None, None) => {}
            (Some((dg, _)), Some((dw, _))) => {
                assert!((dg.0 - dw).abs() < 1e-9, "case {case}: {dg:?} against {dw}");
            }
            (g, w) => panic!("case {case}: got {g:?}, want {w:?}"),
        }
    }
}

#[test]
fn circle_query_matches_brute_force() {
    let mut rng = Noise(0xDEAD_BEEF);
    for case in 0..40 {
        let mut grid = SpatialGrid::new();
        let mut snaps = Vec::new();
        for i in 0..50 {
            let x = (rng.next() % 3200) as f32 / 100.0 - 16.0;
            let z = (rng.next() % 4800) as f32 / 100.0 - 24.0;
            snaps.push(snap(i, v(x, 1.0, z), Faction::Player, false));
        }
        grid.clear();
        for (i, s) in snaps.iter().enumerate() {
            grid.insert(s.pos, i as u32);
        }
        let pos = v(
            (rng.next() % 3200) as f32 / 100.0 - 16.0,
            1.0,
            (rng.next() % 4800) as f32 / 100.0 - 24.0,
        );
        let radius = (rng.next() % 500) as f32 / 100.0 + 0.5;
        let mut got: Vec<u32> = grid
            .in_circle(pos, Real(radius))
            .into_iter()
            .filter(|i| dist_xz(pos, snaps[*i as usize].pos) <= radius)
            .collect();
        let mut want: Vec<u32> = snaps
            .iter()
            .enumerate()
            .filter(|(_, s)| dist_xz(pos, s.pos) <= radius)
            .map(|(i, _)| i as u32)
            .collect();
        got.sort_unstable();
        want.sort_unstable();
        assert_eq!(got, want, "case {case}");
    }
}

#[test]
fn monster_radius_bound_covers_all_cards() {
    for id in 0..21u8 {
        let c = card::<Real>(id).unwrap();
        if let CardKind::Troop(spec) = c.kind {
            assert!(spec.radius.0 <= monster_radius_max::<Real>().0, "{}", c.name);
        }
    }
}

#[test]
fn equally_near_troop_goes_before_tower() {
    let mut f = Field::new();
    let m = f.add(seeker(Faction::Player, v(0.0, 0.0, 5.0)));
    f.add(guard_tower(Faction::Enemy, v(3.0, 0.0, 5.0)));
    let e = f.add(seeker(Faction::Enemy, v(-3.0, 0.0, 5.0)));
    f.aim();
    assert_eq!(f.target(m), Some(e));
}

#[test]
fn blinded_unit_keeps_its_target() {
    let mut f = Field::new();
    let m = f.add(seeker(Faction::Player, v(0.0, 1.0, 0.0)));
    f.add(seeker(Faction::Enemy, v(1.0, 1.0, 0.0)));
    f.buffs[0] = Some(Buffs::new(ActiveBuff { flags: CCFlags::blind(), ..stun(1.0) }));
    f.aim();
    assert_eq!(f.target(m), None);
    f.buffs[0] = None;
    f.aim();
    assert_eq!(f.target(m), Some(1));
}

#[test]
fn rage_makes_attacks_come_sooner() {
    let mut f = Field::new();
    f.add(seeker(Faction::Player, v(0.0, 1.0, 0.0)));
    f.add(Actor { attacker: None, ..seeker(Faction::Enemy, v(1.0, 1.0, 0.0)) });
    f.buffs[0] = Some(Buffs::new(rage(1.0, 10.0)));
    let mut ticks = 0;
    while f.get(1).health.current.0 == 2000.0 {
        f.aim_and_strike();
        ticks += 1;
        assert!(ticks < 100);
    }
    assert!(ticks == 15 || ticks == 16, "{ticks}");
    assert_eq!(f.get(1).health.current, Real(1900.0));
}

#[test]
fn rage_makes_units_faster() {
    let mut slow = Field::new();
    let mut fast = Field::new();
    for f in [&mut slow, &mut fast] {
        f.add(seeker(Faction::Player, v(0.0, 1.0, 2.0)));
        f.add(guard_tower(Faction::Enemy, v(0.0, 0.0, 12.5)));
    }
    fast.buffs[0] = Some(Buffs::new(rage(0.35, 6.0)));
    slow.aim_and_move();
    fast.aim_and_move();
    let a = slow.get(0).pos.z.0 - 2.0;
    let b = fast.get(0).pos.z.0 - 2.0;
    assert!((b / a - 1.35).abs() < 1e-3, "{a} {b}");
}

#[test]
fn ready_charge_doubles_one_blow() {
    let mut f = Field::new();
    f.add(Actor {
        charge: Some(Charge {
            progress: Real(2.5),
            windup: Real(2.5),
            speed_mult: Real(2.0),
            damage_mult: Real(2.0),
        }),
        attacker: Some(Attacker { cooldown: Real(0.0), ..attacker() }),
        ..seeker(Faction::Player, v(0.0, 1.0, 0.0))
    });
    f.add(Actor { attacker: None, ..seeker(Faction::Enemy, v(1.0, 1.0, 0.0)) });
    f.aim_and_strike();
    assert_eq!(f.get(1).health.current, Real(1800.0));
    assert_eq!(f.get(0).charge.unwrap().progress, Real(0.0));
    assert_eq!(f.get(0).attacker.unwrap().cooldown, Real(1.0));
}

#[test]
fn shooters_send_projectiles_that_hit() {
    let mut f = Field::new();
    f.add(Actor {
        attacker: Some(Attacker {
            cooldown: Real(0.0),
            ranged: true,
            attack_range: Real(4.0),
            ..attacker()
        }),
        ..seeker(Faction::Player, v(0.0, 1.0, 0.0))
    });
    f.add(Actor { attacker: None, ..seeker(Faction::Enemy, v(3.0, 1.0, 0.0)) });
    f.aim_and_strike();
    assert_eq!(f.shots.len(), 1);
    assert_eq!(f.shots[0].pos.y, Real(2.5));
    assert_eq!(f.shots[0].target, 1);
    assert_eq!(f.get(1).health.current, Real(2000.0));
    let mut ticks = 0;
    while !f.shots.is_empty() {
        move_projectiles(&mut f.units, &mut f.shots);
        ticks += 1;
    }
    assert!(ticks > 1 && ticks < 10, "{ticks}");
    assert_eq!(f.get(1).health.current, Real(1900.0));
}

#[test]
fn shots_splash_around_the_hit_but_not_on_towers() {
    let mut f = Field::new();
    f.add(seeker(Faction::Enemy, v(0.0, 1.0, 0.0)));
    f.add(seeker(Faction::Enemy, v(1.0, 1.0, 0.0)));
    f.add(seeker(Faction::Player, v(-1.0, 1.0, 0.0)));
    f.add(guard_tower(Faction::Enemy, v(0.0, 0.0, 1.0)));
    f.add(body(Unit::building(Faction::Enemy, 19, Real(0.6)), 1400.0, v(0.0, 0.7, -1.0)));
    f.add(Actor { flying: true, ..seeker(Faction::Enemy, v(0.0, 2.6, 0.5)) });
    f.shots.push(Projectile {
        target: 0,
        damage: Real(100.0),
        splash_radius: Real(1.5),
        hits_air: false,
        attacker: Faction::Player,
        pos: v(0.0, 1.0, 0.0),
    });
    move_projectiles(&mut f.units, &mut f.shots);
    let hp: Vec<f32> = f.units.iter().map(|a| a.health.current.0).collect();
    assert_eq!(hp, vec![1900.0, 1900.0, 2000.0, 6000.0, 1300.0, 2000.0]);
    assert!(f.shots.is_empty());
}

#[test]
fn shots_without_a_target_vanish() {
    let mut f = Field::new();
    f.shots.push(Projectile {
        target: 7,
        damage: Real(100.0),
        splash_radius: Real(0.0),
        hits_air: true,
        attacker: Faction::Player,
        pos: v(0.0, 1.0, 0.0),
    });
    move_projectiles(&mut f.units, &mut f.shots);
    assert!(f.shots.is_empty());
}

#[test]
fn walkers_take_the_nearer_bridge() {
    let g = steering_goal(v(-1.0, 0.0, -5.0), v(0.0, 0.0, 8.5), false);
    assert_eq!((g.x.0, g.z.0), (-4.5, -1.75));
    let g = steering_goal(v(1.0, 0.0, 5.0), v(0.0, 0.0, -8.5), false);
    assert_eq!((g.x.0, g.z.0), (4.5, 1.75));
    let g = steering_goal(v(4.0, 0.0, 5.0), v(0.0, 0.0, -8.5), false);
    assert_eq!((g.x.0, g.z.0), (4.0, -8.5));
    let g = steering_goal(v(1.0, 0.0, 5.0), v(0.0, 0.0, -8.5), true);
    assert_eq!((g.x.0, g.z.0), (0.0, -8.5));
    let g = steering_goal(v(1.0, 0.0, 5.0), v(0.0, 0.0, 8.5), false);
    assert_eq!((g.x.0, g.z.0), (0.0, 8.5));
}

#[test]
fn river_pushes_walkers_ashore() {
    let mut f = Field::new();
    f.add(seeker(Faction::Player, v(0.0, 1.0, 0.5)));
    f.add(seeker(Faction::Player, v(0.0, 1.0, -0.5)));
    f.add(seeker(Faction::Player, v(0.0, 1.0, 0.0)));
    f.add(seeker(Faction::Player, v(4.0, 1.0, 0.0)));
    f.add(Actor { flying: true, ..seeker(Faction::Player, v(0.0, 2.6, 0.0)) });
    keep_out_of_river(&mut f.units);
    let zs: Vec<f32> = f.units.iter().map(|a| a.pos.z.0).collect();
    assert_eq!(zs, vec![1.25, -1.25, 1.25, 0.0, 0.0]);
}

#[test]
fn structures_block_walkers() {
    let mut f = Field::new();
    f.add(guard_tower(Faction::Enemy, v(0.0, 0.0, 0.0)));
    f.add(seeker(Faction::Player, v(1.0, 1.0, 0.0)));
    f.add(Actor { flying: true, ..seeker(Faction::Player, v(1.0, 2.6, 0.0)) });
    separate_from_statics(&mut f.units);
    assert_eq!(f.get(1).pos.x, Real(1.5));
    assert_eq!(f.get(2).pos.x, Real(1.0));
}

#[test]
fn buffs_merge_by_policy() {
    let mut b = Buffs::new(stun(1.0));
    b.apply(stun(0.5));
    assert_eq!(b.list().len(), 1);
    assert_eq!(b.list()[0].secs, Real(1.0));
    b.apply(stun(2.0));
    assert_eq!(b.list()[0].secs, Real(2.0));
    b.apply(rage(0.35, 6.0));
    b.apply(rage(0.5, 3.0));
    assert_eq!(b.list().len(), 2);
    assert_eq!(b.list()[1].secs, Real(3.0));
    assert_eq!(b.stat(Real(2.0), StatKind::MoveSpeed), Real(3.0));
    for _ in 0..5 {
        b.apply(ActiveBuff {
            name: "Frenzy",
            secs: Real(1.0),
            stacks: 1,
            policy: StackPolicy::Stack(3),
            flags: CCFlags::none(),
            effects: vec![StatMod {
                stat: StatKind::AttackSpeed,
                op: Op::FlatAdd,
                value: Real(0.25),
            }],
        });
    }
    assert_eq!(b.list()[2].stacks, 3);
    assert_eq!(b.stat(Real(1.0), StatKind::AttackSpeed), Real(2.25));
    for _ in 0..2 {
        b.apply(ActiveBuff {
            name: "Slow",
            policy: StackPolicy::Independent,
            effects: vec![StatMod { stat: StatKind::MoveSpeed, op: Op::Add, value: Real(-0.5) }],
            ..rage(0.0, 1.0)
        });
    }
    assert_eq!(b.list().len(), 5);
    assert_eq!(b.stat(Real(2.0), StatKind::MoveSpeed), Real(1.5));
    assert!(b.has_cc(CCFlags::stun()));
    assert!(b.channels().cannot_cast);
    assert!(!b.tick(Real(1.5)));
    assert_eq!(b.list().len(), 2);
    assert!(b.tick(Real(5.0)));
    assert!(!b.has_cc(CCFlags::stun()));
    assert_eq!(b.stat(Real(2.0), StatKind::MoveSpeed), Real(2.0));
}

#[test]
fn flags_map_to_channels() {
    let all = CCFlags::union(&vec![CCFlags::root(), CCFlags::silence()]);
    assert!(all.contains(CCFlags::root()) && !all.contains(CCFlags::broken()));
    let c = cc_channels(all);
    assert!(c.cannot_move && c.cannot_cast && !c.cannot_attack && !c.cannot_seek);
    let c = cc_channels(CCFlags::disarm().with(CCFlags::blind()));
    assert!(!c.cannot_move && c.cannot_attack && c.cannot_seek && !c.cannot_cast);
    let c = cc_channels(CCFlags::none());
    assert!(!c.cannot_move && !c.cannot_attack && !c.cannot_seek && !c.cannot_cast);
}

#[test]
fn speed_costs_no_attack() {
    for pct in [0.0, 0.1, 0.35, 3.0, 60.0] {
        let mut slow = Field::new();
        let mut fast = Field::new();
        for f in [&mut slow, &mut fast] {
            f.add(seeker(Faction::Player, v(0.0, 0.0, 0.0)));
            f.add(body(Unit::tower(Faction::Enemy, Real(1.0)), 1.0e6, v(1.5, 0.0, 0.0)));
        }
        fast.buffs[0] = Some(Buffs::new(rage(pct, 1000.0)));
        for _ in 0..150 {
            slow.aim_and_strike();
            fast.aim_and_strike();
            assert!(fast.get(1).health.current.0 <= slow.get(1).health.current.0);
        }
        assert!(slow.get(1).health.current.0 < 1.0e6);
    }
}

#[test]
fn pictures_know_every_unit_by_name_and_by_cell() {
    let mut f = Field::new();
    f.add(guard_tower(Faction::Player, v(0.0, 0.0, -10.0)));
    f.add(seeker(Faction::Player, v(1.0, 0.0, 1.0)));
    f.add(guard_tower(Faction::Enemy, v(0.0, 0.0, 10.0)));
    f.add(seeker(Faction::Enemy, v(-3.0, 0.0, 5.0)));
    let w = WorldSnaps::take(&f.units);
    assert_eq!(w.snaps.iter().map(|s| s.entity).collect::<Vec<_>>(), vec![1, 3, 0, 2]);
    assert_eq!(w.index.len(), 4);
    for (i, s) in w.snaps.iter().enumerate() {
        assert_eq!(w.index[&s.entity], i as u32);
        assert_eq!(w.get(s.entity).unwrap().pos.z, s.pos.z);
    }
    assert!(w.get(4).is_none());
    let mut held = w.grid.in_circle(v(0.0, 0.0, 0.0), Real(100.0));
    held.sort_unstable();
    assert_eq!(held, vec![0, 1]);
    assert_eq!(w.grid.in_circle(v(1.0, 0.0, 1.0), Real(0.1)), vec![0]);
}

#[test]
fn single_precision_keeps_the_order_of_numbers() {
    let xs = [
        f32::NEG_INFINITY, -1.0e30, -7.25, -1.0, -1.0e-7, -0.0, 0.0, 1.0e-38, 1.0 / 30.0, 0.1, 1.0, 1.35, 3.0e4,
        f32::MAX, f32::INFINITY, f32::NAN,
    ];
    let is = |x: Real| x.same(x);
    let zero = Real::ratio(0, 1);
    for a in xs.map(Real) {
        assert!(!is(a) || a.at_most(a));
        for b in xs.map(Real) {
            if zero.at_most(b) && is(a.minus(b)) {
                assert!(a.minus(b).at_most(a));
            }
            for c in xs.map(Real) {
                assert!(!(a.at_most(b) && b.at_most(c)) || a.at_most(c));
                assert!(!(a.less(b) && b.at_most(c)) || a.less(c));
                if zero.at_most(a) && b.at_most(c) && is(a.times(b)) && is(a.times(c)) {
                    assert!(a.times(b).at_most(a.times(c)));
                }
                for d in xs.map(Real) {
                    if a.at_most(b) && d.at_most(c) && is(a.minus(c)) && is(b.minus(d)) {
                        assert!(a.minus(c).at_most(b.minus(d)));
                    }
                }
            }
        }
    }
}
