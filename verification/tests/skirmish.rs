//! The compact battle, in single precision.

use cr_arena::components::{Charge, Faction, Health, Projectile};
use cr_arena::constants::{card, max_steering_force, tick_dt, CardKind};
use cr_arena::scalar::Scalar;
use cr_arena::skirmish::{
    building_ai, keep_out_of_river, monster_ai, move_projectiles, recruit, separate_from_towers,
    separate_monsters, tower_ai, AttackTimer, BuildingCard, Gun, Hatch, Monster, Skirmish, Tower,
};
use cr_arena::vector::Vec3;

/// Single precision as the numbers of the simulation.
#[derive(Clone, Copy, PartialEq, PartialOrd, Debug)]
struct Real(f32);

impl Scalar for Real {
    fn ratio_spec(num: i64, den: i64) -> Self {
        Self::ratio(num, den)
    }
    fn ratio(num: i64, den: i64) -> Self {
        Real(num as f32 / den as f32)
    }
    fn infinity_spec() -> Self {
        Self::infinity()
    }
    fn infinity() -> Self {
        Real(f32::INFINITY)
    }
    fn plus_spec(self, other: Self) -> Self {
        self.plus(other)
    }
    fn plus(self, other: Self) -> Self {
        Real(self.0 + other.0)
    }
    fn minus_spec(self, other: Self) -> Self {
        self.minus(other)
    }
    fn minus(self, other: Self) -> Self {
        Real(self.0 - other.0)
    }
    fn times_spec(self, other: Self) -> Self {
        self.times(other)
    }
    fn times(self, other: Self) -> Self {
        Real(self.0 * other.0)
    }
    fn over_spec(self, other: Self) -> Self {
        self.over(other)
    }
    fn over(self, other: Self) -> Self {
        Real(self.0 / other.0)
    }
    fn root_spec(self) -> Self {
        self.root()
    }
    fn root(self) -> Self {
        Real(self.0.sqrt())
    }
    fn magnitude_spec(self) -> Self {
        self.magnitude()
    }
    fn magnitude(self) -> Self {
        Real(self.0.abs())
    }
    fn sign_spec(self) -> Self {
        self.sign()
    }
    fn sign(self) -> Self {
        Real(self.0.signum())
    }
    fn negated_spec(self) -> Self {
        self.negated()
    }
    fn negated(self) -> Self {
        Real(-self.0)
    }
    fn least_spec(self, other: Self) -> Self {
        self.least(other)
    }
    fn least(self, other: Self) -> Self {
        Real(self.0.min(other.0))
    }
    fn most_spec(self, other: Self) -> Self {
        self.most(other)
    }
    fn most(self, other: Self) -> Self {
        Real(self.0.max(other.0))
    }
    fn ceiling_spec(self) -> Self {
        self.ceiling()
    }
    fn ceiling(self) -> Self {
        Real(self.0.ceil())
    }
    fn fraction_spec(self) -> Self {
        self.fraction()
    }
    fn fraction(self) -> Self {
        Real(self.0.fract())
    }
    fn truncated_spec(self) -> i64 {
        self.truncated()
    }
    fn truncated(self) -> i64 {
        self.0 as i64
    }
    fn nanos_spec(self) -> u64 {
        self.nanos()
    }
    fn nanos(self) -> u64 {
        if self.0 > 0.0 {
            match std::time::Duration::try_from_secs_f32(self.0) {
                Ok(d) => u64::try_from(d.as_nanos()).unwrap_or(u64::MAX),
                Err(_) => u64::MAX,
            }
        } else {
            0
        }
    }
    fn bits_spec(self) -> u32 {
        self.bits()
    }
    fn bits(self) -> u32 {
        self.0.to_bits()
    }
    fn less_spec(self, other: Self) -> bool {
        self.less(other)
    }
    fn less(self, other: Self) -> bool {
        self.0 < other.0
    }
    fn at_most_spec(self, other: Self) -> bool {
        self.at_most(other)
    }
    fn at_most(self, other: Self) -> bool {
        self.0 <= other.0
    }
    fn same_spec(self, other: Self) -> bool {
        self.same(other)
    }
    fn same(self, other: Self) -> bool {
        self.0 == other.0
    }
    fn less_irreflexive(_a: Self) {}
    fn less_transitive(_a: Self, _b: Self, _c: Self) {}
    fn less_excludes_at_most(_a: Self, _b: Self) {}
    fn least_bounded(_a: Self, _b: Self) {}
    fn whole_less(_a: i64, _b: i64) {}
    fn whole_negated(_a: i64) {}
    fn unit_factor(_num: i64, _den: i64) {}
    fn at_most_reflexive(_a: Self) {}
    fn at_most_transitive(_a: Self, _b: Self, _c: Self) {}
    fn less_carries(_a: Self, _b: Self, _c: Self) {}
    fn minus_monotone(_a: Self, _b: Self, _c: Self, _d: Self) {}
    fn minus_shrinks(_a: Self, _d: Self) {}
    fn times_monotone(_k: Self, _a: Self, _b: Self) {}
}

fn v(x: f32, y: f32, z: f32) -> Vec3<Real> {
    Vec3 { x: Real(x), y: Real(y), z: Real(z) }
}

fn second() -> AttackTimer {
    AttackTimer { elapsed: 0, duration: 1_000_000_000 }
}

fn knight(faction: Faction, pos: Vec3<Real>) -> Monster<Real> {
    Monster {
        entity: 0,
        faction,
        card: 0,
        pos,
        health: Health::new(Real(2000.0)),
        radius: Real(0.5),
        mass: Real(1.0),
        damage: Real(100.0),
        attack_range: Real(0.75),
        aggro_range: Real(5.0),
        speed: Real(1.5),
        ranged: false,
        splash_radius: Real(0.0),
        hits_air: false,
        flying: false,
        building_only: false,
        target: None,
        engaged: false,
        charge: None,
        stun_secs: Real(0.0),
        rage_secs: Real(0.0),
        rage_mult: Real(1.0),
        timer: second(),
    }
}

fn tower(faction: Faction, hp: f32, pos: Vec3<Real>) -> Tower<Real> {
    Tower {
        entity: 0,
        faction,
        pos,
        health: Health::new(Real(hp)),
        radius: Real(1.0),
        attack_range: Real(6.0),
        target: None,
        timer: second(),
    }
}

struct Battle(Skirmish<Real>);

impl Battle {
    fn new() -> Self {
        Battle(Skirmish {
            monsters: Vec::new(),
            towers: Vec::new(),
            buildings: Vec::new(),
            shots: Vec::new(),
            next_entity: 1,
        })
    }

    fn name(&mut self) -> u64 {
        let e = self.0.next_entity;
        self.0.next_entity += 1;
        e
    }

    fn monster(&mut self, m: Monster<Real>) -> u64 {
        let entity = self.name();
        self.0.monsters.push(Monster { entity, ..m });
        entity
    }

    fn tower(&mut self, t: Tower<Real>) -> u64 {
        let entity = self.name();
        self.0.towers.push(Tower { entity, ..t });
        entity
    }

    fn building(&mut self, b: BuildingCard<Real>) -> u64 {
        let entity = self.name();
        self.0.buildings.push(BuildingCard { entity, ..b });
        entity
    }

    fn get(&self, e: u64) -> Monster<Real> {
        *self.0.monsters.iter().find(|m| m.entity == e).unwrap()
    }

    fn get_mut(&mut self, e: u64) -> &mut Monster<Real> {
        self.0.monsters.iter_mut().find(|m| m.entity == e).unwrap()
    }
}

fn distance(a: Vec3<Real>, b: Vec3<Real>) -> f32 {
    let d = a.minus(b);
    (d.x.0 * d.x.0 + d.y.0 * d.y.0 + d.z.0 * d.z.0).sqrt()
}

#[test]
fn monsters_aggro_and_fight_each_other() {
    let mut w = Battle::new();
    let a = w.monster(Monster { speed: Real(3.0), ..knight(Faction::Player, v(0.0, 1.0, -2.0)) });
    let b = w.monster(Monster { speed: Real(3.0), ..knight(Faction::Enemy, v(0.0, 1.0, 2.0)) });
    monster_ai(&mut w.0);
    assert_eq!(w.get(a).target, Some(b));
    assert_eq!(w.get(b).target, Some(a));
    for _ in 0..120 {
        monster_ai(&mut w.0);
    }
    let gap = distance(w.get(a).pos, w.get(b).pos);
    assert!(gap < 2.0, "{gap}");
    assert!(w.get(a).health.current.0 < 2000.0 && w.get(b).health.current.0 < 2000.0);
}

#[test]
fn walking_monster_keeps_tower_target() {
    let mut w = Battle::new();
    let t = w.tower(tower(Faction::Enemy, 6000.0, v(0.0, 0.0, 12.5)));
    let m = w.monster(knight(Faction::Player, v(0.0, 1.0, -5.0)));
    monster_ai(&mut w.0);
    assert_eq!(w.get(m).target, Some(t));
    assert!(!w.get(m).engaged);
    w.monster(knight(Faction::Enemy, v(0.0, 1.0, -1.0)));
    monster_ai(&mut w.0);
    assert_eq!(w.get(m).target, Some(t));
}

#[test]
fn combat_engaged_on_tower_never_retargets() {
    let mut w = Battle::new();
    let t = w.tower(tower(Faction::Enemy, 6000.0, v(0.0, 0.0, 12.5)));
    let m = w.monster(knight(Faction::Player, v(0.0, 1.0, 11.3)));
    monster_ai(&mut w.0);
    assert_eq!(w.get(m).target, Some(t));
    w.monster(knight(Faction::Enemy, v(0.0, 1.0, 9.0)));
    monster_ai(&mut w.0);
    assert_eq!(w.get(m).target, Some(t));
}

#[test]
fn combat_pushed_out_of_range_breaks_lock() {
    let mut w = Battle::new();
    let t = w.tower(tower(Faction::Enemy, 6000.0, v(0.0, 0.0, 12.5)));
    let m = w.monster(knight(Faction::Player, v(0.0, 1.0, 11.3)));
    monster_ai(&mut w.0);
    assert_eq!(w.get(m).target, Some(t));
    w.get_mut(m).pos = v(0.0, 1.0, 9.0);
    let e = w.monster(knight(Faction::Enemy, v(0.0, 1.0, 8.0)));
    monster_ai(&mut w.0);
    assert_eq!(w.get(m).target, Some(e));
}

#[test]
fn combat_heavy_pushes_light_more() {
    let mut w = Battle::new();
    let heavy = w.monster(Monster { mass: Real(3.0), ..knight(Faction::Player, v(0.0, 1.0, 0.0)) });
    let light = w.monster(Monster { mass: Real(0.3), ..knight(Faction::Player, v(0.6, 1.0, 0.0)) });
    separate_monsters(&mut w.0);
    let heavy_move = distance(w.get(heavy).pos, v(0.0, 1.0, 0.0));
    let light_move = distance(w.get(light).pos, v(0.6, 1.0, 0.0));
    assert!(light_move > heavy_move * 3.0);
    let cap = max_steering_force::<Real>().0 * tick_dt::<Real>().0 + 1e-6;
    assert!(light_move <= cap);
    assert!(heavy_move <= cap);
}

#[test]
fn combat_building_only_ignores_monsters() {
    let mut w = Battle::new();
    let t = w.tower(tower(Faction::Enemy, 6000.0, v(0.0, 0.0, 12.5)));
    let g = w.monster(Monster {
        building_only: true,
        health: Health::new(Real(5000.0)),
        timer: AttackTimer { elapsed: 0, duration: 1_500_000_000 },
        ..knight(Faction::Player, v(0.0, 1.0, -5.0))
    });
    w.monster(Monster {
        health: Health::new(Real(300.0)),
        ..knight(Faction::Enemy, v(0.0, 1.0, -1.0))
    });
    monster_ai(&mut w.0);
    assert_eq!(w.get(g).target, Some(t));
}

#[test]
fn combat_ground_unit_cannot_target_flying() {
    let mut w = Battle::new();
    let t = w.tower(tower(Faction::Enemy, 6000.0, v(0.0, 0.0, 12.5)));
    let k = w.monster(knight(Faction::Player, v(0.0, 1.0, -5.0)));
    w.monster(Monster {
        flying: true,
        health: Health::new(Real(320.0)),
        ..knight(Faction::Enemy, v(0.0, 2.6, -5.4))
    });
    monster_ai(&mut w.0);
    assert_eq!(w.get(k).target, Some(t));
}

#[test]
fn combat_melee_splash_hits_nearby_enemy() {
    let mut w = Battle::new();
    let a = w.monster(knight(Faction::Enemy, v(0.9, 1.0, 0.0)));
    let b = w.monster(knight(Faction::Enemy, v(0.0, 1.0, 1.0)));
    w.monster(Monster {
        splash_radius: Real(1.5),
        ..knight(Faction::Player, v(0.0, 1.0, 0.0))
    });
    for _ in 0..35 {
        monster_ai(&mut w.0);
    }
    assert!(w.get(a).health.current.0 < 2000.0);
    assert!(w.get(b).health.current.0 < 2000.0);
}

#[test]
fn combat_stun_freezes_monster() {
    let mut w = Battle::new();
    w.tower(tower(Faction::Enemy, 6000.0, v(0.0, 0.0, 12.5)));
    let e = w.monster(Monster { stun_secs: Real(1.0), ..knight(Faction::Player, v(0.0, 1.0, -5.0)) });
    for _ in 0..29 {
        monster_ai(&mut w.0);
    }
    let p = w.get(e).pos;
    assert_eq!((p.x, p.y, p.z), (Real(0.0), Real(1.0), Real(-5.0)));
    for _ in 0..10 {
        monster_ai(&mut w.0);
    }
    assert!(w.get(e).pos.z.0 > -5.0);
}

#[test]
fn combat_charge_accelerates_after_windup() {
    let mut w = Battle::new();
    w.tower(tower(Faction::Enemy, 60000.0, v(0.0, 0.0, 12.5)));
    let e = w.monster(Monster {
        charge: Some(Charge {
            progress: Real(0.0),
            windup: Real(0.5),
            speed_mult: Real(3.0),
            damage_mult: Real(2.0),
        }),
        ..knight(Faction::Player, v(0.0, 1.0, -5.0))
    });
    let start = w.get(e).pos;
    for _ in 0..20 {
        monster_ai(&mut w.0);
    }
    let moved = distance(w.get(e).pos, start);
    assert!(moved > 1.25, "{moved}");
}

fn house(faction: Faction, card: u8, pos: Vec3<Real>, lifetime: f32) -> BuildingCard<Real> {
    BuildingCard {
        entity: 0,
        faction,
        card,
        pos,
        health: Health::new(Real(1400.0)),
        radius: Real(0.6),
        lifetime: Real(lifetime),
        attack: None,
        spawner: None,
    }
}

#[test]
fn building_ai_spawns_and_fires() {
    let mut w = Battle::new();
    w.building(BuildingCard {
        health: Health::new(Real(800.0)),
        spawner: Some(Hatch { interval_secs: Real(4.0), card_id: 1, cooldown: Real(4.0) }),
        ..house(Faction::Player, 20, v(-4.0, 0.7, -5.0), 100.0)
    });
    w.building(BuildingCard {
        attack: Some(Gun {
            damage: Real(90.0),
            range: Real(5.0),
            interval: Real(0.9),
            hits_air: false,
            cooldown: Real(0.0),
            target: None,
        }),
        ..house(Faction::Enemy, 19, v(4.0, 0.7, 5.0), 100.0)
    });
    w.monster(knight(Faction::Player, v(4.0, 1.0, 1.0)));
    for _ in 0..125 {
        building_ai(&mut w.0);
    }
    let skeletons = w.0.monsters.iter().filter(|m| m.card == 1).count();
    assert_eq!(skeletons, 1);
    let fired = w.0.shots.iter().filter(|p| p.attacker == Faction::Enemy).count();
    assert!(fired > 0);
}

#[test]
fn combat_building_expires_after_lifetime() {
    let mut w = Battle::new();
    w.building(house(Faction::Player, 19, v(0.0, 0.7, -5.0), 1.0));
    for _ in 0..35 {
        building_ai(&mut w.0);
    }
    assert_eq!(w.0.buildings.len(), 0);
}

#[test]
fn blows_come_with_the_timer() {
    let mut w = Battle::new();
    w.monster(knight(Faction::Player, v(0.0, 1.0, 0.0)));
    let e = w.monster(Monster { stun_secs: Real(100.0), ..knight(Faction::Enemy, v(1.0, 1.0, 0.0)) });
    for _ in 0..30 {
        monster_ai(&mut w.0);
    }
    assert_eq!(w.get(e).health.current, Real(2000.0));
    assert_eq!(w.get(1).timer.elapsed, 999_999_990);
    monster_ai(&mut w.0);
    assert_eq!(w.get(e).health.current, Real(1900.0));
    assert_eq!(w.get(1).timer.elapsed, 33_333_323);
}

#[test]
fn rage_hastens_the_timer() {
    let mut w = Battle::new();
    w.monster(Monster {
        rage_secs: Real(60.0),
        rage_mult: Real(2.0),
        ..knight(Faction::Player, v(0.0, 1.0, 0.0))
    });
    let e = w.monster(Monster { stun_secs: Real(100.0), ..knight(Faction::Enemy, v(1.0, 1.0, 0.0)) });
    for _ in 0..16 {
        monster_ai(&mut w.0);
    }
    assert_eq!(w.get(e).health.current, Real(1900.0));
}

#[test]
fn timer_without_duration_fires_every_tick() {
    let mut w = Battle::new();
    w.monster(Monster {
        timer: AttackTimer { elapsed: 5, duration: 0 },
        ..knight(Faction::Player, v(0.0, 1.0, 0.0))
    });
    let e = w.monster(Monster { stun_secs: Real(100.0), ..knight(Faction::Enemy, v(1.0, 1.0, 0.0)) });
    for _ in 0..3 {
        monster_ai(&mut w.0);
    }
    assert_eq!(w.get(e).health.current, Real(1700.0));
    assert_eq!(w.get(1).timer.elapsed, 0);
}

#[test]
fn towers_shoot_the_nearest_and_stay_with_it() {
    let mut w = Battle::new();
    w.tower(tower(Faction::Enemy, 6000.0, v(0.0, 0.0, 8.5)));
    let far = w.monster(knight(Faction::Player, v(0.0, 1.0, 3.0)));
    tower_ai(&mut w.0);
    assert_eq!(w.0.towers[0].target, Some(far));
    let near = w.monster(knight(Faction::Player, v(0.0, 1.0, 6.0)));
    for _ in 0..30 {
        tower_ai(&mut w.0);
    }
    assert_eq!(w.0.towers[0].target, Some(far));
    assert_eq!(w.0.shots.len(), 1);
    assert_eq!(w.0.shots[0].damage, Real(200.0));
    assert_eq!(w.0.shots[0].pos.y, Real(3.5));
    w.get_mut(far).pos = v(0.0, 1.0, -5.0);
    tower_ai(&mut w.0);
    assert_eq!(w.0.towers[0].target, Some(near));
}

#[test]
fn shots_hurt_what_they_reach() {
    let mut w = Battle::new();
    let t = w.tower(tower(Faction::Enemy, 6000.0, v(0.0, 0.0, 8.5)));
    let m = w.monster(knight(Faction::Enemy, v(0.5, 0.0, 8.5)));
    w.0.shots.push(Projectile {
        target: t,
        damage: Real(50.0),
        splash_radius: Real(1.0),
        hits_air: true,
        attacker: Faction::Player,
        pos: v(0.0, 0.0, 8.0),
    });
    w.0.shots.push(Projectile {
        target: m,
        damage: Real(50.0),
        splash_radius: Real(1.0),
        hits_air: true,
        attacker: Faction::Player,
        pos: v(0.5, 0.0, 0.0),
    });
    move_projectiles(&mut w.0);
    assert_eq!(w.0.towers[0].health.current, Real(5950.0));
    assert_eq!(w.get(m).health.current, Real(1950.0));
    assert_eq!(w.0.shots.len(), 1);
    assert!(w.0.shots[0].pos.z.0 > 0.0);
}

#[test]
fn ground_rules_spare_flyers() {
    let mut w = Battle::new();
    w.tower(tower(Faction::Enemy, 6000.0, v(0.0, 0.0, 8.5)));
    w.building(house(Faction::Enemy, 19, v(3.0, 0.0, 8.5), 10.0));
    let a = w.monster(knight(Faction::Player, v(1.0, 1.0, 8.5)));
    let b = w.monster(Monster { flying: true, ..knight(Faction::Player, v(1.0, 1.0, 8.5)) });
    let c = w.monster(knight(Faction::Player, v(0.0, 1.0, 0.5)));
    separate_from_towers(&mut w.0);
    keep_out_of_river(&mut w.0);
    assert_eq!(w.get(a).pos.x, Real(1.5));
    assert_eq!(w.get(b).pos.x, Real(1.0));
    assert_eq!(w.get(c).pos.z, Real(1.25));
}

#[test]
fn recruits_follow_their_card() {
    let spec = card::<Real>(14).unwrap();
    if let CardKind::Troop(m) = spec.kind {
        let r = recruit(9, Faction::Enemy, 14, &m, v(1.0, 0.0, 2.0));
        assert_eq!(r.entity, 9);
        assert!(r.flying && r.hits_air && r.ranged);
        assert_eq!(r.health.current, Real(1200.0));
        assert!((r.pos.y.0 - 2.8).abs() < 1e-6);
        assert_eq!(r.timer.duration, 1_600_000_024);
    } else {
        panic!("a baby dragon is a troop");
    }
}

#[test]
fn rage_costs_no_blow() {
    for mult in [1.01, 1.35, 2.0, 7.5, 40.0] {
        let mut calm = Battle::new();
        let mut raging = Battle::new();
        for (w, secs) in [(&mut calm, 0.0), (&mut raging, 1000.0)] {
            w.monster(Monster {
                rage_secs: Real(secs),
                rage_mult: Real(mult),
                ..knight(Faction::Player, v(0.0, 1.0, 0.0))
            });
            w.monster(Monster {
                stun_secs: Real(1000.0),
                health: Health::new(Real(1.0e6)),
                ..knight(Faction::Enemy, v(1.0, 1.0, 0.0))
            });
        }
        for _ in 0..200 {
            monster_ai(&mut calm.0);
            monster_ai(&mut raging.0);
            assert!(raging.get(2).health.current.0 <= calm.get(2).health.current.0);
        }
        assert!(raging.get(2).health.current.0 < 1.0e6);
    }
}
