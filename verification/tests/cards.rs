//! Cards in play, in single precision.

use std::collections::HashMap;

use cr_arena::arena::opening;
use cr_arena::cards::{deploy_allowed, deploy_zone_ok, play_card, tower_snaps, TowerSnap};
use cr_arena::components::{
    Actor, CCFlags, CommandBuffer, Elixir, Faction, GameCommand, Health, SpellVolley, StackPolicy,
    StatKind, Unit, UnitKind,
};
use cr_arena::constants::{
    card, elixir_start, CardKind, DECK_SIZE, HAND_SIZE, SPELL_WAVE_FIRST_TICKS,
    SPELL_WAVE_INTERVAL_TICKS,
};
use cr_arena::decks::{deck_pool, prand, shuffled_deck, Decks};
use cr_arena::match_flow::SimState;
use cr_arena::scalar::Scalar;
use cr_arena::sim::{apply_commands, sim_tick, take_commands};
use cr_arena::spawn::process_deploying;
use cr_arena::vector::Vec3;
use cr_arena::volley::spell_volley_tick;
use cr_arena::world::World;

/// Single precision as the numbers of the simulation.
#[derive(Clone, Copy, PartialEq, PartialOrd, Debug)]
struct Real(f32);

impl Scalar for Real {
    fn ratio_spec(num: i64, den: i64) -> Self {
        Self::ratio(num, den)
    }
    fn ratio(num: i64, den: i64) -> Self {
        Real(num as f32 / den as f32)
    }
    fn infinity_spec() -> Self {
        Self::infinity()
    }
    fn infinity() -> Self {
        Real(f32::INFINITY)
    }
    fn plus_spec(self, other: Self) -> Self {
        self.plus(other)
    }
    fn plus(self, other: Self) -> Self {
        Real(self.0 + other.0)
    }
    fn minus_spec(self, other: Self) -> Self {
        self.minus(other)
    }
    fn minus(self, other: Self) -> Self {
        Real(self.0 - other.0)
    }
    fn times_spec(self, other: Self) -> Self {
        self.times(other)
    }
    fn times(self, other: Self) -> Self {
        Real(self.0 * other.0)
    }
    fn over_spec(self, other: Self) -> Self {
        self.over(other)
    }
    fn over(self, other: Self) -> Self {
        Real(self.0 / other.0)
    }
    fn root_spec(self) -> Self {
        self.root()
    }
    fn root(self) -> Self {
        Real(self.0.sqrt())
    }
    fn magnitude_spec(self) -> Self {
        self.magnitude()
    }
    fn magnitude(self) -> Self {
        Real(self.0.abs())
    }
    fn sign_spec(self) -> Self {
        self.sign()
    }
    fn sign(self) -> Self {
        Real(self.0.signum())
    }
    fn negated_spec(self) -> Self {
        self.negated()
    }
    fn negated(self) -> Self {
        Real(-self.0)
    }
    fn least_spec(self, other: Self) -> Self {
        self.least(other)
    }
    fn least(self, other: Self) -> Self {
        Real(self.0.min(other.0))
    }
    fn most_spec(self, other: Self) -> Self {
        self.most(other)
    }
    fn most(self, other: Self) -> Self {
        Real(self.0.max(other.0))
    }
    fn ceiling_spec(self) -> Self {
        self.ceiling()
    }
    fn ceiling(self) -> Self {
        Real(self.0.ceil())
    }
    fn fraction_spec(self) -> Self {
        self.fraction()
    }
    fn fraction(self) -> Self {
        Real(self.0.fract())
    }
    fn truncated_spec(self) -> i64 {
        self.truncated()
    }
    fn truncated(self) -> i64 {
        self.0 as i64
    }
    fn nanos_spec(self) -> u64 {
        self.nanos()
    }
    fn nanos(self) -> u64 {
        if self.0 > 0.0 {
            match std::time::Duration::try_from_secs_f32(self.0) {
                Ok(d) => u64::try_from(d.as_nanos()).unwrap_or(u64::MAX),
                Err(_) => u64::MAX,
            }
        } else {
            0
        }
    }
    fn bits_spec(self) -> u32 {
        self.bits()
    }
    fn bits(self) -> u32 {
        self.0.to_bits()
    }
    fn less_spec(self, other: Self) -> bool {
        self.less(other)
    }
    fn less(self, other: Self) -> bool {
        self.0 < other.0
    }
    fn at_most_spec(self, other: Self) -> bool {
        self.at_most(other)
    }
    fn at_most(self, other: Self) -> bool {
        self.0 <= other.0
    }
    fn same_spec(self, other: Self) -> bool {
        self.same(other)
    }
    fn same(self, other: Self) -> bool {
        self.0 == other.0
    }
    fn less_irreflexive(_a: Self) {}
    fn less_transitive(_a: Self, _b: Self, _c: Self) {}
    fn less_excludes_at_most(_a: Self, _b: Self) {}
    fn least_bounded(_a: Self, _b: Self) {}
    fn whole_less(_a: i64, _b: i64) {}
    fn whole_negated(_a: i64) {}
    fn unit_factor(_num: i64, _den: i64) {}
    fn at_most_reflexive(_a: Self) {}
    fn at_most_transitive(_a: Self, _b: Self, _c: Self) {}
    fn less_carries(_a: Self, _b: Self, _c: Self) {}
    fn minus_monotone(_a: Self, _b: Self, _c: Self, _d: Self) {}
    fn minus_shrinks(_a: Self, _d: Self) {}
    fn times_monotone(_k: Self, _a: Self, _b: Self) {}
}

fn v(x: f32, y: f32, z: f32) -> Vec3<Real> {
    Vec3 { x: Real(x), y: Real(y), z: Real(z) }
}

fn empty_world() -> World<Real> {
    let mut w = opening::<Real>(42, SimState::Solo);
    w.units.clear();
    w.buffs.clear();
    w
}

fn troop(faction: Faction, hp: f32, pos: Vec3<Real>) -> Actor<Real> {
    Actor {
        entity: 0,
        unit: Unit::troop(faction, 0, Real(0.5), Real(1.0)),
        pos,
        health: Health::new(Real(hp)),
        attacker: None,
        targeting: None,
        mover: None,
        charge: None,
        flying: false,
        king: false,
        lifetime: None,
        spawner: None,
    }
}

fn tower(faction: Faction, hp: f32, pos: Vec3<Real>) -> Actor<Real> {
    Actor { unit: Unit::tower(faction, Real(1.0)), ..troop(faction, hp, pos) }
}

fn put(w: &mut World<Real>, a: Actor<Real>) -> usize {
    let entity = w.next_entity;
    w.next_entity += 1;
    w.units.push(Actor { entity, ..a });
    w.buffs.push(None);
    w.units.len() - 1
}

fn deploy(faction: Faction, card: u8, x: f32, z: f32) -> GameCommand<Real> {
    GameCommand::Deploy { faction, card, x: Real(x), z: Real(z) }
}

fn run_commands(w: &mut World<Real>, cmds: Vec<GameCommand<Real>>) {
    let mut buffer = CommandBuffer { local: HashMap::new(), remote: HashMap::new() };
    buffer.local.insert(0, cmds);
    let cmds = take_commands(&mut buffer, 0);
    apply_commands(w, &cmds);
}

fn land(w: &mut World<Real>) {
    process_deploying(&mut w.units, &mut w.buffs, &mut w.next_entity, &mut w.ghosts);
}

#[test]
fn play_card_deducts_cycles_and_spawns() {
    let mut w = empty_world();
    w.decks.player[0] = 0;
    let spec = card::<Real>(0).unwrap();
    run_commands(&mut w, vec![deploy(Faction::Player, 0, 0.0, -5.0)]);
    assert_eq!(w.elixir.player.0, elixir_start::<Real>().0 - spec.cost.0);
    assert_eq!(w.decks.player[DECK_SIZE - 1], 0);
    assert_eq!(w.units.len(), 0);
    assert_eq!(w.ghosts.len(), spec.count as usize);
    for _ in 0..spec.deploy_ticks {
        land(&mut w);
    }
    assert_eq!(w.units.len(), spec.count as usize);
    assert!(w.ghosts.is_empty());
    if let CardKind::Troop(ms) = spec.kind {
        let a = w.units[0].attacker.unwrap();
        assert_eq!(a.damage, ms.damage);
        assert_eq!(a.interval, ms.attack_interval);
    } else {
        unreachable!("card 0 is the knight");
    }
    assert!(w.units[0].targeting.is_some());
    assert!(w.units[0].mover.is_some());
}

#[test]
fn deck_pool_selects_distinct_shared_cards() {
    let pool = deck_pool(42);
    assert_eq!(pool.len(), DECK_SIZE);
    let mut sorted = pool.clone();
    sorted.sort();
    sorted.dedup();
    assert_eq!(sorted.len(), DECK_SIZE);
    let decks = Decks::shuffled_with(42);
    let mut p = decks.player.clone();
    let mut e = decks.enemy.clone();
    p.sort();
    e.sort();
    assert_eq!(p, e);
    assert_eq!(Decks::shuffled_with(42).player, decks.player);
    assert_ne!(Decks::shuffled_with(42).player, Decks::shuffled_with(7).player);
}

#[test]
fn decks_of_known_seeds() {
    assert_eq!(deck_pool(0), vec![16, 0, 17, 4, 6, 20, 1, 13]);
    let d = Decks::shuffled_with(0);
    assert_eq!(d.player, vec![13, 0, 16, 17, 4, 20, 6, 1]);
    assert_eq!(d.enemy, vec![0, 17, 16, 13, 4, 6, 20, 1]);
    let d = Decks::shuffled();
    assert_eq!(d.player, vec![20, 9, 16, 1, 15, 18, 11, 6]);
    assert_eq!(d.enemy, vec![20, 11, 18, 16, 9, 1, 15, 6]);
    assert_eq!(shuffled_deck(7), vec![2, 18, 10, 16, 13, 1, 8, 11]);
    assert_eq!(prand(0), 769);
}

#[test]
fn spell_card_damages_and_stuns_instantly() {
    let mut w = empty_world();
    w.decks.player[0] = 15;
    let victim = put(&mut w, troop(Faction::Enemy, 2000.0, v(0.0, 1.0, 5.0)));
    let tw = put(&mut w, tower(Faction::Enemy, 6000.0, v(1.0, 0.0, 5.0)));
    let bystander = put(&mut w, troop(Faction::Player, 2000.0, v(0.0, 1.0, 0.0)));
    run_commands(&mut w, vec![deploy(Faction::Player, 15, 0.0, 5.0)]);
    assert_eq!(w.elixir.player.0, elixir_start::<Real>().0 - 2.0);
    assert_eq!(w.decks.player[DECK_SIZE - 1], 15);
    assert_eq!(w.units[victim].health.current.0, 2000.0 - 160.0);
    let buffs = w.buffs[victim].as_ref().unwrap();
    assert!(buffs.has_cc(CCFlags::stun()));
    assert_eq!(buffs.list()[0].secs, Real(0.5));
    assert!(matches!(buffs.list()[0].policy, StackPolicy::Longer));
    assert_eq!(w.units[tw].health.current.0, 6000.0);
    assert_eq!(w.units[bystander].health.current.0, 2000.0);
    assert!(w.ghosts.is_empty());
    let troops = w.units.iter().filter(|a| a.unit.kind == UnitKind::Troop).count();
    assert_eq!(troops, 2);
}

#[test]
fn building_card_spawns_building_entity() {
    let mut w = empty_world();
    w.decks.player[0] = 19;
    run_commands(&mut w, vec![deploy(Faction::Player, 19, 0.0, -5.0)]);
    assert_eq!(w.ghosts.len(), 1);
    for _ in 0..card::<Real>(19).unwrap().deploy_ticks {
        land(&mut w);
    }
    let buildings = w.units.iter().filter(|a| a.unit.kind == UnitKind::Building).count();
    assert_eq!(buildings, 1);
    assert_eq!(w.units[0].attacker.unwrap().cooldown, Real(0.0));
    assert_eq!(w.units[0].lifetime, Some(Real(30.0)));
}

fn standing() -> Vec<TowerSnap<Real>> {
    vec![
        TowerSnap { faction: Faction::Enemy, is_king: false, pos: v(-6.5, 0.0, 8.5) },
        TowerSnap { faction: Faction::Enemy, is_king: true, pos: v(0.0, 0.0, 12.5) },
    ]
}

#[test]
fn deploy_zone_expands_after_princess_falls() {
    let towers = standing();
    assert!(deploy_allowed(Faction::Player, v(-2.0, 0.0, -5.0), &towers));
    assert!(deploy_allowed(Faction::Player, v(2.0, 0.0, -5.0), &towers));
    assert!(!deploy_allowed(Faction::Player, v(0.0, 0.0, 0.0), &towers));
    assert!(!deploy_allowed(Faction::Player, v(-2.0, 0.0, 5.0), &towers));
    assert!(deploy_allowed(Faction::Player, v(2.0, 0.0, 5.0), &towers));
    assert!(!deploy_allowed(Faction::Player, v(2.0, 0.0, 10.0), &towers));
    assert!(!deploy_allowed(Faction::Enemy, v(0.0, 0.0, 0.0), &towers));
    assert!(deploy_allowed(Faction::Enemy, v(2.0, 0.0, -5.0), &towers));
}

#[test]
fn deploy_zone_depends_on_card_kind() {
    let towers = standing();
    let zap = card::<Real>(15).unwrap();
    let cannon = card::<Real>(19).unwrap();
    assert!(deploy_zone_ok(&zap, Faction::Player, v(2.0, 0.0, 5.0), &towers));
    assert!(deploy_zone_ok(&zap, Faction::Player, v(0.0, 0.0, 0.0), &towers));
    assert!(deploy_zone_ok(&zap, Faction::Player, v(0.0, 0.0, 13.5), &towers));
    assert!(deploy_zone_ok(&cannon, Faction::Player, v(0.0, 0.0, -5.0), &towers));
    assert!(!deploy_zone_ok(&cannon, Faction::Player, v(0.0, 0.0, -1.0), &towers));
    assert!(!deploy_zone_ok(&cannon, Faction::Player, v(0.0, 0.0, 5.0), &towers));
}

#[test]
fn play_card_rejects_out_of_zone_deploy() {
    let mut w = empty_world();
    w.decks.player[0] = 0;
    put(&mut w, tower(Faction::Enemy, 6000.0, v(-6.5, 0.0, 8.5)));
    run_commands(&mut w, vec![deploy(Faction::Player, 0, -2.0, 5.0)]);
    assert_eq!(w.elixir.player, elixir_start());
    assert_eq!(w.units.iter().filter(|a| a.unit.kind == UnitKind::Troop).count(), 0);
    assert!(w.ghosts.is_empty());
    assert_eq!(w.log.len(), 1);
}

#[test]
fn arrows_cost_elixir_and_spawn_volley() {
    let mut w = empty_world();
    w.elixir = Elixir { player: Real(10.0), enemy: Real(10.0) };
    w.decks.player = vec![16, 0, 1, 2, 3, 4, 5, 6];
    run_commands(&mut w, vec![deploy(Faction::Player, 16, 0.0, -5.0)]);
    assert_eq!(w.elixir.player, Real(7.0));
    assert_eq!(w.volleys.len(), 1);
    assert_eq!(w.volleys[0].damage, Real(100.0));
    assert!(!w.decks.player[..HAND_SIZE].contains(&16));
}

#[test]
fn arrows_volley_deals_three_waves_on_schedule() {
    let mut units = vec![
        troop(Faction::Enemy, 1000.0, v(1.0, 1.0, 0.0)),
        troop(Faction::Enemy, 1000.0, v(9.0, 1.0, 0.0)),
        troop(Faction::Player, 1000.0, v(0.0, 1.0, 0.0)),
        tower(Faction::Enemy, 1000.0, v(0.0, 0.0, 1.0)),
    ];
    let mut volleys = vec![SpellVolley {
        faction: Faction::Player,
        damage: Real(100.0),
        radius: Real(2.0),
        x: Real(0.0),
        z: Real(0.0),
        waves_left: 3,
        next_in: SPELL_WAVE_FIRST_TICKS,
        interval: SPELL_WAVE_INTERVAL_TICKS,
    }];
    let mut wave_tick = |n: usize| {
        for _ in 0..n {
            spell_volley_tick(&mut units, &mut volleys);
        }
        (units[0].health.current.0, volleys.len())
    };
    assert_eq!(wave_tick(15).0, 1000.0);
    assert_eq!(wave_tick(1).0, 900.0);
    assert_eq!(wave_tick(11).0, 900.0);
    assert_eq!(wave_tick(1).0, 800.0);
    assert_eq!(wave_tick(11).0, 800.0);
    assert_eq!(wave_tick(1).0, 700.0);
    assert_eq!(wave_tick(1), (700.0, 0));
    assert_eq!(units[1].health.current.0, 1000.0);
    assert_eq!(units[2].health.current.0, 1000.0);
    assert_eq!(units[3].health.current.0, 1000.0);
}

#[test]
fn rage_speeds_up_friends_only() {
    let mut w = empty_world();
    w.decks.player[0] = 18;
    let friend = put(&mut w, troop(Faction::Player, 100.0, v(0.0, 1.0, 0.0)));
    let foe = put(&mut w, troop(Faction::Enemy, 100.0, v(1.0, 1.0, 0.0)));
    run_commands(&mut w, vec![deploy(Faction::Player, 18, 0.0, 0.0)]);
    let b = w.buffs[friend].as_ref().unwrap();
    assert_eq!(b.list()[0].name, "Rage");
    assert_eq!(b.stat(Real(1.0), StatKind::AttackSpeed), Real(1.35));
    assert_eq!(b.stat(Real(2.0), StatKind::MoveSpeed), Real(2.7));
    assert!(w.buffs[foe].is_none());
    assert_eq!(w.units[foe].health.current, Real(100.0));
}

#[test]
fn unaffordable_and_absent_cards_are_dropped() {
    let mut w = empty_world();
    w.decks.player = vec![0, 1, 2, 3, 4, 5, 6, 7];
    w.elixir.player = Real(2.0);
    let towers = tower_snaps(&w.units);
    play_card(&mut w, Faction::Player, 0, v(0.0, 0.0, -5.0), &towers);
    play_card(&mut w, Faction::Player, 4, v(0.0, 0.0, -5.0), &towers);
    play_card(&mut w, Faction::Player, 99, v(0.0, 0.0, -5.0), &towers);
    assert!(w.ghosts.is_empty());
    assert_eq!(w.elixir.player, Real(2.0));
    assert_eq!(w.decks.player, vec![0, 1, 2, 3, 4, 5, 6, 7]);
    play_card(&mut w, Faction::Player, 1, v(0.0, 0.0, -5.0), &towers);
    assert_eq!(w.ghosts.len(), 3);
    assert_eq!(w.elixir.player, Real(1.0));
    assert_eq!(w.decks.player, vec![0, 2, 3, 4, 5, 6, 7, 1]);
    let xs: Vec<f32> = w.ghosts.iter().map(|g| g.pos.x.0).collect();
    assert_eq!(xs, vec![0.0, -0.6, 0.6]);
}

#[test]
fn blue_goes_before_red() {
    let mut buffer = CommandBuffer { local: HashMap::new(), remote: HashMap::new() };
    buffer.local.insert(3, vec![deploy(Faction::Enemy, 1, 0.0, 5.0), deploy(Faction::Enemy, 2, 0.0, 5.0)]);
    buffer.remote.insert(3, vec![deploy(Faction::Player, 3, 0.0, -5.0)]);
    buffer.remote.insert(4, vec![deploy(Faction::Player, 4, 0.0, -5.0)]);
    let cards: Vec<u8> = take_commands(&mut buffer, 3)
        .into_iter()
        .map(|c| match c {
            GameCommand::Deploy { card, .. } => card,
        })
        .collect();
    assert_eq!(cards, vec![3, 1, 2]);
    assert!(!buffer.local.contains_key(&3) && !buffer.remote.contains_key(&3));
    assert!(buffer.remote.contains_key(&4));
}

#[test]
fn tombstone_card_sends_out_skeletons() {
    let mut w = opening::<Real>(42, SimState::Solo);
    assert_eq!(w.decks.player[0], 20);
    sim_tick(&mut w, &vec![deploy(Faction::Player, 20, 0.0, -5.0)]);
    for _ in 0..29 {
        sim_tick(&mut w, &vec![]);
    }
    assert_eq!(w.units.len(), 7);
    for _ in 0..120 {
        sim_tick(&mut w, &vec![]);
    }
    assert!(w.units.iter().any(|a| a.unit.card == Some(1)));
}

#[test]
fn the_catalogue() {
    let names: Vec<&str> = (0..21u8).map(|i| card::<Real>(i).unwrap().name).collect();
    assert_eq!(names[0], "Knight");
    assert_eq!(names[20], "Tombstone");
    assert!(card::<Real>(21).is_none());
    let prince = card::<Real>(9).unwrap();
    assert_eq!(prince.cost, Real(5.0));
    match prince.kind {
        CardKind::Troop(m) => {
            assert_eq!(m.hp, Real(1900.0));
            assert_eq!(m.attack_range, Real(0.9));
            assert_eq!(m.charge.unwrap().windup_secs, Real(2.5));
        }
        _ => unreachable!("the prince is a troop"),
    }
    match card::<Real>(16).unwrap().kind {
        CardKind::Spell(s) => assert_eq!((s.waves, s.damage, s.radius), (3, Real(300.0), Real(2.0))),
        _ => unreachable!("arrows are a spell"),
    }
}

#[test]
fn volleys_strike_once_per_wave_and_are_gone() {
    for (waves, interval, first) in [(1, 1, 0), (3, 6, 4), (5, 2, 7)] {
        let mut units = vec![troop(Faction::Enemy, 1000.0, v(1.0, 1.0, 0.0))];
        let mut volleys = vec![SpellVolley {
            faction: Faction::Player,
            damage: Real(100.0),
            radius: Real(2.0),
            x: Real(0.0),
            z: Real(0.0),
            waves_left: waves,
            next_in: first,
            interval,
        }];
        let last = first + (waves - 1) * interval;
        for _ in 0..last {
            spell_volley_tick(&mut units, &mut volleys);
            assert_eq!(volleys.len(), 1);
        }
        for _ in 0..5 {
            spell_volley_tick(&mut units, &mut volleys);
            assert!(volleys.is_empty());
            assert_eq!(units[0].health.current, Real(1000.0 - waves as f32 * 100.0));
        }
    }
}
