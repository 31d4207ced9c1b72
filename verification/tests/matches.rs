//! Whole matches, in single precision: how they end, how they repeat, and how agents see them.

use std::collections::HashMap;

use cr_arena::arena::opening;
use cr_arena::bot::{best_action, command_of, due, fits, linear};
use cr_arena::components::{
    Actor, CommandBuffer, Elixir, Faction, GameCommand, Health, Unit, UnitKind,
};
use cr_arena::constants::{
    drain_per_tick, elixir_max, elixir_start, DOUBLE_ELIXIR_TICKS, OVERTIME_TICKS, REGULAR_TICKS,
};
use cr_arena::elixir::regen;
use cr_arena::fixed::Fixed;
use cr_arena::match_flow::{
    celebrates, countdown, elixir_multiplier, tick_timer, verdict, MatchPhase, MatchTimer, SimState,
    Verdict,
};
use cr_arena::net::state_hash;
use cr_arena::replay::{
    catch_up, drive_recording, drive_replay, feed_log_tick, replay_input, reset_world, run_log,
    seek, ReplayControl, ReplayKey, ReplayLog,
};
use cr_arena::scalar::Scalar;
use cr_arena::sim::{check_game_over, despawn_dead, run, sim_tick, take_commands};
use cr_arena::sim_env::{
    action_mask, cell_to_pos, idx_to_action, random_action, scripted_action, EnvAction, SimWorld,
    NOOP_ACTION, N_ACTIONS, OBS_SIZE,
};
use cr_arena::vector::Vec3;
use cr_arena::world::World;

/// Single precision as the numbers of the simulation.
#[derive(Clone, Copy, PartialEq, PartialOrd, Debug)]
struct Real(f32);

impl Scalar for Real {
    fn ratio_spec(num: i64, den: i64) -> Self {
        Self::ratio(num, den)
    }
    fn ratio(num: i64, den: i64) -> Self {
        Real(num as f32 / den as f32)
    }
    fn infinity_spec() -> Self {
        Self::infinity()
    }
    fn infinity() -> Self {
        Real(f32::INFINITY)
    }
    fn plus_spec(self, other: Self) -> Self {
        self.plus(other)
    }
    fn plus(self, other: Self) -> Self {
        Real(self.0 + other.0)
    }
    fn minus_spec(self, other: Self) -> Self {
        self.minus(other)
    }
    fn minus(self, other: Self) -> Self {
        Real(self.0 - other.0)
    }
    fn times_spec(self, other: Self) -> Self {
        self.times(other)
    }
    fn times(self, other: Self) -> Self {
        Real(self.0 * other.0)
    }
    fn over_spec(self, other: Self) -> Self {
        self.over(other)
    }
    fn over(self, other: Self) -> Self {
        Real(self.0 / other.0)
    }
    fn root_spec(self) -> Self {
        self.root()
    }
    fn root(self) -> Self {
        Real(self.0.sqrt())
    }
    fn magnitude_spec(self) -> Self {
        self.magnitude()
    }
    fn magnitude(self) -> Self {
        Real(self.0.abs())
    }
    fn sign_spec(self) -> Self {
        self.sign()
    }
    fn sign(self) -> Self {
        Real(self.0.signum())
    }
    fn negated_spec(self) -> Self {
        self.negated()
    }
    fn negated(self) -> Self {
        Real(-self.0)
    }
    fn least_spec(self, other: Self) -> Self {
        self.least(other)
    }
    fn least(self, other: Self) -> Self {
        Real(self.0.min(other.0))
    }
    fn most_spec(self, other: Self) -> Self {
        self.most(other)
    }
    fn most(self, other: Self) -> Self {
        Real(self.0.max(other.0))
    }
    fn ceiling_spec(self) -> Self {
        self.ceiling()
    }
    fn ceiling(self) -> Self {
        Real(self.0.ceil())
    }
    fn fraction_spec(self) -> Self {
        self.fraction()
    }
    fn fraction(self) -> Self {
        Real(self.0.fract())
    }
    fn truncated_spec(self) -> i64 {
        self.truncated()
    }
    fn truncated(self) -> i64 {
        self.0 as i64
    }
    fn nanos_spec(self) -> u64 {
        self.nanos()
    }
    fn nanos(self) -> u64 {
        if self.0 > 0.0 {
            match std::time::Duration::try_from_secs_f32(self.0) {
                Ok(d) => u64::try_from(d.as_nanos()).unwrap_or(u64::MAX),
                Err(_) => u64::MAX,
            }
        } else {
            0
        }
    }
    fn bits_spec(self) -> u32 {
        self.bits()
    }
    fn bits(self) -> u32 {
        self.0.to_bits()
    }
    fn less_spec(self, other: Self) -> bool {
        self.less(other)
    }
    fn less(self, other: Self) -> bool {
        self.0 < other.0
    }
    fn at_most_spec(self, other: Self) -> bool {
        self.at_most(other)
    }
    fn at_most(self, other: Self) -> bool {
        self.0 <= other.0
    }
    fn same_spec(self, other: Self) -> bool {
        self.same(other)
    }
    fn same(self, other: Self) -> bool {
        self.0 == other.0
    }
    fn less_irreflexive(_a: Self) {}
    fn less_transitive(_a: Self, _b: Self, _c: Self) {}
    fn less_excludes_at_most(_a: Self, _b: Self) {}
    fn least_bounded(_a: Self, _b: Self) {}
    fn whole_less(_a: i64, _b: i64) {}
    fn whole_negated(_a: i64) {}
    fn unit_factor(_num: i64, _den: i64) {}
    fn at_most_reflexive(_a: Self) {}
    fn at_most_transitive(_a: Self, _b: Self, _c: Self) {}
    fn less_carries(_a: Self, _b: Self, _c: Self) {}
    fn minus_monotone(_a: Self, _b: Self, _c: Self, _d: Self) {}
    fn minus_shrinks(_a: Self, _d: Self) {}
    fn times_monotone(_k: Self, _a: Self, _b: Self) {}
}

fn v(x: f32, y: f32, z: f32) -> Vec3<Real> {
    Vec3 { x: Real(x), y: Real(y), z: Real(z) }
}

fn body(unit: Unit<Real>, hp: f32, max: f32) -> Actor<Real> {
    Actor {
        entity: 0,
        unit,
        pos: v(0.0, 0.0, 0.0),
        health: Health { current: Real(hp), max: Real(max) },
        attacker: None,
        targeting: None,
        mover: None,
        charge: None,
        flying: false,
        king: false,
        lifetime: None,
        spawner: None,
    }
}

fn tower(faction: Faction, king: bool, hp: f32) -> Actor<Real> {
    Actor { king, ..body(Unit::tower(faction, Real(1.2)), hp, 100.0) }
}

fn monster(faction: Faction) -> Actor<Real> {
    body(Unit::troop(faction, 0, Real(0.5), Real(1.0)), 100.0, 100.0)
}

fn stage(units: Vec<Actor<Real>>, phase: MatchPhase, ticks_left: u32) -> World<Real> {
    let mut w = opening::<Real>(42, SimState::Playing);
    w.buffs = units.iter().map(|_| None).collect();
    w.units = units;
    w.timer = MatchTimer { phase, ticks_left };
    w
}

fn king_death() {
    let mut w = stage(
        vec![
            tower(Faction::Player, true, 0.0),
            monster(Faction::Player),
            monster(Faction::Enemy),
        ],
        MatchPhase::Regular,
        REGULAR_TICKS,
    );
    check_game_over(&mut w);
    assert!(matches!(w.state, SimState::GameOver(Some(Faction::Enemy))));
    assert_eq!(w.units.iter().filter(|a| a.unit.kind == UnitKind::Tower).count(), 0);
    assert_eq!(w.units.len(), 1);
    assert_eq!(w.units[0].unit.faction, Faction::Enemy);
}

fn overtime_tower_death() {
    let mut w = stage(vec![tower(Faction::Player, false, 0.0)], MatchPhase::Regular, REGULAR_TICKS);
    check_game_over(&mut w);
    assert!(matches!(w.state, SimState::Playing));

    let mut w = stage(vec![tower(Faction::Player, false, 0.0)], MatchPhase::Overtime, 100);
    despawn_dead(&mut w.units, &mut w.buffs, w.timer.phase);
    check_game_over(&mut w);
    assert!(matches!(w.state, SimState::GameOver(Some(Faction::Enemy))));
    assert_eq!(w.units.len(), 0);
}

fn drain_phase() {
    let mut w = stage(
        vec![body(Unit::tower(Faction::Player, Real(1.0)), 1000.0, 1000.0)],
        MatchPhase::Drain,
        0,
    );
    tick_timer(&mut w.timer, &mut w.state, &mut w.units);
    assert_eq!(w.units[0].health.current.0, 1000.0 - drain_per_tick::<Real>().0);
}

#[test]
fn combat_king_death_ends_game() {
    king_death();
}

#[test]
fn mod_king_death_ends_game() {
    king_death();
}

#[test]
fn combat_overtime_tower_death_is_sudden_death() {
    overtime_tower_death();
}

#[test]
fn mod_overtime_tower_death_is_sudden_death() {
    overtime_tower_death();
}

#[test]
fn combat_drain_phase_towers_lose_hp() {
    drain_phase();
}

#[test]
fn mod_drain_phase_towers_lose_hp() {
    drain_phase();
}

#[test]
fn towers_lost_at_once_draw() {
    let mut w = stage(
        vec![
            tower(Faction::Player, false, 0.0),
            tower(Faction::Enemy, false, -5.0),
            monster(Faction::Player),
        ],
        MatchPhase::Drain,
        0,
    );
    despawn_dead(&mut w.units, &mut w.buffs, w.timer.phase);
    check_game_over(&mut w);
    assert_eq!(w.state, SimState::GameOver(None));
    assert_eq!(w.units.len(), 3);
    check_game_over(&mut w);
    assert_eq!(w.units.len(), 3);
}

#[test]
fn waiting_clients_judge_nothing() {
    let mut w = stage(vec![tower(Faction::Player, true, 0.0)], MatchPhase::Regular, 5);
    w.state = SimState::Waiting;
    check_game_over(&mut w);
    assert_eq!(w.state, SimState::Waiting);
    assert_eq!(w.units.len(), 1);
}

#[test]
fn the_dead_are_removed_in_regular_time() {
    let mut w = stage(
        vec![
            tower(Faction::Player, false, 0.0),
            tower(Faction::Player, true, 0.0),
            Actor { health: Health { current: Real(0.0), max: Real(1.0) }, ..monster(Faction::Enemy) },
            monster(Faction::Enemy),
        ],
        MatchPhase::Regular,
        5,
    );
    despawn_dead(&mut w.units, &mut w.buffs, w.timer.phase);
    assert_eq!(w.units.len(), 2);
    assert!(w.units[0].king);
    assert_eq!(w.buffs.len(), 2);
}

#[test]
fn regular_time_is_decided_by_towers() {
    let mut w = stage(
        vec![
            tower(Faction::Player, false, 10.0),
            tower(Faction::Player, true, 10.0),
            tower(Faction::Enemy, true, 10.0),
        ],
        MatchPhase::Regular,
        1,
    );
    tick_timer(&mut w.timer, &mut w.state, &mut w.units);
    assert_eq!(w.state, SimState::GameOver(Some(Faction::Player)));

    let mut w = stage(
        vec![tower(Faction::Player, true, 10.0), tower(Faction::Enemy, true, 10.0)],
        MatchPhase::Regular,
        1,
    );
    tick_timer(&mut w.timer, &mut w.state, &mut w.units);
    assert_eq!(w.state, SimState::Playing);
    assert_eq!(w.timer, MatchTimer { phase: MatchPhase::Overtime, ticks_left: OVERTIME_TICKS });
    w.timer.ticks_left = 1;
    tick_timer(&mut w.timer, &mut w.state, &mut w.units);
    assert_eq!(w.timer.phase, MatchPhase::Drain);
    assert_eq!(w.units[0].health.current, Real(10.0));
}

#[test]
fn elixir_comes_faster_and_stops_at_ten() {
    let mut t = MatchTimer::new();
    assert_eq!(elixir_multiplier(&t), 1);
    t.ticks_left = DOUBLE_ELIXIR_TICKS;
    assert_eq!(elixir_multiplier(&t), 2);
    t.phase = MatchPhase::Overtime;
    assert_eq!(elixir_multiplier(&t), 3);
    let mut e = Elixir { player: Real(5.0), enemy: Real(9.999) };
    regen(&mut e, &MatchTimer::new());
    assert_eq!(e.player.0, 5.0 + (1.0f32 / 2.8) * 1.0 * (1.0f32 / 30.0));
    assert_eq!(e.enemy, elixir_max());
}

#[test]
fn the_clock_shows_minutes_and_seconds() {
    assert_eq!(countdown(&MatchTimer::new()), Some((3, 0)));
    assert_eq!(
        countdown(&MatchTimer { phase: MatchPhase::Overtime, ticks_left: 1859 }),
        Some((1, 1))
    );
    assert_eq!(countdown(&MatchTimer { phase: MatchPhase::Drain, ticks_left: 0 }), None);
}

#[test]
fn verdicts() {
    use_verdict(None, Some(Faction::Player), Verdict::Draw, false);
    use_verdict(Some(Faction::Player), Some(Faction::Player), Verdict::Victory, true);
    use_verdict(Some(Faction::Player), Some(Faction::Enemy), Verdict::Defeat, false);
    use_verdict(Some(Faction::Enemy), None, Verdict::Wins(Faction::Enemy), true);
}

fn use_verdict(winner: Option<Faction>, my: Option<Faction>, want: Verdict, party: bool) {
    assert_eq!(verdict(winner, my), want);
    assert_eq!(celebrates(want), party);
}

fn deploy(faction: Faction, card: u8, x: f32, z: f32) -> GameCommand<Real> {
    GameCommand::Deploy { faction, card, x: Real(x), z: Real(z) }
}

fn fresh_buffer() -> CommandBuffer<Real> {
    CommandBuffer { local: HashMap::new(), remote: HashMap::new() }
}

fn run_fed(
    w: &mut World<Real>,
    buffer: &mut CommandBuffer<Real>,
    log: &ReplayLog<Real>,
    n: u32,
) -> u32 {
    let mut hash = 0;
    for _ in 0..n {
        feed_log_tick(log, buffer, w.tick);
        let cmds = take_commands(buffer, w.tick);
        sim_tick(w, &cmds);
        hash = state_hash(w);
    }
    hash
}

#[test]
fn replay_is_deterministic() {
    let mut w = opening::<Real>(42, SimState::Replaying);
    let mut buffer = fresh_buffer();
    let mut log = ReplayLog { map: HashMap::new(), target: 0 };
    log.map.insert(5, vec![deploy(Faction::Player, 0, 0.0, -5.0)]);
    log.map.insert(10, vec![deploy(Faction::Enemy, 0, 0.0, 5.0)]);
    log.map.insert(50, vec![deploy(Faction::Player, 1, -3.0, -6.0)]);
    let h1 = run_fed(&mut w, &mut buffer, &log, 300);

    let mut map: HashMap<u32, Vec<GameCommand<Real>>> = HashMap::new();
    for (t, cmd) in &w.log {
        map.entry(*t).or_insert_with(Vec::new).push(*cmd);
    }
    let log = ReplayLog { map, target: 300 };
    reset_world(&mut w, &mut buffer);
    let h2 = run_fed(&mut w, &mut buffer, &log, 300);
    assert_eq!(h1, h2);
}

#[test]
fn replays_of_busy_matches_repeat() {
    let mut w = opening::<Fixed>(42, SimState::Replaying);
    let mut buffer = CommandBuffer { local: HashMap::new(), remote: HashMap::new() };
    for k in 0..40u32 {
        let faction = if k % 2 == 0 { Faction::Player } else { Faction::Enemy };
        let sign = if k % 2 == 0 { -1 } else { 1 };
        let card = w.decks.queue(faction)[(k % 4) as usize];
        buffer.local.insert(
            w.tick,
            vec![GameCommand::Deploy {
                faction,
                card,
                x: Fixed::ratio(k as i64 % 7 - 3, 1),
                z: Fixed::ratio(sign * 5, 1),
            }],
        );
        run(&mut w, &mut buffer, 60);
    }
    let mut map: HashMap<u32, Vec<GameCommand<Fixed>>> = HashMap::new();
    for (t, cmd) in &w.log {
        map.entry(*t).or_insert_with(Vec::new).push(*cmd);
    }
    let log = ReplayLog { map, target: w.tick };
    let mut again = opening::<Fixed>(42, SimState::Replaying);
    let mut empty = CommandBuffer { local: HashMap::new(), remote: HashMap::new() };
    run_log(&mut again, &mut empty, &log, w.tick);
    assert_eq!(state_hash(&again), state_hash(&w));
    assert_eq!(again.units.len(), w.units.len());
    assert_eq!(again.log.len(), w.log.len());
}

fn busy_log(until: u32) -> ReplayLog<Fixed> {
    let mut w = opening::<Fixed>(42, SimState::Solo);
    let mut buffer = CommandBuffer { local: HashMap::new(), remote: HashMap::new() };
    for k in 0..until / 30 {
        let faction = if k % 2 == 0 { Faction::Player } else { Faction::Enemy };
        let sign: i64 = if k % 2 == 0 { -1 } else { 1 };
        let card = w.decks.queue(faction)[0];
        let (x, z) = (Fixed::ratio(2, 1), Fixed::ratio(sign * 6, 1));
        buffer.local.insert(w.tick, vec![GameCommand::Deploy { faction, card, x, z }]);
        run(&mut w, &mut buffer, 30);
    }
    let mut map: HashMap<u32, Vec<GameCommand<Fixed>>> = HashMap::new();
    for (t, cmd) in &w.log {
        map.entry(*t).or_insert_with(Vec::new).push(*cmd);
    }
    ReplayLog { map, target: w.tick }
}

fn played(log: &ReplayLog<Fixed>, mode: SimState, n: u32) -> (u32, u32, SimState) {
    let mut w = opening::<Fixed>(42, mode);
    let mut buffer = CommandBuffer { local: HashMap::new(), remote: HashMap::new() };
    let hashes = run_log(&mut w, &mut buffer, log, n);
    assert_eq!(hashes.len() as u32, n);
    assert_eq!(hashes[n as usize - 1], (n - 1, state_hash(&w)));
    (w.tick, state_hash(&w), w.state)
}

#[test]
fn matches_take_the_same_course_in_every_mode() {
    let log = busy_log(600);
    let (tick, hash, state) = played(&log, SimState::Solo, 600);
    assert_eq!((tick, state), (600, SimState::Solo));
    assert_eq!(played(&log, SimState::Replaying, 600), (600, hash, SimState::Replaying));
    assert_eq!(played(&log, SimState::CatchingUp, 600), (600, hash, SimState::CatchingUp));
}

#[test]
fn jumps_land_where_playing_leads() {
    let log = busy_log(600);
    let mut w = opening::<Fixed>(42, SimState::Replaying);
    let mut buffer = CommandBuffer { local: HashMap::new(), remote: HashMap::new() };
    run_log(&mut w, &mut buffer, &log, 250);
    for to in [400, 120, 119, 550, 1] {
        seek(&mut w, &mut buffer, &log, to);
        assert_eq!((w.tick, state_hash(&w), w.state), played(&log, SimState::Replaying, to));
    }
    seek(&mut w, &mut buffer, &log, 9000);
    assert_eq!((w.tick, state_hash(&w), w.state), played(&log, SimState::Replaying, 600));
}

#[test]
fn catching_up_comes_in_bursts() {
    let mut w = opening::<Real>(1, SimState::CatchingUp);
    let mut buffer = fresh_buffer();
    let log = ReplayLog { map: HashMap::new(), target: 700 };
    catch_up(&mut w, &mut buffer, &log);
    assert_eq!((w.tick, w.state), (600, SimState::CatchingUp));
    let mut control = ReplayControl::new();
    drive_replay(&mut w, &mut buffer, &log, &mut control);
    assert_eq!((w.tick, w.state), (700, SimState::Playing));
    drive_replay(&mut w, &mut buffer, &log, &mut control);
    assert_eq!(w.tick, 700);
}

#[test]
fn recordings_can_be_steered() {
    let mut w = opening::<Real>(42, SimState::Replaying);
    let mut buffer = fresh_buffer();
    let log = ReplayLog { map: HashMap::new(), target: 100 };
    let mut c = ReplayControl::new();
    replay_input(w.state, &mut c, ReplayKey::Speed(8), w.tick);
    drive_recording(&mut w, &mut buffer, &log, &mut c);
    assert_eq!(w.tick, 8);
    replay_input(w.state, &mut c, ReplayKey::Space, w.tick);
    drive_recording(&mut w, &mut buffer, &log, &mut c);
    assert_eq!(w.tick, 8);
    replay_input(w.state, &mut c, ReplayKey::Forward, w.tick);
    assert_eq!(c.seek_to, Some(308));
    drive_recording(&mut w, &mut buffer, &log, &mut c);
    assert_eq!(w.tick, 100);
    replay_input(w.state, &mut c, ReplayKey::Back, 350);
    assert_eq!(c.seek_to, Some(50));
    drive_recording(&mut w, &mut buffer, &log, &mut c);
    assert_eq!((w.tick, c.paused), (50, true));
    replay_input(w.state, &mut c, ReplayKey::Back, w.tick);
    assert_eq!(c.seek_to, Some(0));
    drive_recording(&mut w, &mut buffer, &log, &mut c);
    assert_eq!(w.tick, 0);
    replay_input(w.state, &mut c, ReplayKey::Space, w.tick);
    for _ in 0..13 {
        drive_recording(&mut w, &mut buffer, &log, &mut c);
    }
    assert_eq!((w.tick, c.paused), (100, true));
    replay_input(SimState::Solo, &mut c, ReplayKey::Space, w.tick);
    assert!(c.paused);
}

#[test]
fn obs_layout_is_sound() {
    let w = SimWorld::<Real>::new();
    let obs: Vec<f32> = w.obs().iter().map(|x| x.0).collect();
    assert_eq!(obs.len(), OBS_SIZE);
    for i in 0..5 {
        let block = &obs[4 + i * 4..4 + (i + 1) * 4];
        assert_eq!(block.iter().sum::<f32>(), 1.0, "block {i}");
        assert!(block.iter().all(|&x| x == 0.0 || x == 1.0));
    }
    assert!(obs[28..34].iter().all(|&x| x == 1.0));
    assert!(obs[34..40].iter().all(|&x| x == 0.0));
    assert_eq!(obs[40], 0.0);
    assert_eq!(obs[41], 0.0);
    assert_eq!(obs[0], elixir_start::<Real>().0 / elixir_max::<Real>().0);
    let red: Vec<f32> = w.obs_for(Faction::Enemy).iter().map(|x| x.0).collect();
    assert_eq!(red.len(), OBS_SIZE);
    assert_eq!(red[0], obs[1]);
    assert_eq!(red[1], obs[0]);
}

#[test]
fn observations_tell_of_troops() {
    let mut w = SimWorld::<Real>::new();
    w.world.units.push(Actor {
        pos: v(4.5, 1.0, -7.5),
        health: Health { current: Real(50.0), max: Real(200.0) },
        unit: Unit::troop(Faction::Player, 2, Real(0.5), Real(1.0)),
        ..monster(Faction::Player)
    });
    w.world.buffs.push(None);
    let blue: Vec<f32> = w.obs().iter().map(|x| x.0).collect();
    assert_eq!(&blue[42..50], &[0.0, 0.0, 0.0, 1.0, 0.0, 0.5, -0.5, 0.25]);
    assert_eq!((blue[40], blue[41]), (0.0, 0.05));
    let red: Vec<f32> = w.obs_for(Faction::Enemy).iter().map(|x| x.0).collect();
    assert_eq!(&red[42..50], &[1.0, 0.0, 0.0, 1.0, 0.0, -0.5, 0.5, 0.25]);
    assert_eq!((red[40], red[41]), (0.05, 0.0));
}

#[test]
fn scripted_opponent_deploys_when_rich() {
    let mut w = SimWorld::<Real>::new();
    w.world.elixir.enemy = Real(3.0);
    assert_eq!(scripted_action(&w.world, Faction::Enemy), NOOP_ACTION);
    w.world.elixir.enemy = Real(9.0);
    let a = scripted_action(&w.world, Faction::Enemy);
    assert_ne!(a, NOOP_ACTION);
    let mask = action_mask(&w.world, Faction::Enemy);
    assert!(mask[a]);
}

#[test]
fn scripted_opponent_turns_to_the_healthy_flank() {
    let mut w = SimWorld::<Real>::new();
    w.world.elixir.enemy = Real(9.0);
    let right = scripted_action(&w.world, Faction::Enemy);
    for a in w.world.units.iter_mut() {
        if a.unit.faction == Faction::Player && a.pos.x.0 > 0.0 {
            a.health.current = Real(10.0);
        }
    }
    let left = scripted_action(&w.world, Faction::Enemy);
    let (xr, _) = cell_to_pos::<Real>(Faction::Enemy, right % 112);
    let (xl, _) = cell_to_pos::<Real>(Faction::Enemy, left % 112);
    assert!(xr.0 > 0.0 && xl.0 < 0.0);
}

#[test]
fn random_self_play_completes_episode() {
    let mut w = SimWorld::<Real>::new();
    w.world.timer.ticks_left = 600;
    let mut result = None;
    for i in 0..2000u32 {
        let act = |salt: u32, z: f32| {
            if i % 4 == 0 {
                Some(EnvAction {
                    slot: ((i + salt) % 4) as usize,
                    x: Real(((i * 7 + salt) % 13) as f32 - 6.0),
                    z: Real(z),
                })
            } else {
                None
            }
        };
        let r = w.step(act(1, -5.0), act(3, 5.0));
        if r.done {
            result = Some(r);
            break;
        }
    }
    let result = result.expect("the match ends");
    println!("episode: {} ticks, winner: {:?}", w.tick(), result.winner);
    assert!(w.tick() > 0);
}

#[test]
fn steps_take_half_a_second() {
    let mut w = SimWorld::<Real>::new();
    let before = w.elixir(Faction::Player).0;
    let slot = (0..4).find(|s| w.hand_card(Faction::Player, *s) == Some(0)).unwrap();
    let r = w.step(Some(EnvAction { slot, x: Real(0.0), z: Real(-5.0) }), None);
    assert_eq!(w.tick(), 15);
    assert!(!r.done && r.winner.is_none());
    assert!(w.elixir(Faction::Player).0 < before);
    assert_eq!(w.world.log.len(), 1);
    assert_eq!(w.world.log[0].0, 1);
    // One card played; its troop is still on its way, and so not lost.
    assert!((r.reward.0 - 0.004).abs() < 1e-6, "{:?}", r.reward);
    let r = w.step(None, None);
    assert_eq!(r.reward, Real(0.0));
}

#[test]
fn short_episodes_end_and_restart() {
    let mut w = SimWorld::<Real>::new().with_regular_ticks(30);
    w.reset(5);
    assert_eq!(w.world.timer.ticks_left, 30);
    w.world.units.remove(1);
    w.world.buffs.remove(1);
    w.step(None, None);
    let r = w.step(None, None);
    assert!(r.done);
    assert_eq!(r.winner, Some(Faction::Enemy));
    assert!(r.reward.0 < -0.9);
    let r = w.step(None, None);
    assert!(r.done);
    assert_eq!(w.tick(), 30);
    w.reset(6);
    assert_eq!(w.tick(), 0);
    assert_eq!(w.tower_snaps().len(), 6);
}

#[test]
fn actions_and_cells() {
    assert!(idx_to_action::<Real>(Faction::Player, NOOP_ACTION).is_none());
    let a = idx_to_action::<Real>(Faction::Player, 112 + 9).unwrap();
    assert_eq!(a.slot, 1);
    assert_eq!(a.x, Real(-5.0));
    assert!((a.z.0 + (2.0 + 12.0 / 13.0)).abs() < 1e-6);
    let w = SimWorld::<Real>::new();
    let mask = action_mask(&w.world, Faction::Player);
    assert_eq!(mask.len(), N_ACTIONS);
    assert!(mask[NOOP_ACTION]);
}

#[test]
fn planless_players() {
    let mut rng = 0u32;
    let mut played = 0;
    for _ in 0..400 {
        if let Some(a) = random_action::<Real>(&mut rng, Real(-1.0)) {
            played += 1;
            assert!(a.slot < 4);
            assert!(a.x.0 >= -6.0 && a.x.0 <= 6.0);
            assert!(a.z.0 <= -2.0 && a.z.0 >= -12.0);
        }
    }
    assert_eq!(rng, 400);
    assert!(played > 60 && played < 140, "{played}");
}

#[test]
fn networks_choose_the_best_legal_action() {
    let w = vec![vec![Real(1.0), Real(2.0)], vec![Real(-1.0), Real(0.5)]];
    let y = linear(&w, &vec![Real(0.5), Real(0.0)], &vec![Real(3.0), Real(4.0)]);
    assert_eq!(y, vec![Real(11.5), Real(-1.0)]);
    let logits = vec![Real(1.0), Real(3.0), Real(3.0), Real(9.0)];
    assert_eq!(best_action(&logits, &vec![true, true, true, false]), 1);
    assert_eq!(best_action(&logits, &vec![false, false, true]), 2);
    assert_eq!(best_action(&logits, &vec![]), NOOP_ACTION);
    assert!(!fits(&w));
    assert!(fits(&vec![vec![Real(0.0); OBS_SIZE]]));
}

#[test]
fn the_computer_thinks_once_per_step() {
    let mut last = 0u32;
    assert!(!due(SimState::Solo, 0, &mut last));
    assert!(due(SimState::Solo, 15, &mut last));
    assert!(!due(SimState::Solo, 15, &mut last));
    assert!(!due(SimState::Solo, 16, &mut last));
    assert!(!due(SimState::Replaying, 30, &mut last));
    assert!(due(SimState::Playing, 30, &mut last));
    let w = SimWorld::<Real>::new();
    assert!(command_of::<Real>(&w.world.decks, Faction::Enemy, NOOP_ACTION).is_none());
    match command_of::<Real>(&w.world.decks, Faction::Enemy, 0) {
        Some(GameCommand::Deploy { faction, card, x, z }) => {
            assert_eq!((faction, card), (Faction::Enemy, w.world.decks.enemy[0]));
            assert_eq!((x, z), (Real(-7.0), Real(2.0)));
        }
        None => panic!("action 0 plays a card"),
    }
}

#[test]
fn fixed_point_numbers() {
    let half = Fixed::ratio(1, 2);
    assert_eq!(half.raw, 32768);
    assert_eq!(Fixed::ratio(-1, 2).raw, -32768);
    assert_eq!(half.times(half), Fixed::ratio(1, 4));
    assert_eq!(Fixed::ratio(2, 1).root().raw, 92681);
    assert_eq!(Fixed::ratio(-7, 2).truncated(), -3);
    assert_eq!(Fixed::ratio(-7, 2).ceiling(), Fixed::ratio(-3, 1));
    assert_eq!(Fixed::ratio(7, 2).ceiling(), Fixed::ratio(4, 1));
    assert_eq!(Fixed::ratio(7, 2).fraction(), half);
    assert_eq!(Fixed::ratio(1, 1).over(Fixed::ratio(0, 1)), Fixed::infinity());
    assert_eq!(Fixed::infinity().plus(half), Fixed::infinity());
    assert_eq!(half.nanos(), 500_000_000);
    assert_eq!(Fixed::ratio(-3, 1).sign(), Fixed::ratio(-1, 1));
    assert_eq!(Fixed::ratio(-3, 1).magnitude(), Fixed::ratio(3, 1));
    assert_eq!(Fixed::ratio(3, 1).negated().bits(), 0xFFFD_0000);
    assert!(half.less(Fixed::ratio(1, 1)) && half.at_most(half) && half.same(half));
    assert_eq!(half.least(Fixed::ratio(1, 1)), half);
    assert_eq!(half.most(Fixed::ratio(1, 1)), Fixed::ratio(1, 1));
}

#[test]
fn refused_actions_are_free() {
    let act = |slot: usize, z: f32| Some(EnvAction { slot, x: Real(0.0), z: Real(z) });
    for (elixir, z) in [(0.0, -5.0), (9.0, 9.0)] {
        let mut with = SimWorld::<Real>::new();
        let mut without = SimWorld::<Real>::new();
        let slot = (0..4).find(|s| with.hand_card(Faction::Player, *s) == Some(0)).unwrap();
        with.world.elixir.player = Real(elixir);
        without.world.elixir.player = Real(elixir);
        let a = with.step(act(slot, z), None);
        let b = without.step(None, None);
        assert_eq!(a.reward, b.reward);
        assert_eq!(a.obs, b.obs);
        assert_eq!((a.done, a.winner), (b.done, b.winner));
        assert_eq!((with.world.log.len(), without.world.log.len()), (1, 0));
        assert_eq!(state_hash(&with.world), state_hash(&without.world));
    }
}

#[test]
fn only_what_was_there_is_lost() {
    let dead = |f: Faction| Actor { health: Health { current: Real(0.0), max: Real(100.0) }, ..monster(f) };
    for (faction, reward) in [(Faction::Player, -0.01), (Faction::Enemy, 0.01)] {
        let mut w = SimWorld::<Real>::new();
        w.world.units.push(dead(faction));
        w.world.buffs.push(None);
        let r = w.step(None, None);
        assert!((r.reward.0 - reward).abs() < 1e-6, "{:?}", r.reward);
        let r = w.step(None, None);
        assert_eq!(r.reward, Real(0.0));
    }
}

#[test]
fn runs_tell_what_they_count() {
    let mut w = opening::<Real>(0, SimState::Solo);
    let mut buffer = CommandBuffer { local: HashMap::new(), remote: HashMap::new() };
    let c = w.decks.player[0];
    let cmd = |x: f32| GameCommand::Deploy { faction: Faction::Player, card: c, x: Real(x), z: Real(-5.0) };
    // The second has to fail: the card has gone to the end of the queue.
    buffer.local.insert(3, vec![cmd(1.0), cmd(1.0)]);
    let tally = run(&mut w, &mut buffer, 10);
    assert_eq!((tally.blue.plays, tally.red.plays), (1, 0));
    assert_eq!((tally.blue.losses, tally.red.losses), (0, 0));
    assert_eq!((w.tick, w.log.len()), (10, 2));
}

#[test]
fn equal_steps_of_equal_episodes_tell_the_same() {
    let mut a = SimWorld::<Real>::new();
    let mut b = SimWorld::<Real>::new();
    b.step(Some(EnvAction { slot: 1, x: Real(2.0), z: Real(-6.0) }), None);
    assert_eq!(a.reset(9), b.reset(9));
    for k in 0..12 {
        let act = |f: Faction| idx_to_action::<Real>(f, (k * 37) % N_ACTIONS);
        let r = a.step(act(Faction::Player), act(Faction::Enemy));
        let s = b.step(act(Faction::Player), act(Faction::Enemy));
        assert_eq!((r.obs, r.reward, r.done, r.winner), (s.obs, s.reward, s.done, s.winner));
        assert_eq!(a.tick(), 15 * (k as u32 + 1));
    }
    assert_eq!(state_hash(&a.world), state_hash(&b.world));
    assert!(a.buffer.local.is_empty() && a.buffer.remote.is_empty());
}
