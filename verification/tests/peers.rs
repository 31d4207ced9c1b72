//! What peers exchange: messages, hashes, recordings and frames.

use std::collections::HashMap;

use cr_arena::arena::opening;
use cr_arena::components::{Actor, CommandBuffer, Faction, GameCommand};
use cr_arena::fixed::Fixed;
use cr_arena::match_flow::SimState;
use cr_arena::net::{
    collect_inputs, keep_hash, notify_game_over, player_token, sim_ready, starting_state, state_hash,
    Client, Notice, Session,
};
use cr_arena::protocol::{
    body_length, command_to_wire, frame, from_wires, wire_to_command, ClientMsg, CommandWire, FrameError,
    LogEntry, ReplayFile, ServerMsg, MAX_MESSAGE,
};
use cr_arena::recording::{group_log, load_replay, save_replay_on_game_over};
use cr_arena::replay::{drive_sim, ReplayControl, ReplayLog};
use cr_arena::scalar::Scalar;

fn q(n: i64) -> Fixed {
    Fixed::ratio(n, 1)
}

fn deploy(faction: Faction, card: u8) -> GameCommand<Fixed> {
    GameCommand::Deploy { faction, card, x: q(1), z: q(2) }
}

fn wire(faction: u8, card: u8) -> CommandWire<Fixed> {
    CommandWire::Deploy { faction, card, x: q(1), z: q(2) }
}

fn card_of(c: &GameCommand<Fixed>) -> (Faction, u8) {
    match c {
        GameCommand::Deploy { faction, card, .. } => (*faction, *card),
    }
}

fn client(state: SimState) -> Client<Fixed> {
    Client {
        session: Session::new(),
        world: opening(42, state),
        buffer: CommandBuffer { local: HashMap::new(), remote: HashMap::new() },
        replay: ReplayLog { map: HashMap::new(), target: 0 },
        hashes: HashMap::new(),
    }
}

#[test]
fn joining_and_starting() {
    let mut c = client(SimState::Waiting);
    let n = c.receive(vec![ServerMsg::Joined { index: 1 }, ServerMsg::Start { seed: 7 }]);
    assert_eq!(n, vec![Notice::Joined(1), Notice::Started(7)]);
    assert_eq!(c.session.my_index, 1);
    assert_eq!(c.world.state, SimState::Playing);
    assert_eq!(c.world.decks.player, vec![2, 18, 10, 16, 13, 1, 8, 11]);
    assert_eq!(c.receive(vec![ServerMsg::Start { seed: 42 }]), vec![]);
    assert_eq!(c.world.decks.player, vec![2, 18, 10, 16, 13, 1, 8, 11]);
}

#[test]
fn history_starts_a_catch_up() {
    let mut c = client(SimState::Waiting);
    let entries = vec![
        LogEntry { tick: 5, from: 0, cmds: vec![wire(0, 3), wire(9, 4)] },
        LogEntry { tick: 5, from: 1, cmds: vec![wire(1, 6)] },
        LogEntry { tick: 8, from: 0, cmds: vec![wire(0, 7)] },
    ];
    let n = c.receive(vec![ServerMsg::History { entries, current_tick: 90, seed: 0 }]);
    assert_eq!(n, vec![Notice::CatchingUp(3, 90)]);
    assert_eq!(c.world.state, SimState::CatchingUp);
    assert_eq!(c.replay.target, 90);
    let at5: Vec<(Faction, u8)> = c.replay.map[&5].iter().map(card_of).collect();
    assert_eq!(at5, vec![(Faction::Player, 3), (Faction::Enemy, 6)]);
    assert_eq!(c.replay.map[&8].len(), 1);
    assert_eq!(c.world.decks.enemy, vec![0, 17, 16, 13, 4, 6, 20, 1]);
}

#[test]
fn absence_and_return() {
    let mut c = client(SimState::Playing);
    let buffer = &c.buffer;
    assert!(sim_ready(SimState::Playing, buffer, 3, &Some(c.session)));
    assert!(!sim_ready(SimState::Playing, buffer, 4, &Some(c.session)));
    assert!(sim_ready(SimState::Solo, buffer, 4, &None));
    assert!(!sim_ready(SimState::Waiting, buffer, 0, &None));
    assert!(!sim_ready(SimState::GameOver(None), buffer, 0, &None));
    c.receive(vec![ServerMsg::OpponentLeft]);
    assert!(sim_ready(SimState::Playing, &c.buffer, 4, &Some(c.session)));
    let n = c.receive(vec![
        ServerMsg::OpponentBack,
        ServerMsg::Commands { tick: 20, cmds: vec![wire(1, 5)] },
    ]);
    assert_eq!(n, vec![Notice::OpponentBack]);
    assert_eq!(c.session.live_resume_stamp, Some(20));
    assert!(c.session.opponent_live);
    assert!(sim_ready(SimState::Playing, &c.buffer, 19, &Some(c.session)));
    assert!(sim_ready(SimState::Playing, &c.buffer, 20, &Some(c.session)));
    assert!(!sim_ready(SimState::Playing, &c.buffer, 21, &Some(c.session)));
    c.receive(vec![ServerMsg::Commands { tick: 21, cmds: vec![] }]);
    assert_eq!(c.session.live_resume_stamp, Some(20));
    assert!(sim_ready(SimState::Playing, &c.buffer, 21, &Some(c.session)));
}

#[test]
fn drift_is_noticed() {
    let mut c = client(SimState::Playing);
    keep_hash(&mut c.hashes, 12, 0xABCD);
    assert_eq!(c.receive(vec![ServerMsg::Hash { tick: 12, hash: 0xABCD }]), vec![]);
    assert_eq!(c.receive(vec![ServerMsg::Hash { tick: 13, hash: 1 }]), vec![]);
    assert_eq!(
        c.receive(vec![ServerMsg::Hash { tick: 12, hash: 1 }]),
        vec![Notice::Desync { tick: 12, own: 0xABCD, theirs: 1 }]
    );
}

#[test]
fn old_hashes_are_dropped() {
    let mut h: HashMap<u32, u32> = HashMap::new();
    keep_hash(&mut h, 0, 1);
    keep_hash(&mut h, 1, 2);
    keep_hash(&mut h, 3000, 3);
    assert!(!h.contains_key(&0));
    assert_eq!(h.get(&1), Some(&2));
    assert_eq!(h.get(&3000), Some(&3));
}

#[test]
fn hashes_tell_states_apart_but_not_orders() {
    let mut w = opening::<Fixed>(42, SimState::Playing);
    let h = state_hash(&w);
    w.units.swap(0, 5);
    assert_eq!(state_hash(&w), h);
    w.units[0].health.current = q(1);
    assert_ne!(state_hash(&w), h);
    let mut w = opening::<Fixed>(42, SimState::Playing);
    w.decks.player.swap(0, 1);
    assert_ne!(state_hash(&w), h);
    let mut w = opening::<Fixed>(42, SimState::Playing);
    w.elixir.enemy = q(1);
    assert_ne!(state_hash(&w), h);
    let mut w = opening::<Fixed>(42, SimState::Playing);
    let a = w.units[0];
    w.units.clear();
    w.units.push(Actor { health: cr_arena::components::Health { current: Fixed { raw: 1 }, max: q(1) }, ..a });
    w.elixir.player = q(0);
    w.elixir.enemy = q(0);
    w.decks.player = vec![1, 1];
    w.decks.enemy = vec![1];
    assert_eq!(state_hash(&w), 128 + 1 + 2 + 4);
}

#[test]
fn clicks_are_stamped() {
    let mut pending = vec![deploy(Faction::Player, 3), deploy(Faction::Player, 4)];
    let mut buffer = CommandBuffer { local: HashMap::new(), remote: HashMap::new() };
    assert!(collect_inputs(SimState::Waiting, &mut pending, &mut buffer, 10).is_none());
    assert_eq!(pending.len(), 2);
    let (stamp, wires) = collect_inputs(SimState::Playing, &mut pending, &mut buffer, 10).unwrap();
    assert_eq!((stamp, wires.len(), pending.len()), (14, 2, 0));
    assert_eq!(buffer.local[&14].len(), 2);
    let (stamp, wires) = collect_inputs(SimState::Playing, &mut pending, &mut buffer, 11).unwrap();
    assert_eq!((stamp, wires.len()), (15, 0));
    assert!(!buffer.local.contains_key(&15));
}

#[test]
fn two_clients_stay_in_step() {
    let mut blue = client(SimState::Playing);
    let mut red = client(SimState::Playing);
    let mut own_blue = vec![];
    let mut own_red = vec![];
    for t in 0..200u32 {
        if t % 20 == 0 {
            let c = blue.world.decks.player[0];
            own_blue.push(GameCommand::Deploy { faction: Faction::Player, card: c, x: q(1), z: q(-5) });
            let c = red.world.decks.enemy[1];
            own_red.push(GameCommand::Deploy { faction: Faction::Enemy, card: c, x: q(-1), z: q(5) });
        }
        let (tb, wb) = collect_inputs(SimState::Playing, &mut own_blue, &mut blue.buffer, t).unwrap();
        let (tr, wr) = collect_inputs(SimState::Playing, &mut own_red, &mut red.buffer, t).unwrap();
        red.receive(vec![ServerMsg::Commands { tick: tb, cmds: wb }]);
        blue.receive(vec![ServerMsg::Commands { tick: tr, cmds: wr }]);
        assert!(drive_sim(&mut blue.world, &mut blue.buffer, &Some(blue.session)));
        assert!(drive_sim(&mut red.world, &mut red.buffer, &Some(red.session)));
        assert_eq!(state_hash(&blue.world), state_hash(&red.world), "tick {t}");
    }
    assert!(blue.world.log.len() >= 18);
    for _ in 0..4 {
        assert!(drive_sim(&mut blue.world, &mut blue.buffer, &Some(blue.session)));
    }
    assert!(!drive_sim(&mut blue.world, &mut blue.buffer, &Some(blue.session)));
    assert_eq!(blue.world.tick, 204);
}

fn to_server(msgs: Vec<ClientMsg<Fixed>>) -> Vec<ServerMsg<Fixed>> {
    msgs.into_iter()
        .filter_map(|m| match m {
            ClientMsg::Commands { tick, cmds } => Some(ServerMsg::Commands { tick, cmds }),
            ClientMsg::Hash { tick, hash } => Some(ServerMsg::Hash { tick, hash }),
            _ => None,
        })
        .collect()
}

#[test]
fn ticks_send_inputs_and_hashes() {
    let mut blue = client(SimState::Playing);
    let mut red = client(SimState::Playing);
    let (mut seen_blue, mut seen_red) = (false, false);
    let mut clicks = vec![deploy(Faction::Player, blue.world.decks.player[0])];
    for t in 0..40u32 {
        let from_blue = blue.tick(&mut clicks, true, &mut seen_blue);
        let from_red = red.tick(&mut vec![], true, &mut seen_red);
        assert!(clicks.is_empty());
        assert_eq!(from_blue.len(), 2);
        assert!(matches!(&from_blue[0], ClientMsg::Commands { tick, cmds }
            if *tick == t + 4 && cmds.len() == if t == 0 { 1 } else { 0 }));
        assert!(matches!(&from_blue[1], ClientMsg::Hash { tick, .. } if *tick == t));
        assert_eq!(blue.receive(to_server(from_red)), vec![]);
        assert_eq!(red.receive(to_server(from_blue)), vec![]);
    }
    assert_eq!((blue.world.log.len(), red.world.log.len()), (1, 1));
    assert_eq!((blue.hashes.len(), red.hashes.len()), (40, 40));
    red.world.elixir.enemy = q(0);
    let from_red = red.tick(&mut vec![], true, &mut seen_red);
    blue.tick(&mut vec![], true, &mut seen_blue);
    assert!(matches!(blue.receive(to_server(from_red))[..], [Notice::Desync { tick: 40, .. }]));
}

#[test]
fn ticks_wait_for_the_opponent() {
    let mut c = client(SimState::Playing);
    let mut reported = false;
    for _ in 0..4 {
        assert_eq!(c.tick(&mut vec![], true, &mut reported).len(), 2);
    }
    let mut clicks = vec![deploy(Faction::Player, 0)];
    assert!(c.tick(&mut clicks, true, &mut reported).is_empty());
    assert_eq!((c.world.tick, clicks.len(), c.hashes.len()), (4, 1, 4));
    let mut alone = client(SimState::Solo);
    assert!(alone.tick(&mut clicks, false, &mut reported).is_empty());
    assert_eq!((alone.world.tick, clicks.len(), alone.hashes.len()), (1, 0, 1));
    assert_eq!(alone.buffer.local[&4].len(), 1);
}

#[test]
fn a_catch_up_tells_its_hashes() {
    let mut c = client(SimState::CatchingUp);
    c.replay.target = 3;
    let mut control = ReplayControl::new();
    let mut reported = false;
    let out = c.frame(&mut control, &mut reported);
    assert_eq!((c.world.tick, c.world.state), (3, SimState::Playing));
    assert_eq!(out.len(), 3);
    for (i, m) in out.iter().enumerate() {
        assert!(matches!(m, ClientMsg::Hash { tick, hash }
            if *tick == i as u32 && c.hashes[tick] == *hash));
    }
    assert!(c.frame(&mut control, &mut reported).is_empty());
    assert!(!reported);
}

#[test]
fn a_catch_up_tells_the_end() {
    let mut c = client(SimState::CatchingUp);
    c.replay.target = 3;
    for a in c.world.units.iter_mut() {
        if a.king && a.unit.faction == Faction::Enemy {
            a.health.current = q(0);
        }
    }
    let mut reported = false;
    let out = c.frame(&mut ReplayControl::new(), &mut reported);
    assert_eq!(c.world.state, SimState::GameOver(Some(Faction::Player)));
    assert!(reported);
    assert_eq!(out.len(), 2);
    assert!(matches!(out[0], ClientMsg::GameOver { end_tick: 0 }));
    assert!(matches!(out[1], ClientMsg::Hash { tick: 0, .. }));
}

#[test]
fn the_end_is_reported_once() {
    let mut fired = false;
    assert!(!notify_game_over(SimState::Playing, &mut fired));
    assert!(notify_game_over(SimState::GameOver(None), &mut fired));
    assert!(!notify_game_over(SimState::GameOver(None), &mut fired));
}

#[test]
fn commands_travel() {
    let c = deploy(Faction::Enemy, 9);
    let w = command_to_wire(c);
    assert!(matches!(w, CommandWire::Deploy { faction: 1, card: 9, .. }));
    assert_eq!(card_of(&wire_to_command(w).unwrap()), (Faction::Enemy, 9));
    assert!(wire_to_command(wire(2, 9)).is_none());
    let cmds = from_wires(&vec![wire(0, 1), wire(7, 2), wire(1, 3)]);
    assert_eq!(cmds.iter().map(card_of).collect::<Vec<_>>(), vec![(Faction::Player, 1), (Faction::Enemy, 3)]);
}

#[test]
fn frames() {
    let f = frame(&vec![9; 300]);
    assert_eq!(&f[..4], &[44, 1, 0, 0]);
    assert_eq!(f.len(), 304);
    assert_eq!(body_length([f[0], f[1], f[2], f[3]]), Ok(300));
    assert_eq!(frame(&vec![]), vec![0, 0, 0, 0]);
    let max = (MAX_MESSAGE as u32).to_le_bytes();
    assert_eq!(body_length(max), Ok(MAX_MESSAGE));
    let over = (MAX_MESSAGE as u32 + 1).to_le_bytes();
    assert_eq!(body_length(over), Err(FrameError::TooLarge(1_000_001)));
    assert_eq!(body_length([255; 4]), Err(FrameError::TooLarge(u32::MAX)));
}

#[test]
fn recordings_group_by_tick() {
    let log = vec![
        (9, deploy(Faction::Player, 1)),
        (4, deploy(Faction::Enemy, 2)),
        (9, deploy(Faction::Enemy, 3)),
    ];
    let entries = group_log(&log);
    let ticks: Vec<(u32, usize, u8)> = entries.iter().map(|e| (e.tick, e.cmds.len(), e.from)).collect();
    assert_eq!(ticks, vec![(4, 1, 0), (9, 2, 0)]);
    let file = ReplayFile { version: 6, end_tick: 77, entries };
    let (replay, faithful) = load_replay(&file);
    assert!(faithful);
    assert_eq!(replay.target, 77);
    assert_eq!(
        replay.map[&9].iter().map(card_of).collect::<Vec<_>>(),
        vec![(Faction::Player, 1), (Faction::Enemy, 3)]
    );
    let (_, faithful) = load_replay(&ReplayFile { version: 5, ..file });
    assert!(!faithful);
}

#[test]
fn recordings_are_saved_once_and_only_of_matches() {
    let log = vec![(1, deploy(Faction::Player, 1))];
    let mut saved = false;
    assert!(save_replay_on_game_over(SimState::Playing, 5, &log, false, &mut saved).is_none());
    assert!(save_replay_on_game_over(SimState::GameOver(None), 5, &log, true, &mut saved).is_none());
    let f = save_replay_on_game_over(SimState::GameOver(None), 5, &log, false, &mut saved).unwrap();
    assert_eq!((f.version, f.end_tick, f.entries.len()), (6, 5, 1));
    assert!(save_replay_on_game_over(SimState::GameOver(None), 6, &log, false, &mut saved).is_none());
}

#[test]
fn starts_and_tokens() {
    assert_eq!(starting_state(true, true, true), SimState::Replaying);
    assert_eq!(starting_state(false, true, true), SimState::Solo);
    assert_eq!(starting_state(false, false, true), SimState::Waiting);
    assert_eq!(starting_state(false, false, false), SimState::Solo);
    assert_eq!(player_token(Some(1), Some(2), 3, 4), (1, false));
    assert_eq!(player_token(None, Some(2), 3, 4), (2, false));
    assert_eq!(player_token(None, None, 3, 4), (3 ^ (4 << 32), true));
}

#[test]
fn entries_of_one_tick_are_joined() {
    let file = ReplayFile {
        version: 6,
        end_tick: 20,
        entries: vec![
            LogEntry { tick: 7, from: 0, cmds: vec![wire(0, 4)] },
            LogEntry { tick: 7, from: 1, cmds: vec![wire(1, 5)] },
        ],
    };
    let (replay, faithful) = load_replay(&file);
    assert!(faithful);
    assert_eq!(replay.target, 20);
    assert_eq!(replay.map.len(), 1);
    assert_eq!(
        replay.map[&7].iter().map(card_of).collect::<Vec<_>>(),
        vec![(Faction::Player, 4), (Faction::Enemy, 5)]
    );
}
