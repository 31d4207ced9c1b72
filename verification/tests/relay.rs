//! The relay's rooms.

use cr_arena::fixed::Fixed;
use cr_arena::protocol::{ClientMsg, CommandWire, ServerMsg};
use cr_arena::relay::{Action, Line, Relay};
use cr_arena::scalar::Scalar;

const SEC: u64 = 1_000_000_000;

fn q(n: i64) -> Fixed {
    Fixed::ratio(n, 1)
}

/// An action in words.
fn tell(a: &Action<Fixed>) -> String {
    match a {
        Action::Send { line, msg } => {
            let m = match msg {
                ServerMsg::Joined { index } => format!("joined {index}"),
                ServerMsg::Start { seed } => format!("start {seed}"),
                ServerMsg::History { entries, current_tick, seed } => {
                    format!("history {} {current_tick} {seed}", entries.len())
                }
                ServerMsg::OpponentLeft => format!("left"),
                ServerMsg::OpponentBack => format!("back"),
                ServerMsg::Commands { tick, cmds } => format!("commands {tick} {}", cmds.len()),
                ServerMsg::Hash { tick, hash } => format!("hash {tick} {hash}"),
            };
            format!("{line}: {m}")
        }
        Action::Save { room, finished, file } => format!(
            "save {room} {finished} v{} {} {}",
            file.version,
            file.end_tick,
            file.entries.len()
        ),
    }
}

fn told(actions: &Vec<Action<Fixed>>) -> Vec<String> {
    actions.iter().map(tell).collect()
}

struct Desk {
    relay: Relay<Fixed>,
    lines: Vec<Line>,
    now: u64,
}

impl Desk {
    fn new() -> Self {
        Desk { relay: Relay::new(), lines: vec![Line::new(); 5], now: 0 }
    }

    fn say(&mut self, line: usize, msg: ClientMsg<Fixed>) -> Vec<String> {
        let mut l = self.lines[line];
        let a = self.relay.on_message(&mut l, line as u64, msg, self.now, 5);
        self.lines[line] = l;
        told(&a)
    }

    fn join(&mut self, line: usize, token: u64) -> Vec<String> {
        self.say(line, ClientMsg::Join { room: 3, token })
    }

    fn command(&mut self, line: usize, tick: u32, n: usize) -> Vec<String> {
        let cmds = vec![CommandWire::Deploy { faction: 9, card: 4, x: q(50), z: q(-50) }; n];
        self.say(line, ClientMsg::Commands { tick, cmds })
    }

    fn hang_up(&mut self, line: usize) -> Vec<String> {
        let a = self.relay.on_hang_up(self.lines[line], self.now);
        self.lines[line] = Line::new();
        told(&a)
    }
}

fn words(list: &[&str]) -> Vec<String> {
    list.iter().map(|s| s.to_string()).collect()
}

#[test]
fn two_players_start_a_match() {
    let mut d = Desk::new();
    assert_eq!(d.join(0, 100), words(&["0: joined 0"]));
    assert_eq!(d.join(1, 200), words(&["1: joined 1", "0: start 6", "1: start 6"]));
    assert_eq!(d.join(2, 300), words(&[]));
    assert_eq!(d.lines[2], Line::new());
    assert_eq!(d.relay.rooms[&3].seats.len(), 2);
}

#[test]
fn commands_are_made_harmless_and_passed_on() {
    let mut d = Desk::new();
    d.join(0, 100);
    d.join(1, 200);
    let mut l = d.lines[1];
    let cmds = vec![CommandWire::Deploy { faction: 0, card: 4, x: q(50), z: q(-50) }];
    let a = d.relay.on_message(&mut l, 1, ClientMsg::Commands { tick: 8, cmds }, 0, 0);
    assert_eq!(a.len(), 1);
    match &a[0] {
        Action::Send { line, msg: ServerMsg::Commands { tick, cmds } } => {
            assert_eq!((*line, *tick), (0, 8));
            match cmds[0] {
                CommandWire::Deploy { faction, card, x, z } => {
                    assert_eq!((faction, card, x, z), (1, 4, q(8), q(-14)));
                }
            }
        }
        _ => panic!("commands are passed on"),
    }
    assert_eq!(d.command(0, 9, 0), words(&["1: commands 9 0"]));
    let room = &d.relay.rooms[&3];
    assert_eq!(room.log.len(), 1);
    assert_eq!((room.log[0].tick, room.log[0].from), (8, 1));
    assert_eq!(room.tick_estimate(), 5);
    assert_eq!(d.say(0, ClientMsg::Hash { tick: 7, hash: 11 }), words(&["1: hash 7 11"]));
}

#[test]
fn lines_without_a_room_are_ignored() {
    let mut d = Desk::new();
    assert_eq!(d.command(0, 9, 1), words(&[]));
    assert_eq!(d.say(0, ClientMsg::GameOver { end_tick: 3 }), words(&[]));
    assert_eq!(d.hang_up(0), words(&[]));
    assert!(d.relay.rooms.is_empty());
}

#[test]
fn the_absent_find_their_mail() {
    let mut d = Desk::new();
    d.join(0, 100);
    d.join(1, 200);
    d.command(0, 10, 1);
    assert_eq!(d.hang_up(1), words(&["0: left"]));
    assert_eq!(d.command(0, 11, 1), words(&[]));
    assert_eq!(d.command(0, 12, 0), words(&[]));
    assert_eq!(d.say(0, ClientMsg::Hash { tick: 7, hash: 11 }), words(&[]));
    assert_eq!(
        d.join(4, 200),
        words(&["4: joined 1", "4: history 2 8 6", "4: commands 11 1", "4: commands 12 0", "0: back"])
    );
    assert_eq!(d.lines[4], Line { room: Some(3), index: 1 });
    assert_eq!(d.command(0, 13, 0), words(&["4: commands 13 0"]));
}

#[test]
fn time_goes_on_in_empty_rooms() {
    let mut d = Desk::new();
    d.join(0, 100);
    d.join(1, 200);
    d.command(0, 104, 1);
    d.hang_up(0);
    d.now = 2 * SEC;
    assert_eq!(d.hang_up(1), words(&[]));
    d.now = 12 * SEC + 5;
    assert_eq!(
        d.join(0, 100),
        words(&["0: joined 0", "0: history 1 400 6"])
    );
}

#[test]
fn rooms_that_stay_empty_are_closed() {
    let mut d = Desk::new();
    d.join(0, 100);
    d.join(1, 200);
    d.command(0, 104, 1);
    d.hang_up(0);
    d.hang_up(1);
    d.now = 600 * SEC;
    assert_eq!(told(&d.relay.sweep(d.now)), words(&[]));
    d.now = 601 * SEC;
    assert_eq!(told(&d.relay.sweep(d.now)), words(&["save 3 false v1 100 1"]));
    assert!(d.relay.rooms.is_empty());
    assert_eq!(d.join(0, 100), words(&["0: joined 0"]));
}

#[test]
fn entering_a_stale_room_opens_a_new_one() {
    let mut d = Desk::new();
    d.join(0, 100);
    d.join(1, 200);
    d.command(0, 104, 1);
    d.hang_up(0);
    d.hang_up(1);
    d.now = 700 * SEC;
    assert_eq!(d.join(0, 100), words(&["save 3 false v1 100 1", "0: joined 0"]));
    assert_eq!(d.relay.rooms[&3].seats.len(), 1);
}

#[test]
fn rooms_that_never_start_are_closed_silently() {
    let mut d = Desk::new();
    d.join(0, 100);
    d.now = 601 * SEC;
    assert_eq!(told(&d.relay.sweep(d.now)), words(&[]));
    assert!(d.relay.rooms.is_empty());
    assert!(d.relay.ids.is_empty());
}

#[test]
fn matches_are_recorded_once() {
    let mut d = Desk::new();
    d.join(0, 100);
    d.join(1, 200);
    d.command(0, 20, 2);
    assert_eq!(d.say(0, ClientMsg::GameOver { end_tick: 33 }), words(&["save 3 true v1 33 1"]));
    assert_eq!(d.say(1, ClientMsg::GameOver { end_tick: 33 }), words(&[]));
}

#[test]
fn coming_back_before_the_start_keeps_the_seat() {
    let mut d = Desk::new();
    d.join(0, 100);
    d.hang_up(0);
    assert_eq!(d.join(1, 100), words(&["1: joined 0"]));
    assert_eq!(d.relay.rooms[&3].seats.len(), 1);
    assert_eq!(d.relay.rooms[&3].seats[0].line, 1);
}

#[test]
fn rooms_in_use_are_not_closed() {
    let mut d = Desk::new();
    d.join(0, 11);
    d.hang_up(0);
    assert!(d.relay.rooms[&3].frozen_at.is_some());
    // Back before the match has started: the room is not empty any more.
    d.join(1, 11);
    assert!(d.relay.rooms[&3].frozen_at.is_none());
    d.hang_up(1);
    d.join(2, 12);
    assert!(d.relay.rooms[&3].started);
    assert!(d.relay.rooms[&3].frozen_at.is_none());
    d.now = 700 * SEC;
    assert_eq!(told(&d.relay.sweep(d.now)), Vec::<String>::new());
    assert!(d.relay.rooms.contains_key(&3));
    assert_eq!(d.join(3, 11)[0], "3: joined 0");
    assert_eq!(d.relay.rooms[&3].seats.len(), 2);
}

#[test]
fn full_rooms_turn_strangers_away() {
    let mut d = Desk::new();
    d.join(0, 11);
    d.join(1, 12);
    assert_eq!(d.join(2, 13), Vec::<String>::new());
    let room = &d.relay.rooms[&3];
    assert_eq!(room.seats.iter().map(|s| s.token).collect::<Vec<_>>(), vec![11, 12]);
    assert_eq!(d.lines[2], Line::new());
}

#[test]
fn the_log_holds_harmless_commands() {
    let mut d = Desk::new();
    d.join(0, 11);
    d.join(1, 12);
    d.command(1, 8, 2);
    let e = &d.relay.rooms[&3].log[0];
    assert_eq!((e.tick, e.from, e.cmds.len()), (8, 1, 2));
    for c in &e.cmds {
        let CommandWire::Deploy { faction, card, x, z } = c;
        assert_eq!((*faction, *card, *x, *z), (1, 4, q(8), q(-14)));
    }
}
