//! What clients and the relay say to each other, and how messages are cut out of a stream.

use vstd::prelude::*;

use crate::components::{Faction, GameCommand};
use crate::scalar::Scalar;

verus! {

/// A command as it travels: the side is a seat number.
#[derive(Clone, Copy, Debug)]
pub enum CommandWire<S> {
    Deploy { faction: u8, card: u8, x: S, z: S },
}

/// The commands that one client gave for one tick; empty ticks have no entry.
#[derive(Debug)]
pub struct LogEntry<S> {
    pub tick: u32,
    /// The seat of the sender.
    pub from: u8,
    pub cmds: Vec<CommandWire<S>>,
}

/// A log entry as a mathematical value.
pub ghost struct EntryModel<S> {
    pub tick: u32,
    pub from: u8,
    pub cmds: Seq<CommandWire<S>>,
}

impl<S: Scalar> View for LogEntry<S> {
    type V = EntryModel<S>;

    open spec fn view(&self) -> EntryModel<S> {
        EntryModel { tick: self.tick, from: self.from, cmds: self.cmds@ }
    }
}

/// A log as a mathematical value.
pub open spec fn log_model<S: Scalar>(log: Seq<LogEntry<S>>) -> Seq<EntryModel<S>> {
    log.map_values(|e: LogEntry<S>| e@)
}

/// A copy of a list of commands.
pub fn copy_wires<S: Scalar>(cmds: &Vec<CommandWire<S>>) -> (r: Vec<CommandWire<S>>)
    ensures
        r@ == cmds@,
{
    let n: usize = cmds.len();
    let mut r: Vec<CommandWire<S>> = Vec::new();
    for i in 0..n
        invariant
            n == cmds@.len(),
            r@ == cmds@.take(i as int),
    {
        r.push(cmds[i]);
        assert(r@ =~= cmds@.take(i + 1));
    }
    assert(r@ =~= cmds@);
    r
}

/// A copy of a log.
pub fn copy_log<S: Scalar>(log: &Vec<LogEntry<S>>) -> (r: Vec<LogEntry<S>>)
    ensures
        log_model(r@) == log_model(log@),
{
    let n: usize = log.len();
    let mut r: Vec<LogEntry<S>> = Vec::new();
    for i in 0..n
        invariant
            n == log@.len(),
            r@.len() == i,
            forall|j: int| 0 <= j < i ==> (#[trigger] r@[j])@ == log@[j]@,
    {
        let e: &LogEntry<S> = &log[i];
        r.push(LogEntry { tick: e.tick, from: e.from, cmds: copy_wires(&e.cmds) });
    }
    assert(log_model(r@) =~= log_model(log@));
    r
}

/// A recording.
#[derive(Debug)]
pub struct ReplayFile<S> {
    pub version: u32,
    /// The tick at which the match was over.
    pub end_tick: u32,
    pub entries: Vec<LogEntry<S>>,
}

/// From a client to the relay.
#[derive(Debug)]
pub enum ClientMsg<S> {
    /// Wants a seat; the token claims a lost one back.
    Join { room: u32, token: u64 },
    /// The commands for a tick; none at all keeps the opponent going.
    Commands { tick: u32, cmds: Vec<CommandWire<S>> },
    /// What the state hashed to.
    Hash { tick: u32, hash: u32 },
    /// The match is over.
    GameOver { end_tick: u32 },
}

/// A message to the relay as a mathematical value.
pub ghost enum ClientMsgModel<S> {
    Join { room: u32, token: u64 },
    Commands { tick: u32, cmds: Seq<CommandWire<S>> },
    Hash { tick: u32, hash: u32 },
    GameOver { end_tick: u32 },
}

impl<S: Scalar> View for ClientMsg<S> {
    type V = ClientMsgModel<S>;

    open spec fn view(&self) -> ClientMsgModel<S> {
        match *self {
            ClientMsg::Join { room, token } => ClientMsgModel::Join { room, token },
            ClientMsg::Commands { tick, cmds } => ClientMsgModel::Commands { tick, cmds: cmds@ },
            ClientMsg::Hash { tick, hash } => ClientMsgModel::Hash { tick, hash },
            ClientMsg::GameOver { end_tick } => ClientMsgModel::GameOver { end_tick },
        }
    }
}

/// From the relay to a client.
#[derive(Debug)]
pub enum ServerMsg<S> {
    /// The seat: 0 is blue, 1 is red.
    Joined { index: u8 },
    /// Both are here; the seed deals the cards.
    Start { seed: u32 },
    /// All that happened so far, for one who is back.
    History { entries: Vec<LogEntry<S>>, current_tick: u32, seed: u32 },
    /// The opponent is gone; the match goes on without.
    OpponentLeft,
    /// The opponent is back.
    OpponentBack,
    /// The opponent's commands.
    Commands { tick: u32, cmds: Vec<CommandWire<S>> },
    /// The opponent's hash.
    Hash { tick: u32, hash: u32 },
}

/// A message from the relay as a mathematical value.
pub ghost enum ServerModel<S> {
    Joined { index: u8 },
    Start { seed: u32 },
    History { entries: Seq<EntryModel<S>>, current_tick: u32, seed: u32 },
    OpponentLeft,
    OpponentBack,
    Commands { tick: u32, cmds: Seq<CommandWire<S>> },
    Hash { tick: u32, hash: u32 },
}

impl<S: Scalar> View for ServerMsg<S> {
    type V = ServerModel<S>;

    open spec fn view(&self) -> ServerModel<S> {
        match *self {
            ServerMsg::Joined { index } => ServerModel::Joined { index },
            ServerMsg::Start { seed } => ServerModel::Start { seed },
            ServerMsg::History { entries, current_tick, seed } => ServerModel::History {
                entries: log_model(entries@),
                current_tick,
                seed,
            },
            ServerMsg::OpponentLeft => ServerModel::OpponentLeft,
            ServerMsg::OpponentBack => ServerModel::OpponentBack,
            ServerMsg::Commands { tick, cmds } => ServerModel::Commands { tick, cmds: cmds@ },
            ServerMsg::Hash { tick, hash } => ServerModel::Hash { tick, hash },
        }
    }
}

/// A command as it travels.
#[verifier::allow_in_spec]
pub fn command_to_wire<S: Scalar>(cmd: GameCommand<S>) -> CommandWire<S>
    returns
        (match cmd {
            GameCommand::Deploy { faction, card, x, z } => CommandWire::Deploy {
                faction: faction.index(),
                card,
                x,
                z,
            },
        }),
{
    match cmd {
        GameCommand::Deploy { faction, card, x, z } => CommandWire::Deploy {
            faction: faction.index(),
            card,
            x,
            z,
        },
    }
}

/// The command that travelled; none if there is no such seat.
#[verifier::allow_in_spec]
pub fn wire_to_command<S: Scalar>(wire: CommandWire<S>) -> Option<GameCommand<S>>
    returns
        (match wire {
            CommandWire::Deploy { faction, card, x, z } => match Faction::from_index(faction) {
                Some(f) => Some(GameCommand::Deploy { faction: f, card, x, z }),
                None => None,
            },
        }),
{
    match wire {
        CommandWire::Deploy { faction, card, x, z } => match Faction::from_index(faction) {
            Some(f) => Some(GameCommand::Deploy { faction: f, card, x, z }),
            None => None,
        },
    }
}

/// What travels arrives: a command survives the way there and back.
pub proof fn wire_round_trip<S: Scalar>(cmd: GameCommand<S>, wire: CommandWire<S>)
    ensures
        wire_to_command(command_to_wire(cmd)) == Some(cmd),
        wire_to_command(wire) matches Some(c) ==> command_to_wire(c) == wire,
        wire_to_command(wire).is_none() == (wire->faction > 1),
{
}

/// The commands that travelled; those of no seat are dropped.
pub open spec fn from_wires_spec<S: Scalar>(wires: Seq<CommandWire<S>>) -> Seq<GameCommand<S>>
    decreases wires.len(),
{
    if wires.len() == 0 {
        Seq::empty()
    } else {
        let rest = from_wires_spec(wires.drop_last());
        match wire_to_command(wires.last()) {
            Some(c) => rest.push(c),
            None => rest,
        }
    }
}

/// The commands that travelled; those of no seat are dropped.
pub fn from_wires<S: Scalar>(wires: &Vec<CommandWire<S>>) -> (r: Vec<GameCommand<S>>)
    ensures
        r@ == from_wires_spec(wires@),
{
    let n: usize = wires.len();
    let mut r: Vec<GameCommand<S>> = Vec::new();
    assert(wires@.take(0) =~= Seq::<CommandWire<S>>::empty());
    for i in 0..n
        invariant
            n == wires@.len(),
            r@ == from_wires_spec(wires@.take(i as int)),
    {
        assert(wires@.take(i + 1).drop_last() =~= wires@.take(i as int));
        if let Some(c) = wire_to_command(wires[i]) {
            r.push(c);
        }
    }
    assert(wires@.take(n as int) =~= wires@);
    r
}

/// Commands as they travel.
pub open spec fn to_wires_spec<S: Scalar>(cmds: Seq<GameCommand<S>>) -> Seq<CommandWire<S>> {
    cmds.map_values(|c: GameCommand<S>| command_to_wire(c))
}

/// Commands as they travel.
pub fn to_wires<S: Scalar>(cmds: &Vec<GameCommand<S>>) -> (r: Vec<CommandWire<S>>)
    ensures
        r@ == to_wires_spec(cmds@),
{
    let n: usize = cmds.len();
    let mut r: Vec<CommandWire<S>> = Vec::new();
    for i in 0..n
        invariant
            n == cmds@.len(),
            r@.len() == i,
            forall|j: int| 0 <= j < i ==> r@[j] == command_to_wire(cmds@[j]),
    {
        r.push(command_to_wire(cmds[i]));
    }
    assert(r@ =~= to_wires_spec(cmds@));
    r
}

/// A whole list of commands survives the way there and back.
pub proof fn wires_round_trip<S: Scalar>(cmds: Seq<GameCommand<S>>)
    ensures
        from_wires_spec(to_wires_spec(cmds)) == cmds,
    decreases cmds.len(),
{
    let w = to_wires_spec(cmds);
    if cmds.len() > 0 {
        wires_round_trip(cmds.drop_last());
        assert(w.drop_last() =~= to_wires_spec(cmds.drop_last()));
        assert(w.last() == command_to_wire(cmds.last()));
        assert(from_wires_spec(w) =~= cmds);
    } else {
        assert(from_wires_spec(w) =~= cmds);
    }
}

/// Longer messages are refused.
pub const MAX_MESSAGE: usize = 1_000_000;

/// The length of a message in four bytes, the lowest first.
pub open spec fn header_spec(len: int) -> Seq<u8> {
    seq![
        (len % 256) as u8,
        (len / 256 % 256) as u8,
        (len / 65536 % 256) as u8,
        (len / 16777216 % 256) as u8,
    ]
}

/// The length that four bytes tell.
pub open spec fn length_spec(header: Seq<u8>) -> int {
    header[0] + 256 * header[1] + 65536 * header[2] + 16777216 * header[3]
}

/// A message as it goes over a stream: its length, then itself.
pub fn frame(payload: &Vec<u8>) -> (r: Vec<u8>)
    requires
        payload@.len() <= u32::MAX,
    ensures
        r@ == header_spec(payload@.len() as int) + payload@,
{
    let n: usize = payload.len();
    let len: u32 = n as u32;
    let mut r: Vec<u8> = Vec::new();
    r.push((len % 256) as u8);
    r.push((len / 256 % 256) as u8);
    r.push((len / 65536 % 256) as u8);
    r.push((len / 16777216 % 256) as u8);
    let ghost head = r@;
    assert(head =~= header_spec(len as int));
    assert(head + payload@.take(0) =~= head);
    for i in 0..n
        invariant
            n == payload@.len(),
            r@ == head + payload@.take(i as int),
    {
        r.push(payload[i]);
        assert(r@ =~= head + payload@.take(i + 1));
    }
    assert(payload@.take(n as int) =~= payload@);
    r
}

/// Why a frame is not read.
#[derive(Clone, Copy, PartialEq, Eq, Structural, Debug)]
pub enum FrameError {
    /// The header announces so many bytes.
    TooLarge(u32),
}

/// How many bytes follow a header.
pub fn body_length(header: [u8; 4]) -> (r: Result<usize, FrameError>)
    ensures
        match r {
            Ok(n) => n == length_spec(header@) && n <= MAX_MESSAGE,
            Err(FrameError::TooLarge(n)) => n == length_spec(header@) && n > MAX_MESSAGE,
        },
{
    let len: u64 = header[0] as u64 + 256 * header[1] as u64 + 65536 * header[2] as u64 + 16777216
        * header[3] as u64;
    if len > MAX_MESSAGE as u64 {
        Err(FrameError::TooLarge(len as u32))
    } else {
        Ok(len as usize)
    }
}

/// What is framed is found again: the header tells the length of what follows it.
pub proof fn frame_round_trip(payload: Seq<u8>)
    requires
        payload.len() <= u32::MAX,
    ensures
        ({
            let f = header_spec(payload.len() as int) + payload;
            &&& f.len() == payload.len() + 4
            &&& length_spec(f.take(4)) == payload.len()
            &&& f.skip(4) == payload
        }),
{
    let n = payload.len() as int;
    let f = header_spec(n) + payload;
    assert(f.take(4) =~= header_spec(n));
    assert(f.skip(4) =~= payload);
}

} // verus!
