//! The relay's rooms: who sits where, who is told what, and what is kept for those who are away.
//!
//! A room is a state machine. Messages and hang-ups go in together with the line they came
//! over, the time and some entropy; messages to lines and recordings to save come out.

use std::collections::HashMap;
use vstd::prelude::*;

use crate::constants::{arena_half_depth, arena_half_width, INPUT_DELAY, TICKS_PER_SEC};
use crate::protocol::{
    copy_log, copy_wires, log_model, ClientMsg, CommandWire, EntryModel, LogEntry, ReplayFile, ServerModel,
    ServerMsg,
};
use crate::scalar::{clamped, Scalar};

verus! {

broadcast use vstd::std_specs::hash::group_hash_axioms;

/// How many seconds a room is kept without anyone in it.
pub const EMPTY_ROOM_TTL_SECS: u64 = 600;

/// The version that the relay writes into recordings.
pub const RELAY_REPLAY_VERSION: u32 = 1;

/// A seat in a room.
#[derive(Debug)]
pub struct Seat<S> {
    /// Who may claim it.
    pub token: u64,
    /// The line to its owner.
    pub line: u64,
    pub connected: bool,
    /// The latest tick that its owner sent for.
    pub last_stamp: u32,
    /// What its owner missed: commands only.
    pub inbox: Vec<ServerMsg<S>>,
}

/// A room for two.
#[derive(Debug)]
pub struct Room<S> {
    pub seats: Vec<Seat<S>>,
    pub started: bool,
    /// What the cards are dealt by.
    pub seed: u32,
    /// When it was opened, in nanoseconds.
    pub created_at: u64,
    /// The commands of all ticks that had any.
    pub log: Vec<LogEntry<S>>,
    /// When the last one left, and the tick by then.
    pub frozen_at: Option<(u64, u32)>,
    /// Whether the recording was saved.
    pub saved: bool,
}

/// What the relay does.
#[derive(Debug)]
pub enum Action<S> {
    Send { line: u64, msg: ServerMsg<S> },
    /// Save a recording; `finished` tells whether the match was played to its end.
    Save { room: u32, finished: bool, file: ReplayFile<S> },
}

/// A seat as a mathematical value.
pub ghost struct SeatModel<S> {
    pub token: u64,
    pub line: u64,
    pub connected: bool,
    pub last_stamp: u32,
    pub inbox: Seq<ServerModel<S>>,
}

/// A room as a mathematical value.
pub ghost struct RoomModel<S> {
    pub seats: Seq<SeatModel<S>>,
    pub started: bool,
    pub seed: u32,
    pub created_at: u64,
    pub log: Seq<EntryModel<S>>,
    pub frozen_at: Option<(u64, u32)>,
    pub saved: bool,
}

/// What the relay does, as a mathematical value.
pub ghost enum ActionModel<S> {
    Send { line: u64, msg: ServerModel<S> },
    Save { room: u32, finished: bool, version: u32, end_tick: u32, entries: Seq<EntryModel<S>> },
}

/// Messages as mathematical values.
pub open spec fn msg_models<S: Scalar>(msgs: Seq<ServerMsg<S>>) -> Seq<ServerModel<S>> {
    msgs.map_values(|m: ServerMsg<S>| m@)
}

impl<S: Scalar> View for Seat<S> {
    type V = SeatModel<S>;

    open spec fn view(&self) -> SeatModel<S> {
        SeatModel {
            token: self.token,
            line: self.line,
            connected: self.connected,
            last_stamp: self.last_stamp,
            inbox: msg_models(self.inbox@),
        }
    }
}

impl<S: Scalar> View for Room<S> {
    type V = RoomModel<S>;

    open spec fn view(&self) -> RoomModel<S> {
        RoomModel {
            seats: self.seats@.map_values(|s: Seat<S>| s@),
            started: self.started,
            seed: self.seed,
            created_at: self.created_at,
            log: log_model(self.log@),
            frozen_at: self.frozen_at,
            saved: self.saved,
        }
    }
}

impl<S: Scalar> View for Action<S> {
    type V = ActionModel<S>;

    open spec fn view(&self) -> ActionModel<S> {
        match *self {
            Action::Send { line, msg } => ActionModel::Send { line, msg: msg@ },
            Action::Save { room, finished, file } => ActionModel::Save {
                room,
                finished,
                version: file.version,
                end_tick: file.end_tick,
                entries: log_model(file.entries@),
            },
        }
    }
}

/// Actions as mathematical values.
pub open spec fn action_models<S: Scalar>(actions: Seq<Action<S>>) -> Seq<ActionModel<S>> {
    actions.map_values(|a: Action<S>| a@)
}

/// Whole seconds between two times.
#[verifier::allow_in_spec]
pub fn elapsed_secs(since: u64, now: u64) -> u64
    returns
        (if now >= since { ((now - since) / 1_000_000_000) as u64 } else { 0u64 }),
{
    if now >= since {
        (now - since) / 1_000_000_000
    } else {
        0u64
    }
}

/// The place of the other seat, if there is one.
pub open spec fn other_seat<S: Scalar>(r: RoomModel<S>, index: u8) -> Option<int> {
    if r.seats.len() > 0 && index != 0 {
        Some(0)
    } else if r.seats.len() > 1 {
        Some(1)
    } else {
        None
    }
}

/// The latest tick that anyone sent for.
pub open spec fn latest_stamp<S: Scalar>(seats: Seq<SeatModel<S>>) -> u32
    decreases seats.len(),
{
    if seats.len() == 0 {
        0
    } else {
        let rest = latest_stamp(seats.drop_last());
        if seats.last().last_stamp > rest { seats.last().last_stamp } else { rest }
    }
}

/// The tick that the match is probably at.
pub open spec fn tick_estimate_spec<S: Scalar>(r: RoomModel<S>) -> u32 {
    let latest = latest_stamp(r.seats);
    if latest >= INPUT_DELAY { (latest - INPUT_DELAY) as u32 } else { 0 }
}

/// A command that cannot do harm: it is the sender's own, and on the field.
#[verifier::allow_in_spec]
pub fn sanitized<S: Scalar>(c: CommandWire<S>, seat: u8) -> CommandWire<S>
    returns
        (match c {
            CommandWire::Deploy { faction: _, card, x, z } => CommandWire::Deploy {
                faction: seat,
                card,
                x: clamped(x, arena_half_width::<S>().negated(), arena_half_width()),
                z: clamped(z, arena_half_depth::<S>().negated(), arena_half_depth()),
            },
        }),
{
    match c {
        CommandWire::Deploy { faction: _, card, x, z } => CommandWire::Deploy {
            faction: seat,
            card,
            x: clamped(x, arena_half_width::<S>().negated(), arena_half_width()),
            z: clamped(z, arena_half_depth::<S>().negated(), arena_half_depth()),
        },
    }
}

/// A room and what it does.
pub ghost struct Reaction<S> {
    pub room: RoomModel<S>,
    pub actions: Seq<ActionModel<S>>,
}

/// A message for the other seat: sent, if its owner is there; commands are kept otherwise.
pub open spec fn forwarded<S: Scalar>(r: RoomModel<S>, from: u8, msg: ServerModel<S>) -> Reaction<S> {
    match other_seat(r, from) {
        None => Reaction { room: r, actions: Seq::empty() },
        Some(k) => {
            let seat = r.seats[k];
            if seat.connected {
                Reaction { room: r, actions: seq![ActionModel::Send { line: seat.line, msg }] }
            } else if msg is Commands {
                Reaction {
                    room: RoomModel {
                        seats: r.seats.update(k, SeatModel { inbox: seat.inbox.push(msg), ..seat }),
                        ..r
                    },
                    actions: Seq::empty(),
                }
            } else {
                Reaction { room: r, actions: Seq::empty() }
            }
        },
    }
}

/// The recording of a room, unless it was saved already.
pub open spec fn saved_replay<S: Scalar>(r: RoomModel<S>, id: u32, end_tick: u32, finished: bool) -> Reaction<S> {
    if r.saved {
        Reaction { room: r, actions: Seq::empty() }
    } else {
        Reaction {
            room: RoomModel { saved: true, ..r },
            actions: seq![
                ActionModel::Save {
                    room: id,
                    finished,
                    version: RELAY_REPLAY_VERSION,
                    end_tick,
                    entries: r.log,
                },
            ],
        }
    }
}

/// A room that has just been opened.
pub open spec fn fresh_room<S: Scalar>(now: u64) -> RoomModel<S> {
    RoomModel {
        seats: Seq::empty(),
        started: false,
        seed: 0,
        created_at: now,
        log: Seq::empty(),
        frozen_at: None,
        saved: false,
    }
}

/// The place of the seat that a token claims, counted from `from`.
pub open spec fn claimed_from<S: Scalar>(seats: Seq<SeatModel<S>>, token: u64, from: int) -> Option<int>
    decreases seats.len() - from,
{
    if from >= seats.len() {
        None
    } else if seats[from].token == token {
        Some(from)
    } else {
        claimed_from(seats, token, from + 1)
    }
}

/// The tick that one who comes back has to catch up with: if everyone was away, time went on.
pub open spec fn current_tick<S: Scalar>(r: RoomModel<S>, now: u64) -> u32 {
    match r.frozen_at {
        Some((since, base)) => {
            let t = base + (elapsed_secs(since, now) as u32 as int) * TICKS_PER_SEC;
            if t > u32::MAX { u32::MAX } else { t as u32 }
        },
        None => tick_estimate_spec(r),
    }
}

/// Messages as actions over a line.
pub open spec fn sends<S: Scalar>(line: u64, msgs: Seq<ServerModel<S>>) -> Seq<ActionModel<S>> {
    msgs.map_values(|m: ServerModel<S>| ActionModel::Send { line, msg: m })
}

/// A room after the owner of seat `k` is back.
pub open spec fn rejoined<S: Scalar>(r: RoomModel<S>, k: int, line: u64, now: u64) -> Reaction<S> {
    let seat = r.seats[k];
    let hello = seq![ActionModel::Send { line, msg: ServerModel::Joined { index: k as u8 } }];
    if r.started {
        let back = match other_seat(r, k as u8) {
            Some(o) if r.seats[o].connected => seq![
                ActionModel::Send { line: r.seats[o].line, msg: ServerModel::OpponentBack },
            ],
            _ => Seq::empty(),
        };
        Reaction {
            room: RoomModel {
                seats: r.seats.update(
                    k,
                    SeatModel { line, connected: true, inbox: Seq::empty(), ..seat },
                ),
                frozen_at: None,
                ..r
            },
            actions: hello + seq![
                ActionModel::Send {
                    line,
                    msg: ServerModel::History {
                        entries: r.log,
                        current_tick: current_tick(r, now),
                        seed: r.seed,
                    },
                },
            ] + sends(line, seat.inbox) + back,
        }
    } else {
        Reaction {
            room: RoomModel {
                seats: r.seats.update(k, SeatModel { line, connected: true, ..seat }),
                frozen_at: None,
                ..r
            },
            actions: hello,
        }
    }
}

/// A room after someone new has taken a seat: with the second one the match starts.
pub open spec fn seated<S: Scalar>(r: RoomModel<S>, id: u32, token: u64, line: u64, entropy: u32) -> Reaction<S> {
    let index = r.seats.len() as u8;
    let seats = r.seats.push(
        SeatModel { token, line, connected: true, last_stamp: 0, inbox: Seq::empty() },
    );
    let hello = seq![ActionModel::Send { line, msg: ServerModel::Joined { index } }];
    if seats.len() == 2 {
        let seed = entropy ^ id;
        Reaction {
            room: RoomModel { seats, started: true, seed, frozen_at: None, ..r },
            actions: hello + seq![
                ActionModel::Send { line: seats[0].line, msg: ServerModel::Start { seed } },
                ActionModel::Send { line: seats[1].line, msg: ServerModel::Start { seed } },
            ],
        }
    } else {
        Reaction { room: RoomModel { seats, frozen_at: None, ..r }, actions: hello }
    }
}

/// A room after a join, and the seat that was given: the token's own, a free one, or none.
pub open spec fn join_spec<S: Scalar>(
    r: RoomModel<S>,
    id: u32,
    token: u64,
    line: u64,
    now: u64,
    entropy: u32,
) -> (Reaction<S>, Option<u8>) {
    match claimed_from(r.seats, token, 0) {
        Some(k) => (rejoined(r, k, line, now), Some(k as u8)),
        None => if r.seats.len() >= 2 {
            (Reaction { room: r, actions: Seq::empty() }, None)
        } else {
            (seated(r, id, token, line, entropy), Some(r.seats.len() as u8))
        },
    }
}

/// A room after commands from a seat.
pub open spec fn commands_spec<S: Scalar>(
    r: RoomModel<S>,
    from: u8,
    tick: u32,
    cmds: Seq<CommandWire<S>>,
) -> Reaction<S> {
    let clean = cmds.map_values(|c: CommandWire<S>| sanitized(c, from));
    let stamped = if from < r.seats.len() && r.seats[from as int].last_stamp < tick {
        r.seats.update(from as int, SeatModel { last_stamp: tick, ..r.seats[from as int] })
    } else {
        r.seats
    };
    forwarded(
        RoomModel {
            seats: stamped,
            log: if clean.len() > 0 {
                r.log.push(EntryModel { tick, from, cmds: clean })
            } else {
                r.log
            },
            ..r
        },
        from,
        ServerModel::Commands { tick, cmds: clean },
    )
}

/// Whether nobody is there.
pub open spec fn deserted<S: Scalar>(seats: Seq<SeatModel<S>>) -> bool {
    forall|i: int| 0 <= i < seats.len() ==> !(#[trigger] seats[i]).connected
}

/// A room after the line of a seat is lost: the other is told, and an empty room waits.
pub open spec fn hung_up<S: Scalar>(r: RoomModel<S>, index: u8, now: u64) -> Reaction<S> {
    let seats = if index < r.seats.len() {
        r.seats.update(index as int, SeatModel { connected: false, ..r.seats[index as int] })
    } else {
        r.seats
    };
    let left = RoomModel { seats, ..r };
    Reaction {
        room: RoomModel {
            frozen_at: if deserted(seats) && r.frozen_at.is_none() {
                Some((now, tick_estimate_spec(left)))
            } else {
                r.frozen_at
            },
            ..left
        },
        actions: match other_seat(left, index) {
            Some(o) if seats[o].connected => seq![
                ActionModel::Send { line: seats[o].line, msg: ServerModel::OpponentLeft },
            ],
            _ => Seq::empty(),
        },
    }
}

/// Whether a room has been empty for too long.
pub open spec fn stale<S: Scalar>(r: RoomModel<S>, now: u64) -> bool {
    r.frozen_at matches Some((since, _)) && elapsed_secs(since, now) > EMPTY_ROOM_TTL_SECS
}

/// Whether a room is to be closed: empty for too long, or never started in that time.
pub open spec fn expired_spec<S: Scalar>(r: RoomModel<S>, now: u64) -> bool {
    match r.frozen_at {
        Some((since, _)) => elapsed_secs(since, now) > EMPTY_ROOM_TTL_SECS,
        None => !r.started && elapsed_secs(r.created_at, now) > EMPTY_ROOM_TTL_SECS,
    }
}

/// Whether a command does no harm: it is that of its sender's side, and on the field.
pub open spec fn harmless<S: Scalar>(c: CommandWire<S>, seat: u8) -> bool {
    &&& c->faction == seat
    &&& !arena_half_width::<S>().less(c->x)
    &&& !c->x.less(arena_half_width::<S>().negated())
    &&& !arena_half_depth::<S>().less(c->z)
    &&& !c->z.less(arena_half_depth::<S>().negated())
}

/// Whether an entry of the log is in order: it has commands, and all of them are harmless.
pub open spec fn entry_wf<S: Scalar>(e: EntryModel<S>) -> bool {
    &&& e.cmds.len() > 0
    &&& e.from < 2
    &&& forall|j: int| 0 <= j < e.cmds.len() ==> harmless(#[trigger] e.cmds[j], e.from)
}

/// What a room keeps to: at most two seats, each of another token; a match that has started has
/// both; nothing but commands waits for those who are away; the log holds harmless commands
/// only; and a room that counts as empty is empty.
pub open spec fn room_wf<S: Scalar>(r: RoomModel<S>) -> bool {
    &&& r.seats.len() <= 2
    &&& (r.started <==> r.seats.len() == 2)
    &&& forall|i: int, j: int|
        0 <= i < j < r.seats.len() ==> (#[trigger] r.seats[i]).token != (#[trigger] r.seats[j]).token
    &&& forall|i: int, j: int|
        0 <= i < r.seats.len() && 0 <= j < r.seats[i].inbox.len() ==> (
        #[trigger] r.seats[i].inbox[j]) is Commands
    &&& forall|i: int| 0 <= i < r.log.len() ==> entry_wf(#[trigger] r.log[i])
    &&& r.frozen_at.is_some() ==> deserted(r.seats)
}

fn send<S: Scalar>(actions: &mut Vec<Action<S>>, line: u64, msg: ServerMsg<S>)
    ensures
        action_models(final(actions)@) == action_models(old(actions)@).push(
            ActionModel::Send { line, msg: msg@ },
        ),
{
    actions.push(Action::Send { line, msg });
    assert(action_models(actions@) =~= action_models(old(actions)@).push(
        ActionModel::Send { line, msg: msg@ },
    ));
}

impl<S: Scalar> Room<S> {
    /// A room that has just been opened.
    pub fn new(now: u64) -> (r: Self)
        ensures
            r@ == fresh_room::<S>(now),
            room_wf(r@),
    {
        let r = Room {
            seats: Vec::new(),
            started: false,
            seed: 0,
            created_at: now,
            log: Vec::new(),
            frozen_at: None,
            saved: false,
        };
        assert(r@.seats =~= Seq::<SeatModel<S>>::empty());
        assert(r@.log =~= Seq::<EntryModel<S>>::empty());
        r
    }

    /// The place of the other seat, if there is one.
    pub fn other(&self, index: u8) -> (r: Option<usize>)
        ensures
            match r {
                Some(k) => other_seat(self@, index) == Some(k as int) && k < self.seats@.len(),
                None => other_seat(self@, index).is_none(),
            },
    {
        if self.seats.len() > 0 && index != 0 {
            Some(0)
        } else if self.seats.len() > 1 {
            Some(1)
        } else {
            None
        }
    }

    /// The tick that the match is probably at.
    pub fn tick_estimate(&self) -> (r: u32)
        ensures
            r == tick_estimate_spec(self@),
    {
        let n: usize = self.seats.len();
        let mut latest: u32 = 0;
        let ghost seats = self@.seats;
        assert(seats.take(0) =~= Seq::<SeatModel<S>>::empty());
        for i in 0..n
            invariant
                n == self.seats@.len(),
                seats == self@.seats,
                latest == latest_stamp(seats.take(i as int)),
        {
            assert(seats.take(i + 1).drop_last() =~= seats.take(i as int));
            let stamp: u32 = self.seats[i].last_stamp;
            assert(seats[i as int].last_stamp == stamp);
            if stamp > latest {
                latest = stamp;
            }
        }
        assert(seats.take(n as int) =~= seats);
        if latest >= INPUT_DELAY {
            latest - INPUT_DELAY
        } else {
            0
        }
    }

    fn forward(&mut self, from: u8, msg: ServerMsg<S>) -> (actions: Vec<Action<S>>)
        ensures
            (Reaction { room: final(self)@, actions: action_models(actions@) }) == forwarded(
                old(self)@,
                from,
                msg@,
            ),
    {
        let mut actions: Vec<Action<S>> = Vec::new();
        let ghost before = self@;
        assert(action_models(actions@) =~= Seq::<ActionModel<S>>::empty());
        if let Some(k) = self.other(from) {
            assert(before.seats[k as int] == self.seats@[k as int]@);
            if self.seats[k].connected {
                let line: u64 = self.seats[k].line;
                let ghost model = msg@;
                send(&mut actions, line, msg);
                assert(action_models(actions@) =~= seq![ActionModel::Send { line, msg: model }]);
            } else {
                let keep: bool = match &msg {
                    ServerMsg::Commands { .. } => true,
                    _ => false,
                };
                if keep {
                    let ghost model = msg@;
                    let ghost inbox = self.seats@[k as int].inbox@;
                    let seat = &mut self.seats[k];
                    seat.inbox.push(msg);
                    proof {
                        assert(msg_models(inbox.push(msg)) =~= msg_models(inbox).push(model));
                        assert(self@.seats =~= before.seats.update(
                            k as int,
                            SeatModel { inbox: before.seats[k as int].inbox.push(model), ..before.seats[k as int] },
                        ));
                    }
                }
            }
        }
        actions
    }

    fn save(&mut self, id: u32, end_tick: u32, finished: bool) -> (actions: Vec<Action<S>>)
        ensures
            (Reaction { room: final(self)@, actions: action_models(actions@) }) == saved_replay(
                old(self)@,
                id,
                end_tick,
                finished,
            ),
    {
        let mut actions: Vec<Action<S>> = Vec::new();
        assert(action_models(actions@) =~= Seq::<ActionModel<S>>::empty());
        if self.saved {
            return actions;
        }
        self.saved = true;
        let file: ReplayFile<S> = ReplayFile {
            version: RELAY_REPLAY_VERSION,
            end_tick,
            entries: copy_log(&self.log),
        };
        actions.push(Action::Save { room: id, finished, file });
        assert(action_models(actions@) =~= saved_replay(old(self)@, id, end_tick, finished).actions);
        actions
    }

    fn claim(&self, token: u64) -> (r: Option<usize>)
        ensures
            match r {
                Some(k) => claimed_from(self@.seats, token, 0) == Some(k as int) && k < self.seats@.len(),
                None => claimed_from(self@.seats, token, 0).is_none(),
            },
    {
        let n: usize = self.seats.len();
        let mut i: usize = 0;
        while i < n
            invariant
                n == self.seats@.len(),
                i <= n,
                claimed_from(self@.seats, token, 0) == claimed_from(self@.seats, token, i as int),
            decreases n - i,
        {
            assert(self@.seats[i as int].token == self.seats@[i as int].token);
            if self.seats[i].token == token {
                return Some(i);
            }
            i += 1;
        }
        None
    }

    fn rejoin(&mut self, k: usize, line: u64, now: u64) -> (actions: Vec<Action<S>>)
        requires
            k < old(self).seats@.len(),
            old(self).seats@.len() <= 2,
        ensures
            (Reaction { room: final(self)@, actions: action_models(actions@) }) == rejoined(
                old(self)@,
                k as int,
                line,
                now,
            ),
    {
        let ghost before = self@;
        let mut actions: Vec<Action<S>> = Vec::new();
        assert(action_models(actions@) =~= Seq::<ActionModel<S>>::empty());
        send(&mut actions, line, ServerMsg::Joined { index: k as u8 });
        assert(before.seats[k as int] == self.seats@[k as int]@);
        if self.started {
            let tick: u32 = match self.frozen_at {
                Some((since, base)) => {
                    let secs: u32 = elapsed_secs(since, now) as u32;
                    let t: u64 = base as u64 + secs as u64 * TICKS_PER_SEC as u64;
                    if t > u32::MAX as u64 {
                        u32::MAX
                    } else {
                        t as u32
                    }
                },
                None => self.tick_estimate(),
            };
            self.frozen_at = None;
            let entries: Vec<LogEntry<S>> = copy_log(&self.log);
            send(
                &mut actions,
                line,
                ServerMsg::History { entries, current_tick: tick, seed: self.seed },
            );
            let ghost so_far = action_models(actions@);
            let ghost mail = before.seats[k as int].inbox;
            let mut inbox: Vec<ServerMsg<S>> = Vec::new();
            let seat = &mut self.seats[k];
            core::mem::swap(&mut seat.inbox, &mut inbox);
            seat.line = line;
            seat.connected = true;
            assert(msg_models(inbox@) == mail);
            assert(self@.seats =~= before.seats.update(
                k as int,
                SeatModel { line, connected: true, inbox: Seq::empty(), ..before.seats[k as int] },
            )) by {
                assert(msg_models(self.seats@[k as int].inbox@) =~= Seq::<ServerModel<S>>::empty());
            }
            let ghost all = inbox@;
            let n: usize = inbox.len();
            let mut i: usize = 0;
            assert(so_far + sends(line, mail.take(0)) =~= so_far);
            while i < n
                invariant
                    n == all.len(),
                    i <= n,
                    inbox@ == all.skip(i as int),
                    msg_models(all) == mail,
                    action_models(actions@) == so_far + sends(line, mail.take(i as int)),
                decreases n - i,
            {
                let msg: ServerMsg<S> = inbox.remove(0);
                assert(msg == all[i as int]);
                assert(mail[i as int] == msg@);
                send(&mut actions, line, msg);
                assert(so_far + sends(line, mail.take(i + 1)) =~= (so_far + sends(
                    line,
                    mail.take(i as int),
                )).push(ActionModel::Send { line, msg: mail[i as int] }));
                i += 1;
                assert(inbox@ =~= all.skip(i as int));
            }
            assert(mail.take(n as int) =~= mail);
            let ghost so_far = action_models(actions@);
            if let Some(o) = self.other(k as u8) {
                assert(before.seats[o as int].connected == self.seats@[o as int].connected);
                assert(before.seats[o as int].line == self.seats@[o as int].line);
                if self.seats[o].connected {
                    send(&mut actions, self.seats[o].line, ServerMsg::OpponentBack);
                }
            }
            assert(action_models(actions@) =~= rejoined(before, k as int, line, now).actions);
        } else {
            self.frozen_at = None;
            let seat = &mut self.seats[k];
            seat.line = line;
            seat.connected = true;
            assert(self@.seats =~= before.seats.update(
                k as int,
                SeatModel { line, connected: true, ..before.seats[k as int] },
            ));
            assert(action_models(actions@) =~= rejoined(before, k as int, line, now).actions);
        }
        actions
    }

    fn take_seat(&mut self, id: u32, token: u64, line: u64, entropy: u32) -> (actions: Vec<Action<S>>)
        requires
            old(self).seats@.len() < 2,
        ensures
            (Reaction { room: final(self)@, actions: action_models(actions@) }) == seated(
                old(self)@,
                id,
                token,
                line,
                entropy,
            ),
    {
        let ghost before = self@;
        let index: u8 = self.seats.len() as u8;
        let mut actions: Vec<Action<S>> = Vec::new();
        assert(action_models(actions@) =~= Seq::<ActionModel<S>>::empty());
        send(&mut actions, line, ServerMsg::Joined { index });
        let seat: Seat<S> = Seat { token, line, connected: true, last_stamp: 0, inbox: Vec::new() };
        assert(seat@.inbox =~= Seq::<ServerModel<S>>::empty());
        self.seats.push(seat);
        self.frozen_at = None;
        assert(self@.seats =~= before.seats.push(
            SeatModel { token, line, connected: true, last_stamp: 0, inbox: Seq::empty() },
        ));
        if self.seats.len() == 2 {
            let seed: u32 = entropy ^ id;
            self.started = true;
            self.seed = seed;
            assert(self@.seats[0].line == self.seats@[0].line);
            assert(self@.seats[1].line == self.seats@[1].line);
            send(&mut actions, self.seats[0].line, ServerMsg::Start { seed });
            send(&mut actions, self.seats[1].line, ServerMsg::Start { seed });
        }
        assert(action_models(actions@) =~= seated(before, id, token, line, entropy).actions);
        actions
    }

    /// Lets someone in: back to the seat of the token, to a free seat, or not at all.
    pub fn join(&mut self, id: u32, token: u64, line: u64, now: u64, entropy: u32) -> (r: (
        Vec<Action<S>>,
        Option<u8>,
    ))
        requires
            room_wf(old(self)@),
        ensures
            (Reaction { room: final(self)@, actions: action_models(r.0@) }, r.1) == join_spec(
                old(self)@,
                id,
                token,
                line,
                now,
                entropy,
            ),
            room_wf(final(self)@),
    {
        proof {
            join_keeps_order(self@, id, token, line, now, entropy);
        }
        if let Some(k) = self.claim(token) {
            return (self.rejoin(k, line, now), Some(k as u8));
        }
        if self.seats.len() >= 2 {
            let actions: Vec<Action<S>> = Vec::new();
            assert(action_models(actions@) =~= Seq::<ActionModel<S>>::empty());
            return (actions, None);
        }
        let index: u8 = self.seats.len() as u8;
        (self.take_seat(id, token, line, entropy), Some(index))
    }

    /// Takes commands from a seat: they are made harmless, kept in the log unless there are
    /// none, and passed on.
    pub fn commands(&mut self, from: u8, tick: u32, cmds: &Vec<CommandWire<S>>) -> (actions: Vec<Action<S>>)
        requires
            room_wf(old(self)@),
            from < 2,
        ensures
            (Reaction { room: final(self)@, actions: action_models(actions@) }) == commands_spec(
                old(self)@,
                from,
                tick,
                cmds@,
            ),
            room_wf(final(self)@),
    {
        let ghost before = self@;
        if (from as usize) < self.seats.len() {
            assert(before.seats[from as int] == self.seats@[from as int]@);
            if self.seats[from as usize].last_stamp < tick {
                let seat = &mut self.seats[from as usize];
                seat.last_stamp = tick;
                assert(self@.seats =~= before.seats.update(
                    from as int,
                    SeatModel { last_stamp: tick, ..before.seats[from as int] },
                ));
            }
        }
        let ghost stamped = self@.seats;
        let n: usize = cmds.len();
        let mut clean: Vec<CommandWire<S>> = Vec::new();
        for i in 0..n
            invariant
                n == cmds@.len(),
                clean@.len() == i,
                forall|j: int| 0 <= j < i ==> clean@[j] == sanitized(cmds@[j], from),
        {
            clean.push(sanitized(cmds[i], from));
        }
        assert(clean@ =~= cmds@.map_values(|c: CommandWire<S>| sanitized(c, from)));
        if n > 0 {
            let entry: LogEntry<S> = LogEntry { tick, from, cmds: copy_wires(&clean) };
            self.log.push(entry);
            assert(self@.log =~= before.log.push(EntryModel { tick, from, cmds: clean@ }));
        }
        proof {
            commands_keep_order(before, from, tick, cmds@);
        }
        self.forward(from, ServerMsg::Commands { tick, cmds: clean })
    }

    /// Passes a hash on to the other seat, if its owner is there.
    pub fn hash(&mut self, from: u8, tick: u32, hash: u32) -> (actions: Vec<Action<S>>)
        ensures
            (Reaction { room: final(self)@, actions: action_models(actions@) }) == forwarded(
                old(self)@,
                from,
                ServerModel::Hash { tick, hash },
            ),
            final(self)@ == old(self)@,
    {
        self.forward(from, ServerMsg::Hash { tick, hash })
    }

    /// Saves the recording of a match that is over, once.
    pub fn game_over(&mut self, id: u32, end_tick: u32) -> (actions: Vec<Action<S>>)
        requires
            room_wf(old(self)@),
        ensures
            (Reaction { room: final(self)@, actions: action_models(actions@) }) == saved_replay(
                old(self)@,
                id,
                end_tick,
                true,
            ),
            room_wf(final(self)@),
    {
        self.save(id, end_tick, true)
    }

    /// Saves the recording of a match that nobody came back to, once.
    pub fn abandon(&mut self, id: u32) -> (actions: Vec<Action<S>>)
        requires
            room_wf(old(self)@),
        ensures
            (Reaction { room: final(self)@, actions: action_models(actions@) }) == saved_replay(
                old(self)@,
                id,
                tick_estimate_spec(old(self)@),
                false,
            ),
            room_wf(final(self)@),
    {
        let end: u32 = self.tick_estimate();
        self.save(id, end, false)
    }

    /// Takes note that the line of a seat is lost.
    pub fn hang_up(&mut self, index: u8, now: u64) -> (actions: Vec<Action<S>>)
        requires
            room_wf(old(self)@),
        ensures
            (Reaction { room: final(self)@, actions: action_models(actions@) }) == hung_up(
                old(self)@,
                index,
                now,
            ),
            room_wf(final(self)@),
    {
        let ghost before = self@;
        proof {
            hang_up_keeps_order(before, index, now);
        }
        if (index as usize) < self.seats.len() {
            assert(before.seats[index as int] == self.seats@[index as int]@);
            let seat = &mut self.seats[index as usize];
            seat.connected = false;
            assert(self@.seats =~= before.seats.update(
                index as int,
                SeatModel { connected: false, ..before.seats[index as int] },
            ));
        }
        let ghost left = self@;
        let mut actions: Vec<Action<S>> = Vec::new();
        assert(action_models(actions@) =~= Seq::<ActionModel<S>>::empty());
        if let Some(o) = self.other(index) {
            assert(left.seats[o as int] == self.seats@[o as int]@);
            if self.seats[o].connected {
                send(&mut actions, self.seats[o].line, ServerMsg::OpponentLeft);
            }
        }
        assert(action_models(actions@) =~= hung_up(before, index, now).actions);
        let n: usize = self.seats.len();
        let mut empty: bool = true;
        for i in 0..n
            invariant
                n == self.seats@.len(),
                left == self@,
                empty == (forall|j: int| 0 <= j < i ==> !(#[trigger] left.seats[j]).connected),
        {
            assert(left.seats[i as int] == self.seats@[i as int]@);
            if self.seats[i].connected {
                assert(left.seats[i as int].connected);
                empty = false;
            }
        }
        if empty && self.frozen_at.is_none() {
            let base: u32 = self.tick_estimate();
            self.frozen_at = Some((now, base));
        }
        actions
    }

    /// Whether the room has been empty for too long.
    pub fn is_stale(&self, now: u64) -> (r: bool)
        ensures
            r == stale(self@, now),
    {
        match self.frozen_at {
            Some((since, _)) => elapsed_secs(since, now) > EMPTY_ROOM_TTL_SECS,
            None => false,
        }
    }

    /// Whether the room is to be closed.
    pub fn is_expired(&self, now: u64) -> (r: bool)
        ensures
            r == expired_spec(self@, now),
    {
        match self.frozen_at {
            Some((since, _)) => elapsed_secs(since, now) > EMPTY_ROOM_TTL_SECS,
            None => !self.started && elapsed_secs(self.created_at, now) > EMPTY_ROOM_TTL_SECS,
        }
    }
}

proof fn lemma_claimed<S: Scalar>(seats: Seq<SeatModel<S>>, token: u64, from: int)
    requires
        0 <= from,
    ensures
        claimed_from(seats, token, from) matches Some(k) ==> from <= k < seats.len() && seats[k].token
            == token,
        claimed_from(seats, token, from).is_none() ==> forall|k: int|
            from <= k < seats.len() ==> (#[trigger] seats[k]).token != token,
    decreases seats.len() - from,
{
    if from < seats.len() && seats[from].token != token {
        lemma_claimed(seats, token, from + 1);
    }
}

/// A room stays in order when someone joins.
pub proof fn join_keeps_order<S: Scalar>(
    r: RoomModel<S>,
    id: u32,
    token: u64,
    line: u64,
    now: u64,
    entropy: u32,
)
    requires
        room_wf(r),
    ensures
        room_wf(join_spec(r, id, token, line, now, entropy).0.room),
{
    lemma_claimed(r.seats, token, 0);
    let after = join_spec(r, id, token, line, now, entropy).0.room;
    assert forall|i: int, j: int| 0 <= i < j < after.seats.len() implies (
    #[trigger] after.seats[i]).token != (#[trigger] after.seats[j]).token by {
        if j < r.seats.len() {
            assert(r.seats[i].token != r.seats[j].token);
        } else {
            assert(r.seats[i].token != token);
        }
    }
    assert forall|i: int, j: int|
        0 <= i < after.seats.len() && 0 <= j < after.seats[i].inbox.len() implies (
    #[trigger] after.seats[i].inbox[j]) is Commands by {
        if i < r.seats.len() {
            if j < r.seats[i].inbox.len() {
                assert(r.seats[i].inbox[j] is Commands);
            }
        }
    }
}

/// A room stays in order when commands come, and passing on keeps only commands.
pub proof fn commands_keep_order<S: Scalar>(r: RoomModel<S>, from: u8, tick: u32, cmds: Seq<CommandWire<S>>)
    requires
        room_wf(r),
        from < 2,
    ensures
        room_wf(commands_spec(r, from, tick, cmds).room),
{
    let after = commands_spec(r, from, tick, cmds).room;
    assert forall|i: int, j: int|
        0 <= i < after.seats.len() && 0 <= j < after.seats[i].inbox.len() implies (
    #[trigger] after.seats[i].inbox[j]) is Commands by {
        if j < r.seats[i].inbox.len() {
            assert(r.seats[i].inbox[j] is Commands);
        }
    }
    assert forall|i: int, j: int| 0 <= i < j < after.seats.len() implies (
    #[trigger] after.seats[i]).token != (#[trigger] after.seats[j]).token by {
        assert(r.seats[i].token != r.seats[j].token);
    }
    assert forall|i: int| 0 <= i < after.log.len() implies entry_wf(#[trigger] after.log[i]) by {
        if i < r.log.len() {
            assert(entry_wf(r.log[i]));
        } else {
            let e = after.log[i];
            assert forall|j: int| 0 <= j < e.cmds.len() implies harmless(#[trigger] e.cmds[j], e.from) by {
                commands_are_harmless(cmds[j], from);
                assert(e.cmds[j] == sanitized(cmds[j], from));
            }
        }
    }
    if r.frozen_at.is_some() {
        assert forall|i: int| 0 <= i < after.seats.len() implies !(#[trigger] after.seats[i]).connected by {
            assert(!r.seats[i].connected);
        }
    }
}

/// A room stays in order when a line is lost.
pub proof fn hang_up_keeps_order<S: Scalar>(r: RoomModel<S>, index: u8, now: u64)
    requires
        room_wf(r),
    ensures
        room_wf(hung_up(r, index, now).room),
{
    let after = hung_up(r, index, now).room;
    assert forall|i: int, j: int| 0 <= i < j < after.seats.len() implies (
    #[trigger] after.seats[i]).token != (#[trigger] after.seats[j]).token by {
        assert(r.seats[i].token != r.seats[j].token);
    }
    if r.frozen_at.is_some() {
        assert forall|i: int| 0 <= i < after.seats.len() implies !(#[trigger] after.seats[i]).connected by {
            assert(!r.seats[i].connected);
        }
    }
    assert forall|i: int, j: int|
        0 <= i < after.seats.len() && 0 <= j < after.seats[i].inbox.len() implies (
    #[trigger] after.seats[i].inbox[j]) is Commands by {
        assert(r.seats[i].inbox[j] is Commands);
    }
}

/// Who comes back with a token gets the seat of that token; a third one gets none.
pub proof fn tokens_claim_seats<S: Scalar>(
    r: RoomModel<S>,
    id: u32,
    token: u64,
    line: u64,
    now: u64,
    entropy: u32,
)
    requires
        room_wf(r),
    ensures
        ({
            let (re, seat) = join_spec(r, id, token, line, now, entropy);
            &&& seat matches Some(k) ==> k < re.room.seats.len() && re.room.seats[k as int].token == token
                && re.room.seats[k as int].line == line && re.room.seats[k as int].connected
            &&& seat.is_none() ==> re.room == r && re.actions.len() == 0
            &&& seat.is_none() <==> r.seats.len() == 2 && r.seats[0].token != token && r.seats[1].token
                != token
            &&& (exists|k: int| 0 <= k < r.seats.len() && (#[trigger] r.seats[k]).token == token)
                ==> seat.is_some() && re.room.seats.len() == r.seats.len()
            &&& r.seats.len() < 2 ==> seat.is_some()
        }),
{
    lemma_claimed(r.seats, token, 0);
}

/// A match starts with the second one in the room, for both with the same cards.
pub proof fn second_starts<S: Scalar>(
    r: RoomModel<S>,
    id: u32,
    token: u64,
    line: u64,
    now: u64,
    entropy: u32,
)
    requires
        room_wf(r),
        r.seats.len() == 1,
        r.seats[0].token != token,
    ensures
        ({
            let (re, seat) = join_spec(r, id, token, line, now, entropy);
            let start = ServerModel::<S>::Start { seed: re.room.seed };
            &&& !r.started && re.room.started
            &&& seat == Some(1u8)
            &&& re.actions == seq![
                ActionModel::Send { line, msg: ServerModel::Joined { index: 1 } },
                ActionModel::Send { line: r.seats[0].line, msg: start },
                ActionModel::Send { line, msg: start },
            ]
        }),
{
    lemma_claimed(r.seats, token, 0);
    let re = join_spec(r, id, token, line, now, entropy).0;
    let start = ServerModel::<S>::Start { seed: re.room.seed };
    assert(re.actions =~= seq![
        ActionModel::Send { line, msg: ServerModel::Joined { index: 1 } },
        ActionModel::Send { line: r.seats[0].line, msg: start },
        ActionModel::Send { line, msg: start },
    ]);
}

/// No client can speak for the other side, or put anything off the field.
pub proof fn commands_are_harmless<S: Scalar>(c: CommandWire<S>, seat: u8)
    ensures
        harmless(sanitized(c, seat), seat),
        sanitized(c, seat)->card == c->card,
{
    S::whole_negated(8);
    S::whole_less(-8i64, 8);
    S::whole_negated(14);
    S::whole_less(-14i64, 14);
    lemma_clamped(c->x, arena_half_width::<S>().negated(), arena_half_width());
    lemma_clamped(c->z, arena_half_depth::<S>().negated(), arena_half_depth());
}

proof fn lemma_clamped<S: Scalar>(x: S, lo: S, hi: S)
    requires
        lo.less(hi),
    ensures
        !hi.less(clamped(x, lo, hi)),
        !clamped(x, lo, hi).less(lo),
{
    S::less_irreflexive(lo);
    S::less_irreflexive(hi);
    if hi.less(lo) {
        S::less_transitive(lo, hi, lo);
    }
}

/// Nobody who is there misses commands, and those who are away find them when they are back:
/// what is passed on is either sent at once or waits in the inbox.
pub proof fn commands_are_not_lost<S: Scalar>(r: RoomModel<S>, from: u8, tick: u32, cmds: Seq<CommandWire<S>>)
    requires
        other_seat(r, from).is_some(),
        from < 2,
    ensures
        ({
            let k = other_seat(r, from)->0;
            let clean = cmds.map_values(|c: CommandWire<S>| sanitized(c, from));
            let msg = ServerModel::Commands { tick, cmds: clean };
            let re = commands_spec(r, from, tick, cmds);
            if r.seats[k].connected {
                re.actions == seq![ActionModel::Send { line: r.seats[k].line, msg }]
            } else {
                re.actions.len() == 0 && re.room.seats[k].inbox == r.seats[k].inbox.push(msg)
            }
        }),
{
}

/// One who is back in a match that has started is told everything: the log, and then what came
/// while they were away.
pub proof fn history_is_told<S: Scalar>(
    r: RoomModel<S>,
    id: u32,
    token: u64,
    line: u64,
    now: u64,
    entropy: u32,
    k: int,
)
    requires
        room_wf(r),
        r.started,
        claimed_from(r.seats, token, 0) == Some(k),
    ensures
        ({
            let a = join_spec(r, id, token, line, now, entropy).0.actions;
            &&& a.len() >= 2 + r.seats[k].inbox.len()
            &&& a[1] == (ActionModel::Send {
                line,
                msg: ServerModel::History {
                    entries: r.log,
                    current_tick: current_tick(r, now),
                    seed: r.seed,
                },
            })
            &&& forall|i: int|
                0 <= i < r.seats[k].inbox.len() ==> a[2 + i] == (ActionModel::Send {
                    line,
                    msg: r.seats[k].inbox[i],
                })
        }),
{
}

/// A match is not closed while anyone is there, however long it takes.
pub proof fn occupied_rooms_stay<S: Scalar>(r: RoomModel<S>, now: u64)
    requires
        room_wf(r),
        r.started,
        !deserted(r.seats),
    ensures
        !expired_spec(r, now),
        !stale(r, now),
{
}

/// A room that the last one leaves is kept for its time.
pub proof fn empty_rooms_wait<S: Scalar>(r: RoomModel<S>, index: u8, now: u64, later: u64)
    requires
        room_wf(r),
        !deserted(r.seats),
        elapsed_secs(now, later) <= EMPTY_ROOM_TTL_SECS,
    ensures
        ({
            let left = hung_up(r, index, now).room;
            deserted(left.seats) ==> !expired_spec(left, later) && !stale(left, later)
        }),
{
}

/// Where a line belongs.
#[derive(Clone, Copy, PartialEq, Eq, Structural, Debug)]
pub struct Line {
    pub room: Option<u32>,
    /// The seat; 255 before there is one.
    pub index: u8,
}

impl Line {
    /// A line that belongs nowhere yet.
    #[verifier::allow_in_spec]
    pub fn new() -> Line
        returns
            (Line { room: None, index: 255u8 }),
    {
        Line { room: None, index: 255u8 }
    }

    /// A line in a room has a seat there.
    pub open spec fn wf(self) -> bool {
        self.room.is_some() ==> self.index < 2
    }
}

/// The rooms as mathematical values.
pub open spec fn room_models<S: Scalar>(rooms: Map<u32, Room<S>>) -> Map<u32, RoomModel<S>> {
    rooms.map_values(|r: Room<S>| r@)
}

/// The rooms, the line and what is done, after a message over the line.
pub ghost struct Answer<S> {
    pub rooms: Map<u32, RoomModel<S>>,
    pub line: Line,
    pub actions: Seq<ActionModel<S>>,
}

/// The room that someone enters: a new one in place of none or of one that was empty too long.
pub open spec fn entered<S: Scalar>(rooms: Map<u32, RoomModel<S>>, room: u32, now: u64) -> RoomModel<S> {
    if rooms.contains_key(room) && !stale(rooms[room], now) {
        rooms[room]
    } else {
        fresh_room(now)
    }
}

/// What is saved of a room that was empty too long when someone enters.
pub open spec fn cleared<S: Scalar>(rooms: Map<u32, RoomModel<S>>, room: u32, now: u64) -> Seq<ActionModel<S>> {
    if rooms.contains_key(room) && stale(rooms[room], now) {
        saved_replay(rooms[room], room, tick_estimate_spec(rooms[room]), false).actions
    } else {
        Seq::empty()
    }
}

/// The answer of a room to something over a line that belongs to it.
pub open spec fn reacted<S: Scalar>(
    rooms: Map<u32, RoomModel<S>>,
    line: Line,
    react: spec_fn(RoomModel<S>, u32) -> Reaction<S>,
) -> Answer<S> {
    match line.room {
        Some(id) if rooms.contains_key(id) => {
            let re = react(rooms[id], id);
            Answer { rooms: rooms.insert(id, re.room), line, actions: re.actions }
        },
        _ => Answer { rooms, line, actions: Seq::empty() },
    }
}

/// The answer to a message over a line.
pub open spec fn answer<S: Scalar>(
    rooms: Map<u32, RoomModel<S>>,
    line: Line,
    conn: u64,
    msg: ClientMsg<S>,
    now: u64,
    entropy: u32,
) -> Answer<S> {
    match msg {
        ClientMsg::Join { room, token } => {
            let (re, seat) = join_spec(entered(rooms, room, now), room, token, conn, now, entropy);
            Answer {
                rooms: rooms.insert(room, re.room),
                line: match seat {
                    Some(k) => Line { room: Some(room), index: k },
                    None => line,
                },
                actions: cleared(rooms, room, now) + re.actions,
            }
        },
        ClientMsg::Commands { tick, cmds } => reacted(
            rooms,
            line,
            |r: RoomModel<S>, id: u32| commands_spec(r, line.index, tick, cmds@),
        ),
        ClientMsg::Hash { tick, hash } => reacted(
            rooms,
            line,
            |r: RoomModel<S>, id: u32| forwarded(r, line.index, ServerModel::Hash { tick, hash }),
        ),
        ClientMsg::GameOver { end_tick } => reacted(
            rooms,
            line,
            |r: RoomModel<S>, id: u32| saved_replay(r, id, end_tick, true),
        ),
    }
}

/// Every room is in order.
pub open spec fn rooms_wf<S: Scalar>(rooms: Map<u32, RoomModel<S>>) -> bool {
    forall|id: u32| #[trigger] rooms.contains_key(id) ==> room_wf(rooms[id])
}

/// Whatever message comes, over whatever line, every room stays in order: the log of each holds
/// nothing but commands of their senders' sides and on the field, and nobody sits on two seats.
pub proof fn messages_keep_order<S: Scalar>(
    rooms: Map<u32, RoomModel<S>>,
    line: Line,
    conn: u64,
    msg: ClientMsg<S>,
    now: u64,
    entropy: u32,
)
    requires
        rooms_wf(rooms),
        line.wf(),
    ensures
        rooms_wf(answer(rooms, line, conn, msg, now, entropy).rooms),
        answer(rooms, line, conn, msg, now, entropy).line.wf(),
{
    let after = answer(rooms, line, conn, msg, now, entropy).rooms;
    match msg {
        ClientMsg::Join { room, token } => {
            let held = entered(rooms, room, now);
            assert(room_wf(held));
            join_keeps_order(held, room, token, conn, now, entropy);
            tokens_claim_seats(held, room, token, conn, now, entropy);
        },
        ClientMsg::Commands { tick, cmds } => {
            if let Some(id) = line.room {
                if rooms.contains_key(id) {
                    commands_keep_order(rooms[id], line.index, tick, cmds@);
                }
            }
        },
        _ => {},
    }
    assert forall|id: u32| #[trigger] after.contains_key(id) implies room_wf(after[id]) by {
        if rooms.contains_key(id) {
            assert(room_wf(rooms[id]));
        }
    }
}

/// Whatever line is lost, every room stays in order.
pub proof fn lost_lines_keep_order<S: Scalar>(rooms: Map<u32, RoomModel<S>>, line: Line, now: u64)
    requires
        rooms_wf(rooms),
    ensures
        rooms_wf(
            reacted(rooms, line, |r: RoomModel<S>, id: u32| hung_up(r, line.index, now)).rooms,
        ),
{
    let after = reacted(rooms, line, |r: RoomModel<S>, id: u32| hung_up(r, line.index, now)).rooms;
    if let Some(id) = line.room {
        if rooms.contains_key(id) {
            hang_up_keeps_order(rooms[id], line.index, now);
        }
    }
    assert forall|id: u32| #[trigger] after.contains_key(id) implies room_wf(after[id]) by {
        if rooms.contains_key(id) {
            assert(room_wf(rooms[id]));
        }
    }
}

/// The rooms that are not closed yet.
pub open spec fn open_rooms<S: Scalar>(rooms: Map<u32, RoomModel<S>>, now: u64) -> Map<u32, RoomModel<S>> {
    rooms.restrict(Set::new(|id: u32| !expired_spec(rooms[id], now)))
}

/// What is saved of the listed rooms when those that are to be closed are closed.
pub open spec fn closing<S: Scalar>(
    rooms: Map<u32, RoomModel<S>>,
    ids: Seq<u32>,
    now: u64,
) -> Seq<ActionModel<S>>
    decreases ids.len(),
{
    if ids.len() == 0 {
        Seq::empty()
    } else {
        let id = ids.last();
        closing(rooms, ids.drop_last(), now) + (if expired_spec(rooms[id], now) && rooms[id].started {
            saved_replay(rooms[id], id, tick_estimate_spec(rooms[id]), false).actions
        } else {
            Seq::empty()
        })
    }
}

/// What happens at a relay.
pub ghost enum Event<S> {
    Message { conn: u64, msg: ClientMsg<S>, now: u64, entropy: u32 },
    HangUp { conn: u64, now: u64 },
    Sweep { now: u64 },
}

/// The rooms of a relay and the lines to it.
pub ghost struct Office<S> {
    pub rooms: Map<u32, RoomModel<S>>,
    pub lines: Map<u64, Line>,
}

impl<S: Scalar> Office<S> {
    /// A relay that nobody has called yet.
    pub open spec fn empty() -> Self {
        Office { rooms: Map::empty(), lines: Map::empty() }
    }

    /// Where a connection belongs.
    pub open spec fn line(self, conn: u64) -> Line {
        if self.lines.contains_key(conn) { self.lines[conn] } else { Line::new() }
    }

    /// The relay after an event.
    pub open spec fn after(self, e: Event<S>) -> Self {
        match e {
            Event::Message { conn, msg, now, entropy } => {
                let a = answer(self.rooms, self.line(conn), conn, msg, now, entropy);
                Office { rooms: a.rooms, lines: self.lines.insert(conn, a.line) }
            },
            Event::HangUp { conn, now } => {
                let line = self.line(conn);
                let a = reacted(
                    self.rooms,
                    line,
                    |r: RoomModel<S>, id: u32| hung_up(r, line.index, now),
                );
                Office { rooms: a.rooms, lines: self.lines.remove(conn) }
            },
            Event::Sweep { now } => Office { rooms: open_rooms(self.rooms, now), ..self },
        }
    }

    /// The relay after some events.
    pub open spec fn after_all(self, events: Seq<Event<S>>) -> Self
        decreases events.len(),
    {
        if events.len() == 0 {
            self
        } else {
            self.after_all(events.drop_last()).after(events.last())
        }
    }
}

/// Whatever happens at a relay, in whatever order and from however many clients: every room is
/// in order at any time, and every line that belongs to a room has a seat.
pub proof fn any_traffic_keeps_order<S: Scalar>(events: Seq<Event<S>>)
    ensures
        rooms_wf(Office::<S>::empty().after_all(events).rooms),
        forall|conn: u64| (#[trigger] Office::<S>::empty().after_all(events).line(conn)).wf(),
    decreases events.len(),
{
    if events.len() > 0 {
        let before = Office::<S>::empty().after_all(events.drop_last());
        any_traffic_keeps_order(events.drop_last());
        let after = before.after(events.last());
        match events.last() {
            Event::Message { conn, msg, now, entropy } => {
                assert(before.line(conn).wf());
                messages_keep_order(before.rooms, before.line(conn), conn, msg, now, entropy);
            },
            Event::HangUp { conn, now } => {
                lost_lines_keep_order(before.rooms, before.line(conn), now);
            },
            Event::Sweep { now } => {
                assert forall|id: u32| #[trigger] after.rooms.contains_key(id) implies room_wf(
                    after.rooms[id],
                ) by {
                    assert(before.rooms.contains_key(id));
                }
            },
        }
        assert forall|conn: u64| (#[trigger] after.line(conn)).wf() by {
            assert(before.line(conn).wf());
        }
    }
}

/// All rooms of a relay.
pub struct Relay<S> {
    pub rooms: HashMap<u32, Room<S>>,
    /// The numbers of the rooms, from the oldest on.
    pub ids: Vec<u32>,
}

impl<S: Scalar> Relay<S> {
    /// Every room is in order, and is listed once.
    pub open spec fn wf(&self) -> bool {
        &&& forall|id: u32| #[trigger] self.rooms@.contains_key(id) ==> room_wf(self.rooms@[id]@)
        &&& self.ids@.no_duplicates()
        &&& forall|id: u32| #[trigger] self.rooms@.contains_key(id) <==> self.ids@.contains(id)
    }

    /// A relay without rooms.
    pub fn new() -> (r: Self)
        ensures
            r.wf(),
            room_models(r.rooms@) == Map::<u32, RoomModel<S>>::empty(),
    {
        let r = Relay { rooms: HashMap::new(), ids: Vec::new() };
        assert(room_models(r.rooms@) =~= Map::<u32, RoomModel<S>>::empty());
        r
    }

    fn put_back(&mut self, id: u32, room: Room<S>, before: Ghost<Map<u32, Room<S>>>)
        requires
            old(self).rooms@ == before@.remove(id),
            before@.contains_key(id),
            room_wf(room@),
            forall|k: u32| #[trigger] before@.contains_key(k) ==> room_wf(before@[k]@),
            old(self).ids@.no_duplicates(),
            forall|k: u32| #[trigger] before@.contains_key(k) <==> old(self).ids@.contains(k),
        ensures
            final(self).wf(),
            room_models(final(self).rooms@) == room_models(before@).insert(id, room@),
            final(self).ids == old(self).ids,
    {
        self.rooms.insert(id, room);
        assert(room_models(self.rooms@) =~= room_models(before@).insert(id, room@));
        assert forall|k: u32| #[trigger] self.rooms@.contains_key(k) implies room_wf(self.rooms@[k]@) by {
            if k != id {
                assert(before@.contains_key(k));
            }
        }
        assert forall|k: u32| #[trigger] self.rooms@.contains_key(k) <==> self.ids@.contains(k) by {
            assert(before@.contains_key(k) <==> self.ids@.contains(k));
        }
    }

    fn enter(&mut self, room: u32, token: u64, line: &mut Line, conn: u64, now: u64, entropy: u32) -> (actions:
        Vec<Action<S>>)
        requires
            old(self).wf(),
            old(line).wf(),
        ensures
            final(self).wf(),
            final(line).wf(),
            (Answer {
                rooms: room_models(final(self).rooms@),
                line: *final(line),
                actions: action_models(actions@),
            }) == answer(
                room_models(old(self).rooms@),
                *old(line),
                conn,
                ClientMsg::<S>::Join { room, token },
                now,
                entropy,
            ),
    {
        let ghost before = self.rooms@;
        let ghost models = room_models(before);
        let mut actions: Vec<Action<S>> = Vec::new();
        assert(action_models(actions@) =~= Seq::<ActionModel<S>>::empty());
        let known: bool = self.rooms.contains_key(&room);
        let mut state: Room<S> = match self.rooms.remove(&room) {
            Some(r) => {
                assert(room_wf(before[room]@));
                if r.is_stale(now) {
                    let mut gone: Room<S> = r;
                    actions = gone.abandon(room);
                    Room::new(now)
                } else {
                    r
                }
            },
            None => Room::new(now),
        };
        assert(action_models(actions@) =~= cleared(models, room, now));
        assert(state@ == entered(models, room, now));
        let ghost held = state@;
        let (more, seat): (Vec<Action<S>>, Option<u8>) = state.join(room, token, conn, now, entropy);
        proof {
            tokens_claim_seats(held, room, token, conn, now, entropy);
        }
        if let Some(k) = seat {
            line.room = Some(room);
            line.index = k;
        }
        let mut more: Vec<Action<S>> = more;
        let ghost (a, b) = (actions@, more@);
        actions.append(&mut more);
        assert(action_models(actions@) =~= action_models(a) + action_models(b));
        if !known {
            self.ids.push(room);
            assert(!before.contains_key(room));
            assert forall|k: u32| #[trigger] before.insert(room, state).contains_key(k)
                <==> self.ids@.contains(k) by {
                if k == room {
                    assert(self.ids@[self.ids@.len() - 1] == room);
                } else {
                    assert(before.contains_key(k) <==> old(self).ids@.contains(k));
                    if old(self).ids@.contains(k) {
                        let i = choose|i: int| 0 <= i < old(self).ids@.len() && old(self).ids@[i] == k;
                        assert(self.ids@[i] == k);
                    }
                    if self.ids@.contains(k) {
                        let i = choose|i: int| 0 <= i < self.ids@.len() && self.ids@[i] == k;
                        assert(old(self).ids@[i] == k);
                    }
                }
            }
        }
        self.rooms.insert(room, state);
        assert(room_models(self.rooms@) =~= models.insert(room, state@));
        assert forall|k: u32| #[trigger] self.rooms@.contains_key(k) implies room_wf(self.rooms@[k]@) by {
            if k != room {
                assert(before.contains_key(k));
            }
        }
        assert forall|k: u32| #[trigger] self.rooms@.contains_key(k) <==> self.ids@.contains(k) by {
            if known {
                assert(before.contains_key(k) <==> old(self).ids@.contains(k));
            } else {
                assert(before.insert(room, state).contains_key(k) <==> self.ids@.contains(k));
            }
        }
        actions
    }

    /// Takes a message over a line.
    pub fn on_message(
        &mut self,
        line: &mut Line,
        conn: u64,
        msg: ClientMsg<S>,
        now: u64,
        entropy: u32,
    ) -> (actions: Vec<Action<S>>)
        requires
            old(self).wf(),
            old(line).wf(),
        ensures
            final(self).wf(),
            final(line).wf(),
            (Answer {
                rooms: room_models(final(self).rooms@),
                line: *final(line),
                actions: action_models(actions@),
            }) == answer(room_models(old(self).rooms@), *old(line), conn, msg, now, entropy),
    {
        let ghost before = self.rooms@;
        if let ClientMsg::Join { room, token } = msg {
            return self.enter(room, token, line, conn, now, entropy);
        }
        let mut actions: Vec<Action<S>> = Vec::new();
        assert(action_models(actions@) =~= Seq::<ActionModel<S>>::empty());
        let id: u32 = match line.room {
            Some(id) => id,
            None => {
                return actions;
            },
        };
        match self.rooms.remove(&id) {
            Some(r) => {
                let mut room: Room<S> = r;
                assert(room_wf(before[id]@));
                match msg {
                    ClientMsg::Join { .. } => {},
                    ClientMsg::Commands { tick, cmds } => {
                        actions = room.commands(line.index, tick, &cmds);
                    },
                    ClientMsg::Hash { tick, hash } => {
                        actions = room.hash(line.index, tick, hash);
                    },
                    ClientMsg::GameOver { end_tick } => {
                        actions = room.game_over(id, end_tick);
                    },
                }
                self.put_back(id, room, Ghost(before));
            },
            None => {
                assert(self.rooms@ =~= before);
            },
        }
        actions
    }

    /// Takes note that a line is lost.
    pub fn on_hang_up(&mut self, line: Line, now: u64) -> (actions: Vec<Action<S>>)
        requires
            old(self).wf(),
            line.wf(),
        ensures
            final(self).wf(),
            (Answer {
                rooms: room_models(final(self).rooms@),
                line,
                actions: action_models(actions@),
            }) == reacted(
                room_models(old(self).rooms@),
                line,
                |r: RoomModel<S>, id: u32| hung_up(r, line.index, now),
            ),
    {
        let ghost before = self.rooms@;
        let mut actions: Vec<Action<S>> = Vec::new();
        assert(action_models(actions@) =~= Seq::<ActionModel<S>>::empty());
        if let Some(id) = line.room {
            match self.rooms.remove(&id) {
                Some(r) => {
                    let mut room: Room<S> = r;
                    assert(room_wf(before[id]@));
                    actions = room.hang_up(line.index, now);
                    self.put_back(id, room, Ghost(before));
                },
                None => {
                    assert(self.rooms@ =~= before);
                },
            }
        }
        actions
    }

    /// Closes the rooms that have been empty for too long or never started, and saves what was
    /// played there.
    pub fn sweep(&mut self, now: u64) -> (actions: Vec<Action<S>>)
        requires
            old(self).wf(),
        ensures
            final(self).wf(),
            room_models(final(self).rooms@) == open_rooms(room_models(old(self).rooms@), now),
            action_models(actions@) == closing(
                room_models(old(self).rooms@),
                old(self).ids@,
                now,
            ),
    {
        let ghost before = self.rooms@;
        let ghost models = room_models(before);
        let ghost all = self.ids@;
        let n: usize = self.ids.len();
        let mut actions: Vec<Action<S>> = Vec::new();
        let mut kept: Vec<u32> = Vec::new();
        assert(all.take(0) =~= Seq::<u32>::empty());
        assert(action_models(actions@) =~= Seq::<ActionModel<S>>::empty());
        for i in 0..n
            invariant
                n == all.len(),
                self.ids@ == all,
                models == room_models(before),
                all.no_duplicates(),
                forall|id: u32| #[trigger] before.contains_key(id) ==> room_wf(before[id]@),
                forall|id: u32| #[trigger] before.contains_key(id) <==> all.contains(id),
                action_models(actions@) == closing(models, all.take(i as int), now),
                forall|id: u32| #[trigger]
                    self.rooms@.contains_key(id) <==> before.contains_key(id) && !(expired_spec(
                        models[id],
                        now,
                    ) && all.take(i as int).contains(id)),
                forall|id: u32| #[trigger] self.rooms@.contains_key(id) ==> self.rooms@[id] == before[id],
                kept@.no_duplicates(),
                forall|id: u32| #[trigger]
                    kept@.contains(id) <==> all.take(i as int).contains(id) && !expired_spec(
                        models[id],
                        now,
                    ),
        {
            let id: u32 = self.ids[i];
            assert(all.take(i + 1).drop_last() =~= all.take(i as int));
            assert(all.contains(id));
            assert(!all.take(i as int).contains(id)) by {
                if all.take(i as int).contains(id) {
                    let t = all.take(i as int);
                    let j = choose|j: int| 0 <= j < t.len() && t[j] == id;
                    assert(all[j] == all[i as int]);
                }
            }
            assert(forall|k: u32|
                #![trigger all.take(i + 1).contains(k)]
                all.take(i + 1).contains(k) <==> all.take(i as int).contains(k) || k == id) by {
                assert forall|k: u32|
                    #![trigger all.take(i + 1).contains(k)]
                    all.take(i + 1).contains(k) <==> all.take(i as int).contains(k) || k == id by {
                    if all.take(i + 1).contains(k) && k != id {
                        let t = all.take(i + 1);
                        let j = choose|j: int| 0 <= j < t.len() && t[j] == k;
                        assert(all.take(i as int)[j] == k);
                    }
                    if all.take(i as int).contains(k) {
                        let t = all.take(i as int);
                        let j = choose|j: int| 0 <= j < t.len() && t[j] == k;
                        assert(all.take(i + 1)[j] == k);
                    }
                    if k == id {
                        assert(all.take(i + 1)[i as int] == id);
                    }
                }
            }
            assert(before.contains_key(id));
            assert(self.rooms@.contains_key(id));
            assert(models[id] == before[id]@);
            let ghost rooms = self.rooms@;
            let ghost done = action_models(actions@);
            let ghost kept_before = kept@;
            let mut closed: bool = false;
            if let Some(r) = self.rooms.remove(&id) {
                if r.is_expired(now) {
                    closed = true;
                    let mut room: Room<S> = r;
                    if room.started {
                        let mut more: Vec<Action<S>> = room.abandon(id);
                        let ghost (a, b) = (actions@, more@);
                        actions.append(&mut more);
                        assert(action_models(actions@) =~= action_models(a) + action_models(b));
                    } else {
                        assert(done + Seq::<ActionModel<S>>::empty() =~= done);
                    }
                } else {
                    self.rooms.insert(id, r);
                    assert(self.rooms@ =~= rooms);
                    assert(done + Seq::<ActionModel<S>>::empty() =~= done);
                }
            }
            assert(closed == expired_spec(models[id], now));
            if !closed {
                kept.push(id);
                assert forall|k: u32| #[trigger] kept@.contains(k) <==> all.take(i + 1).contains(k)
                    && !expired_spec(models[k], now) by {
                    if kept@.contains(k) {
                        let j = choose|j: int| 0 <= j < kept@.len() && kept@[j] == k;
                        if j < kept_before.len() {
                            assert(kept_before[j] == k);
                            assert(kept_before.contains(k));
                        }
                    }
                    if kept_before.contains(k) {
                        let j = choose|j: int| 0 <= j < kept_before.len() && kept_before[j] == k;
                        assert(kept@[j] == k);
                    }
                    if k == id {
                        assert(kept@[kept@.len() - 1] == id);
                    }
                }
                assert(!kept_before.contains(id));
                assert(kept@.no_duplicates());
            }
        }
        assert(all.take(n as int) =~= all);
        self.ids = kept;
        assert(room_models(self.rooms@) =~= open_rooms(models, now)) by {
            assert forall|id: u32| room_models(self.rooms@).contains_key(id) <==> open_rooms(
                models,
                now,
            ).contains_key(id) by {
                assert(self.rooms@.contains_key(id) <==> before.contains_key(id) && !(expired_spec(
                    models[id],
                    now,
                ) && all.contains(id)));
            }
            assert forall|id: u32| room_models(self.rooms@).contains_key(id) implies room_models(
                self.rooms@,
            )[id] == open_rooms(models, now)[id] by {
                assert(self.rooms@.contains_key(id));
            }
        }
        assert forall|id: u32| #[trigger] self.rooms@.contains_key(id) implies room_wf(self.rooms@[id]@) by {
            assert(before.contains_key(id));
        }
        assert forall|id: u32| #[trigger] self.rooms@.contains_key(id) <==> self.ids@.contains(id) by {
            assert(kept@.contains(id) <==> all.contains(id) && !expired_spec(models[id], now));
            assert(before.contains_key(id) <==> all.contains(id));
        }
        actions
    }
}

} // verus!
