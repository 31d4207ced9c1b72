//! What the relay owes to the two in a room.

use vstd::prelude::*;

use crate::protocol::{ClientMsg, CommandWire, EntryModel, ServerModel};
use crate::relay::{
    answer, claimed_from, current_tick, entered, fresh_room, hung_up, join_spec, latest_stamp,
    open_rooms, room_wf, sanitized, stale, tick_estimate_spec, ActionModel, Line, RoomModel,
    SeatModel,
};
use crate::scalar::Scalar;

verus! {

/// Whether a line is that of a seat in a room whose match has started, and `other` the other seat.
pub open spec fn in_match<S: Scalar>(rooms: Map<u32, RoomModel<S>>, line: Line, id: u32, other: int) -> bool {
    &&& line.room == Some(id)
    &&& rooms.contains_key(id)
    &&& room_wf(rooms[id])
    &&& rooms[id].started
    &&& line.index == 0 && other == 1 || line.index == 1 && other == 0
}

/// Commands go to the other seat and to nobody else: at once if its owner is there, into its inbox
/// if not. They are passed on under the seat of the sender, one for one, with their cards, and for
/// the tick that they are for. The log has them; the other rooms are not concerned.
pub proof fn commands_reach_the_other<S: Scalar>(
    rooms: Map<u32, RoomModel<S>>,
    line: Line,
    conn: u64,
    id: u32,
    other: int,
    tick: u32,
    cmds: Vec<CommandWire<S>>,
    now: u64,
    entropy: u32,
)
    requires
        in_match(rooms, line, id, other),
    ensures
        ({
            let a = answer(rooms, line, conn, ClientMsg::Commands { tick, cmds }, now, entropy);
            let (r, n) = (rooms[id], a.rooms[id]);
            let told = if r.seats[other].connected { (a.actions.last())->Send_msg } else { n.seats[other].inbox.last() };
            &&& a.line == line
            &&& a.rooms.contains_key(id)
            &&& forall|k: u32| k != id ==> a.rooms.contains_key(k) == rooms.contains_key(k)
            &&& forall|k: u32| k != id && rooms.contains_key(k) ==> a.rooms[k] == rooms[k]
            &&& r.seats[other].connected ==> a.actions == seq![
                ActionModel::Send { line: r.seats[other].line, msg: told },
            ] && n.seats[other] == r.seats[other]
            &&& !r.seats[other].connected ==> a.actions.len() == 0 && n.seats[other] == (SeatModel {
                inbox: r.seats[other].inbox.push(told),
                ..r.seats[other]
            })
            &&& told matches ServerModel::Commands { tick: t, cmds: w } && {
                &&& t == tick
                &&& w.len() == cmds@.len()
                &&& forall|i: int|
                    0 <= i < w.len() ==> (#[trigger] w[i])->faction == line.index && w[i]->card == cmds@[i]->card
                &&& cmds@.len() > 0 ==> n.log == r.log.push(EntryModel { tick, from: line.index, cmds: w })
                &&& cmds@.len() == 0 ==> n.log == r.log
            }
            &&& n.seats[line.index as int].last_stamp == (if r.seats[line.index as int].last_stamp < tick {
                tick
            } else {
                r.seats[line.index as int].last_stamp
            })
            &&& n.seed == r.seed && n.started && n.saved == r.saved
        }),
{
    let a = answer(rooms, line, conn, ClientMsg::Commands { tick, cmds }, now, entropy);
    let clean = cmds@.map_values(|c: CommandWire<S>| sanitized(c, line.index));
    assert(clean.len() == cmds@.len());
}

/// What lies on the field is passed on as it is; what lies off it is moved to the edge.
pub proof fn places_are_kept<S: Scalar>(c: CommandWire<S>, seat: u8)
    ensures
        ({
            let (w, d) = (S::ratio(8, 1), S::ratio(14, 1));
            let n = sanitized(c, seat);
            &&& n->faction == seat && n->card == c->card
            &&& !c->x.less(w.negated()) && !w.less(c->x) ==> n->x == c->x
            &&& !c->z.less(d.negated()) && !d.less(c->z) ==> n->z == c->z
            &&& !c->x.less(w.negated()) && w.less(c->x) ==> n->x == w
            &&& !c->z.less(d.negated()) && d.less(c->z) ==> n->z == d
        }),
{
}

/// A hash goes to the other seat if its owner is there, and is not kept if not.
pub proof fn hashes_reach_the_other<S: Scalar>(
    rooms: Map<u32, RoomModel<S>>,
    line: Line,
    conn: u64,
    id: u32,
    other: int,
    tick: u32,
    hash: u32,
    now: u64,
    entropy: u32,
)
    requires
        in_match(rooms, line, id, other),
    ensures
        ({
            let a = answer(rooms, line, conn, ClientMsg::Hash { tick, hash }, now, entropy);
            &&& a.rooms[id] == rooms[id]
            &&& rooms[id].seats[other].connected ==> a.actions == seq![
                ActionModel::Send { line: rooms[id].seats[other].line, msg: ServerModel::<S>::Hash { tick, hash } },
            ]
            &&& !rooms[id].seats[other].connected ==> a.actions.len() == 0
        }),
{
}

/// The end of a match is saved once, with all its commands and the tick in which it ended.
pub proof fn ends_are_saved_once<S: Scalar>(
    rooms: Map<u32, RoomModel<S>>,
    line: Line,
    conn: u64,
    id: u32,
    other: int,
    end_tick: u32,
    now: u64,
    entropy: u32,
)
    requires
        in_match(rooms, line, id, other),
    ensures
        ({
            let a = answer(rooms, line, conn, ClientMsg::GameOver { end_tick }, now, entropy);
            &&& rooms[id].saved ==> a.actions.len() == 0 && a.rooms[id] == rooms[id]
            &&& !rooms[id].saved ==> {
                &&& a.actions == seq![
                    ActionModel::Save { room: id, finished: true, version: 1, end_tick, entries: rooms[id].log },
                ]
                &&& a.rooms[id] == (RoomModel { saved: true, ..rooms[id] })
            }
        }),
{
}

/// Whoever is not in a room is not heard by any.
pub proof fn strangers_are_not_heard<S: Scalar>(
    rooms: Map<u32, RoomModel<S>>,
    line: Line,
    conn: u64,
    msg: ClientMsg<S>,
    now: u64,
    entropy: u32,
)
    requires
        line.room.is_none(),
        !(msg is Join),
    ensures
        ({
            let a = answer(rooms, line, conn, msg, now, entropy);
            a.rooms == rooms && a.actions.len() == 0 && a.line == line
        }),
{
}

/// Who leaves is marked as gone, and the other is told, once, if they are there; if nobody is left,
/// the room keeps the time and the tick.
pub proof fn leaving_is_told<S: Scalar>(r: RoomModel<S>, index: u8, other: int, now: u64)
    requires
        room_wf(r),
        r.started,
        index == 0 && other == 1 || index == 1 && other == 0,
        r.frozen_at.is_none(),
    ensures
        ({
            let re = hung_up(r, index, now);
            &&& re.room.seats[index as int] == (SeatModel { connected: false, ..r.seats[index as int] })
            &&& re.room.seats[other] == r.seats[other]
            &&& re.room.log == r.log && re.room.seed == r.seed && re.room.started
            &&& r.seats[other].connected ==> re.room.frozen_at.is_none() && re.actions == seq![
                ActionModel::Send { line: r.seats[other].line, msg: ServerModel::<S>::OpponentLeft },
            ]
            &&& !r.seats[other].connected ==> re.actions.len() == 0 && re.room.frozen_at == Some(
                (now, tick_estimate_spec(r)),
            )
        }),
{
    let re = hung_up(r, index, now);
    reveal_with_fuel(latest_stamp, 3);
    let (s, t) = (r.seats, re.room.seats);
    assert(s.drop_last()[0] == s[0] && t.drop_last()[0] == t[0]);
    if r.seats[other].connected {
        assert(t[other].connected);
    }
}

/// Who is back gets their seat, is told its number, then the log with the seed and the tick to catch
/// up with, then what came for them meanwhile, in order; the other is told, if they are there.
pub proof fn coming_back_is_told<S: Scalar>(
    r: RoomModel<S>,
    id: u32,
    line: u64,
    now: u64,
    entropy: u32,
    index: int,
    other: int,
)
    requires
        room_wf(r),
        r.started,
        index == 0 && other == 1 || index == 1 && other == 0,
    ensures
        ({
            let (re, seat) = join_spec(r, id, r.seats[index].token, line, now, entropy);
            let n = r.seats[index].inbox.len() as int;
            &&& seat == Some(index as u8)
            &&& re.room.seats[index] == (SeatModel { line, connected: true, inbox: Seq::empty(), ..r.seats[index] })
            &&& re.room.seats[other] == r.seats[other]
            &&& re.room.frozen_at.is_none()
            &&& re.actions[0] == (ActionModel::<S>::Send { line, msg: ServerModel::Joined { index: index as u8 } })
            &&& re.actions[1] matches ActionModel::Send { line: l, msg: ServerModel::History { entries, seed, current_tick: t } }
                && l == line && entries == r.log && seed == r.seed && t == current_tick(r, now)
            &&& forall|i: int|
                0 <= i < n ==> (#[trigger] re.actions[2 + i]) == (ActionModel::Send {
                    line,
                    msg: r.seats[index].inbox[i],
                })
            &&& r.seats[other].connected ==> re.actions.len() == 3 + n && re.actions[2 + n] == (ActionModel::<S>::Send {
                line: r.seats[other].line,
                msg: ServerModel::OpponentBack,
            })
            &&& !r.seats[other].connected ==> re.actions.len() == 2 + n
        }),
{
    assert(r.seats[0].token != r.seats[1].token);
    reveal_with_fuel(claimed_from, 3);
}

/// The tick of a match is estimated by the latest command, which was for the fourth tick after it. If
/// everyone is away, thirty more go by each second.
pub proof fn ticks_are_estimated<S: Scalar>(r: RoomModel<S>, now: u64, since: u64, base: u32)
    requires
        room_wf(r),
        r.started,
    ensures
        ({
            let (a, b) = (r.seats[0].last_stamp, r.seats[1].last_stamp);
            let top = if a < b { b } else { a };
            &&& top >= 4 ==> tick_estimate_spec(r) == top - 4
            &&& top < 4 ==> tick_estimate_spec(r) == 0
            &&& r.frozen_at.is_none() ==> current_tick(r, now) == tick_estimate_spec(r)
            &&& r.frozen_at == Some((since, base)) && since <= now && base + 30 * ((now - since) / 1_000_000_000)
                <= u32::MAX ==> current_tick(r, now) == base + 30 * ((now - since) / 1_000_000_000)
        }),
{
    reveal_with_fuel(latest_stamp, 3);
    assert(r.seats.drop_last()[0] == r.seats[0]);
    assert(r.seats.drop_last().drop_last().len() == 0);
}

/// A room goes when it has been empty for more than ten minutes, or has not started for as long; the
/// others stay as they are.
pub proof fn rooms_close_in_time<S: Scalar>(rooms: Map<u32, RoomModel<S>>, id: u32, now: u64, since: u64, base: u32)
    requires
        rooms.contains_key(id),
        since <= now,
        rooms[id].created_at <= now,
    ensures
        ({
            let r = rooms[id];
            let long = now - since >= 601_000_000_000;
            let old = now - r.created_at >= 601_000_000_000;
            &&& r.frozen_at == Some((since, base)) ==> open_rooms(rooms, now).contains_key(id) == !long && stale(r, now) == long
            &&& r.frozen_at.is_none() ==> open_rooms(rooms, now).contains_key(id) == (r.started || !old) && !stale(r, now)
            &&& open_rooms(rooms, now).contains_key(id) ==> open_rooms(rooms, now)[id] == r
        }),
{
}

/// A room that nobody has entered yet is empty: nothing has started, nothing is kept and nothing saved.
/// One that was empty for too long is opened anew; any other is entered as it is.
pub proof fn rooms_are_opened_anew<S: Scalar>(rooms: Map<u32, RoomModel<S>>, id: u32, now: u64)
    ensures
        ({
            let r = fresh_room::<S>(now);
            r.seats.len() == 0 && !r.started && !r.saved && r.log.len() == 0 && r.frozen_at.is_none() && r.created_at == now
        }),
        !rooms.contains_key(id) ==> entered(rooms, id, now) == fresh_room::<S>(now),
        rooms.contains_key(id) && stale(rooms[id], now) ==> entered(rooms, id, now) == fresh_room::<S>(now),
        rooms.contains_key(id) && !stale(rooms[id], now) ==> entered(rooms, id, now) == rooms[id],
{
}

} // verus!
