//! What peers owe each other: when a tick may run, what a message changes, and what a hash shows.

use vstd::prelude::*;

use crate::client::{sent, told_with_end};
use crate::components::{Actor, Faction, GameCommand, UnitKind};
use crate::decks::dealt;
use crate::match_flow::SimState;
use crate::net::{
    cards_digest, history, kept, notice, player_token, received, received_all, rotated11,
    sim_ready_spec, starting_state, state_hash_spec, unit_digest, units_digest, ClientModel, Notice,
    Session,
};
use crate::protocol::{
    command_to_wire, frame_round_trip, from_wires_spec, header_spec, length_spec, to_wires_spec,
    wire_to_command, ClientMsgModel, CommandWire, EntryModel, ServerModel,
};
use crate::scalar::Scalar;
use crate::world::WorldModel;

verus! {

/// Which ticks may run: all of a match against nobody; of a match against a peer the first four,
/// for which nobody can have given a command, those whose commands are here, and those for which
/// none are to be expected. While waiting, catching up, replaying or when it is over none does.
pub proof fn ticks_run_when_they_may(has_remote: bool, tick: u32, net: Option<Session>, winner: Option<Faction>)
    ensures
        sim_ready_spec(SimState::Solo, has_remote, tick, net),
        tick < 4 ==> (net.is_some() ==> sim_ready_spec(SimState::Playing, has_remote, tick, net)),
        has_remote && net.is_some() ==> sim_ready_spec(SimState::Playing, has_remote, tick, net),
        !sim_ready_spec(SimState::Waiting, has_remote, tick, net),
        !sim_ready_spec(SimState::CatchingUp, has_remote, tick, net),
        !sim_ready_spec(SimState::Replaying, has_remote, tick, net),
        !sim_ready_spec(SimState::GameOver(winner), has_remote, tick, net),
        (net matches Some(s) && s.opponent_live && s.live_resume_stamp.is_none() && tick >= 4 && !has_remote)
            ==> !sim_ready_spec(SimState::Playing, has_remote, tick, net),
        (net matches Some(s) && s.opponent_live && (s.live_resume_stamp matches Some(t) && tick >= t) && tick >= 4
            && !has_remote) ==> !sim_ready_spec(SimState::Playing, has_remote, tick, net),
        (net matches Some(s) && (s.live_resume_stamp matches Some(t) && tick < t)) ==> sim_ready_spec(
            SimState::Playing,
            has_remote,
            tick,
            net,
        ),
{
}

/// A seat, a start and a history: a client takes the seat that it is given. A start deals the cards
/// by the seed and lets a waiting client play; one who is not waiting does not heed it. A history
/// deals the cards as well, and lets the client catch up to the tick that it names.
pub proof fn matches_begin_by_seed<S: Scalar>(
    c: ClientModel<S>,
    index: u8,
    seed: u32,
    entries: Seq<EntryModel<S>>,
    upto: u32,
)
    ensures
        ({
            let r = received(c, ServerModel::Joined { index });
            r.session.my_index == index && r == (ClientModel {
                session: Session { my_index: r.session.my_index, ..c.session },
                ..c
            })
        }),
        ({
            let r = received(c, ServerModel::Start { seed });
            &&& c.state == SimState::Waiting ==> r == (ClientModel {
                decks: dealt(seed),
                state: SimState::Playing,
                ..c
            })
            &&& c.state != SimState::Waiting ==> r == c
        }),
        ({
            let r = received(c, ServerModel::History { entries, current_tick: upto, seed });
            &&& r.state == SimState::CatchingUp
            &&& r.target == upto
            &&& r.decks == dealt(seed)
            &&& r.replay == history(entries)
            &&& r.remote == c.remote
            &&& r.session == c.session
        }),
{
}

/// Commands of the opponent are kept for the tick that they are for, and for no other. One who was
/// gone counts as back with the first of them, from that tick on; who was there all the time needs
/// no such mark. That the opponent is gone is remembered; neither a hash nor the word that they are
/// back changes anything.
pub proof fn opponents_are_heard<S: Scalar>(
    c: ClientModel<S>,
    tick: u32,
    cmds: Seq<CommandWire<S>>,
    other: u32,
    hash: u32,
)
    ensures
        ({
            let r = received(c, ServerModel::Commands { tick, cmds });
            &&& r.remote.contains_key(tick) && r.remote[tick] == from_wires_spec(cmds)
            &&& other != tick ==> r.remote.contains_key(other) == c.remote.contains_key(other)
            &&& other != tick && c.remote.contains_key(other) ==> r.remote[other] == c.remote[other]
            &&& r.session.opponent_live
            &&& c.session.opponent_live ==> r.session == c.session
            &&& !c.session.opponent_live ==> r.session.live_resume_stamp == Some(tick) && r.session.my_index
                == c.session.my_index
            &&& r.state == c.state && r.decks == c.decks && r.replay == c.replay && r.target == c.target
        }),
        ({
            let r = received(c, ServerModel::OpponentLeft);
            &&& !r.session.opponent_live
            &&& r.session.live_resume_stamp.is_none()
            &&& r.session.my_index == c.session.my_index
            &&& r.remote == c.remote && r.state == c.state && r.decks == c.decks
        }),
        received(c, ServerModel::OpponentBack) == c,
        received(c, ServerModel::Hash { tick, hash }) == c,
{
}

/// Messages are taken in the order in which they come, each of them.
pub proof fn messages_are_taken_in_order<S: Scalar>(c: ClientModel<S>, msgs: Seq<ServerModel<S>>, msg: ServerModel<S>)
    ensures
        received_all(c, Seq::empty()) == c,
        received_all(c, msgs.push(msg)) == received(received_all(c, msgs), msg),
{
    assert(msgs.push(msg).drop_last() =~= msgs);
}

/// What is sent in a tick: first the commands, for the fourth tick after it; last the hash of the
/// tick itself; between them the end of the match if this tick brought it, and nothing otherwise.
pub proof fn ticks_are_reported<S: Scalar>(tick: u32, cmds: Seq<GameCommand<S>>, ended: bool, hash: u32)
    requires
        tick + 4 <= u32::MAX,
    ensures
        ({
            let out = sent(tick, cmds, ended, hash);
            &&& out.len() == (if ended { 3int } else { 2int })
            &&& out[0] matches ClientMsgModel::Commands { tick: t, cmds: w } && t == tick + 4 && w == to_wires_spec(cmds)
            &&& ended ==> out[1] == (ClientMsgModel::<S>::GameOver { end_tick: tick })
            &&& out.last() == (ClientMsgModel::<S>::Hash { tick, hash })
        }),
{
}

/// One who catches up tells the hash of every tick, in order, and once that the match is over, just
/// before the hash of the tick in which it ended.
pub proof fn catching_up_is_reported<S: Scalar>(run: Seq<(u32, u32)>, i: int)
    requires
        0 <= i < run.len(),
    ensures
        ({
            let (plain, over) = (told_with_end::<S>(run, false), told_with_end::<S>(run, true));
            let n = run.len() as int;
            &&& plain.len() == n
            &&& plain[i] == (ClientMsgModel::<S>::Hash { tick: run[i].0, hash: run[i].1 })
            &&& over.len() == n + 1
            &&& i < n - 1 ==> over[i] == plain[i]
            &&& over[n - 1] == (ClientMsgModel::<S>::GameOver { end_tick: run[n - 1].0 })
            &&& over[n] == plain[n - 1]
        }),
{
}

proof fn lemma_digest_update<S: Scalar>(units: Seq<Actor<S>>, i: int, a: Actor<S>)
    requires
        0 <= i < units.len(),
    ensures
        units_digest(units.update(i, a)) + unit_digest(&units[i]) as nat == units_digest(units) + unit_digest(&a) as nat,
    decreases units.len(),
{
    let after = units.update(i, a);
    if i == units.len() - 1 {
        assert(after.drop_last() =~= units.drop_last());
    } else {
        assert(after.drop_last() =~= units.drop_last().update(i, a));
        lemma_digest_update(units.drop_last(), i, a);
    }
}

proof fn lemma_sums_differ(x: int, a: u32, b: u32)
    requires
        a != b,
    ensures
        (x + a) % 0x1_0000_0000 != (x + b) % 0x1_0000_0000,
{
}

/// Peers whose worlds differ in the health of one troop or one tower, or in one place of a troop, do
/// not have the same hash, as far as the difference shows in the pattern of the number.
pub proof fn hashes_show_differences<S: Scalar>(m: WorldModel<S>, i: int, a: Actor<S>)
    requires
        0 <= i < m.units.len(),
        a.unit == m.units[i].unit,
        a.unit.kind != UnitKind::Building,
        a.unit.kind == UnitKind::Tower ==> a.health.current.bits() != m.units[i].health.current.bits(),
        a.unit.kind == UnitKind::Troop ==> {
            let b = m.units[i];
            ||| a.pos.x == b.pos.x && a.pos.z == b.pos.z && a.health.current.bits() != b.health.current.bits()
            ||| a.pos.x.bits() != b.pos.x.bits() && a.pos.z == b.pos.z && a.health.current == b.health.current
            ||| a.pos.x == b.pos.x && a.pos.z.bits() != b.pos.z.bits() && a.health.current == b.health.current
        },
    ensures
        state_hash_spec(WorldModel { units: m.units.update(i, a), ..m }) != state_hash_spec(m),
{
    let b = m.units[i];
    let (ax, az, ah) = (a.pos.x.bits(), a.pos.z.bits(), a.health.current.bits());
    let (bx, bz, bh) = (b.pos.x.bits(), b.pos.z.bits(), b.health.current.bits());
    let f = a.unit.faction.index() as u32;
    assert((ax == bx && az == bz && ah != bh || ax != bx && az == bz && ah == bh || ax == bx && az != bz && ah == bh)
        ==> ax ^ az ^ ah ^ f != bx ^ bz ^ bh ^ f) by (bit_vector);
    assert(ah != bh ==> ((ah << 7u32) | (ah >> 25u32)) != ((bh << 7u32) | (bh >> 25u32))) by (bit_vector);
    lemma_digest_update(m.units, i, a);
    let (p, q) = (unit_digest(&a), unit_digest(&b));
    assert(p != q);
    let after = WorldModel { units: m.units.update(i, a), ..m };
    let rest = units_digest(m.units) - q + (m.elixir.player.bits() ^ rotated11(m.elixir.enemy.bits())) as nat
        + cards_digest(m.decks.player + m.decks.enemy);
    lemma_sums_differ(rest, p, q);
}

/// What players are told: their seat; the start, if they waited for it; that they catch up, with how much
/// and how far; that the opponent is gone or back; and that the worlds have drifted apart, exactly
/// if the own hash of that tick is known and another. Commands are not told.
pub proof fn players_are_told<S: Scalar>(
    state: SimState,
    hashes: Map<u32, u32>,
    index: u8,
    seed: u32,
    tick: u32,
    hash: u32,
    cmds: Seq<CommandWire<S>>,
    entries: Seq<EntryModel<S>>,
)
    ensures
        notice::<S>(state, hashes, ServerModel::Joined { index }) == Some(Notice::Joined(index)),
        notice::<S>(SimState::Waiting, hashes, ServerModel::Start { seed }) == Some(Notice::Started(seed)),
        state != SimState::Waiting ==> notice::<S>(state, hashes, ServerModel::Start { seed }).is_none(),
        notice(state, hashes, ServerModel::History { entries, current_tick: tick, seed }) == Some(
            Notice::CatchingUp(entries.len() as usize, tick),
        ),
        notice::<S>(state, hashes, ServerModel::OpponentLeft) == Some(Notice::OpponentLeft),
        notice::<S>(state, hashes, ServerModel::OpponentBack) == Some(Notice::OpponentBack),
        notice(state, hashes, ServerModel::Commands { tick, cmds }).is_none(),
        hashes.contains_key(tick) && hashes[tick] != hash ==> notice::<S>(
            state,
            hashes,
            ServerModel::Hash { tick, hash },
        ) == Some(Notice::Desync { tick, own: hashes[tick], theirs: hash }),
        !hashes.contains_key(tick) || hashes[tick] == hash ==> notice::<S>(
            state,
            hashes,
            ServerModel::Hash { tick, hash },
        ).is_none(),
{
}

/// Hashes are kept for three thousand ticks, under the number of their tick.
pub proof fn hashes_are_kept_for_a_while(hashes: Map<u32, u32>, tick: u32, hash: u32, t: u32)
    ensures
        ({
            let after = kept(hashes, tick, hash);
            &&& after.contains_key(tick) && after[tick] == hash
            &&& t != tick ==> (after.contains_key(t) <==> hashes.contains_key(t) && t + 3000 > tick)
            &&& t != tick && after.contains_key(t) ==> after[t] == hashes[t]
        }),
{
}

/// A message goes over a stream behind its length in four bytes, of which the first counts ones and
/// each further one 256 times as much as the one before it.
pub proof fn lengths_come_first(payload: Seq<u8>, a: u8, b: u8, c: u8, d: u8)
    requires
        payload.len() <= u32::MAX,
    ensures
        header_spec(payload.len() as int).len() == 4,
        length_spec((header_spec(payload.len() as int) + payload).take(4)) == payload.len(),
        length_spec(seq![a, b, c, d]) == a + 256 * (b + 256 * (c + 256 * d)),
{
    frame_round_trip(payload);
}

/// A command that travels is for the same card at the same place, for seat 0 from blue and seat 1 from
/// red; what comes from no seat is no command.
pub proof fn commands_travel_unchanged<S: Scalar>(cmd: GameCommand<S>, card: u8, x: S, z: S, seat: u8)
    ensures
        ({
            let w = command_to_wire(cmd);
            w->card == cmd->card && w->x == cmd->x && w->z == cmd->z && (w->faction == 0 <==> cmd->faction
                == Faction::Player) && (w->faction == 1 <==> cmd->faction == Faction::Enemy)
        }),
        wire_to_command(CommandWire::Deploy { faction: 0, card, x, z }) == Some(
            GameCommand::Deploy { faction: Faction::Player, card, x, z },
        ),
        wire_to_command(CommandWire::Deploy { faction: 1, card, x, z }) == Some(
            GameCommand::Deploy { faction: Faction::Enemy, card, x, z },
        ),
        seat >= 2 ==> wire_to_command(CommandWire::Deploy { faction: seat, card, x, z }).is_none(),
{
}

/// Of several commands that travelled those that are commands arrive, in their order.
pub proof fn commands_arrive_in_order<S: Scalar>(wires: Seq<CommandWire<S>>, w: CommandWire<S>)
    ensures
        from_wires_spec(Seq::<CommandWire<S>>::empty()).len() == 0,
        from_wires_spec(wires.push(w)) == (match wire_to_command(w) {
            Some(c) => from_wires_spec(wires).push(c),
            None => from_wires_spec(wires),
        }),
        to_wires_spec(Seq::<GameCommand<S>>::empty()).len() == 0,
{
    assert(wires.push(w).drop_last() =~= wires);
}

/// A session starts without a seat, with the opponent counted as there; a client starts with its recording
/// if it has one, against the computer or offline at once, and waits otherwise.
pub proof fn sessions_start_open(recording: bool, bot: bool, connected: bool)
    ensures
        Session::new().my_index == 255,
        Session::new().opponent_live,
        Session::new().live_resume_stamp.is_none(),
        recording ==> starting_state(recording, bot, connected) == SimState::Replaying,
        !recording && (bot || !connected) ==> starting_state(recording, bot, connected) == SimState::Solo,
        !recording && !bot && connected ==> starting_state(recording, bot, connected) == SimState::Waiting,
{
}

/// A player has the token that is asked for, else the one that was kept; only a new one is to be kept.
pub proof fn tokens_are_kept(asked: u64, old: u64, held: Option<u64>, nanos: u64, process: u32)
    ensures
        player_token(Some(asked), held, nanos, process) == (asked, false),
        player_token(None, Some(old), nanos, process) == (old, false),
        player_token(None, None, nanos, process).1,
{
}

} // verus!
