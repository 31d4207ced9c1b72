//! The client's side of the network: which ticks may run, what messages change, and the hash
//! by which peers notice that they have drifted apart.

use std::collections::HashMap;
use vstd::prelude::*;

use crate::components::{Actor, CommandBuffer, GameCommand, UnitKind};
use crate::constants::INPUT_DELAY;
use crate::decks::{dealt, Decks, DecksModel};
use crate::match_flow::SimState;
use crate::protocol::{
    from_wires, from_wires_spec, log_model, to_wires, to_wires_spec, CommandWire, EntryModel,
    LogEntry, ServerModel, ServerMsg,
};
use crate::replay::ReplayLog;
use crate::scalar::Scalar;
use crate::sim::{at_tick, schedule};
use crate::world::{World, WorldModel};

verus! {

broadcast use vstd::std_specs::hash::group_hash_axioms;

/// What a client knows of its room.
#[derive(Clone, Copy, PartialEq, Eq, Structural, Debug)]
pub struct Session {
    /// The own seat; 255 before there is one.
    pub my_index: u8,
    /// Whether the opponent sends; if not, its missing ticks count as empty.
    pub opponent_live: bool,
    /// The first tick that the opponent sent for after it came back; earlier ones that are
    /// missing count as empty.
    pub live_resume_stamp: Option<u32>,
}

impl Session {
    /// A session without a seat. The opponent counts as present until the relay says otherwise,
    /// so that no early command is missed.
    #[verifier::allow_in_spec]
    pub fn new() -> Session
        returns
            (Session { my_index: 255u8, opponent_live: true, live_resume_stamp: None }),
    {
        Session { my_index: 255u8, opponent_live: true, live_resume_stamp: None }
    }
}

/// Commands by tick as a mathematical value.
pub open spec fn by_tick<S: Scalar>(map: Map<u32, Vec<GameCommand<S>>>) -> Map<u32, Seq<GameCommand<S>>> {
    map.map_values(|v: Vec<GameCommand<S>>| v@)
}

/// Whether the opponent's missing commands for a tick count as none.
#[verifier::allow_in_spec]
pub fn excused(net: &Session, tick: u32) -> bool
    returns
        (!net.opponent_live || (match net.live_resume_stamp {
            Some(s) => tick < s,
            None => false,
        })),
{
    !net.opponent_live || (match net.live_resume_stamp {
        Some(s) => tick < s,
        None => false,
    })
}

/// Whether the next tick may run: alone always; in a match once the opponent's commands for it
/// are here, or cannot be expected; otherwise not.
pub open spec fn sim_ready_spec(
    state: SimState,
    has_remote: bool,
    tick: u32,
    net: Option<Session>,
) -> bool {
    match state {
        SimState::Solo => true,
        SimState::Playing => {
            ||| tick < INPUT_DELAY
            ||| has_remote
            ||| net matches Some(n) && excused(&n, tick)
        },
        _ => false,
    }
}

/// Whether the next tick may run.
pub fn sim_ready<S: Scalar>(
    state: SimState,
    buffer: &CommandBuffer<S>,
    tick: u32,
    net: &Option<Session>,
) -> (r: bool)
    ensures
        r == sim_ready_spec(state, buffer.remote@.contains_key(tick), tick, *net),
{
    match state {
        SimState::Solo => true,
        SimState::Playing => tick < INPUT_DELAY || buffer.remote.contains_key(&tick) || (match net {
            Some(n) => excused(n, tick),
            None => false,
        }),
        _ => false,
    }
}

/// The barrier: in a match with a present opponent no tick after the first few runs without its
/// commands, and its commands alone are enough to go on.
pub proof fn barrier_waits(has_remote: bool, tick: u32, net: Session)
    requires
        net.opponent_live,
        net.live_resume_stamp.is_none(),
        tick >= INPUT_DELAY,
    ensures
        sim_ready_spec(SimState::Playing, has_remote, tick, Some(net)) == has_remote,
{
}

/// A match does not stop when the opponent is gone.
pub proof fn absence_does_not_stop(has_remote: bool, tick: u32, net: Session)
    requires
        !net.opponent_live,
    ensures
        sim_ready_spec(SimState::Playing, has_remote, tick, Some(net)),
{
}

/// One who was away and is back leaves no gap: the ticks before the first that they sent for
/// again need nothing of them, and those from it on do.
pub proof fn gap_is_covered<S: Scalar>(
    c: ClientModel<S>,
    stamp: u32,
    cmds: Seq<CommandWire<S>>,
    has_remote: bool,
    tick: u32,
)
    requires
        tick >= INPUT_DELAY,
    ensures
        ({
            let gone = received(c, ServerModel::OpponentLeft);
            let back = received(gone, ServerModel::Commands { tick: stamp, cmds });
            &&& sim_ready_spec(SimState::Playing, has_remote, tick, Some(gone.session))
            &&& sim_ready_spec(SimState::Playing, has_remote, tick, Some(back.session)) == (has_remote
                || tick < stamp)
            &&& back.remote == c.remote.insert(stamp, from_wires_spec(cmds))
        }),
{
}

/// Whether clicks count.
#[verifier::allow_in_spec]
pub fn takes_input(state: SimState) -> bool
    returns
        (state == SimState::Solo || state == SimState::Playing),
{
    match state {
        SimState::Solo => true,
        SimState::Playing => true,
        _ => false,
    }
}

/// Stamps the clicks with the tick in which they take effect, keeps them for then, and gives
/// the message for the opponent: also when there are no clicks, for the opponent waits for it.
pub fn collect_inputs<S: Scalar>(
    state: SimState,
    pending: &mut Vec<GameCommand<S>>,
    buffer: &mut CommandBuffer<S>,
    tick: u32,
) -> (r: Option<(u32, Vec<CommandWire<S>>)>)
    requires
        tick + INPUT_DELAY <= u32::MAX,
    ensures
        final(buffer).remote == old(buffer).remote,
        if takes_input(state) {
            let stamp = (tick + INPUT_DELAY) as u32;
            &&& final(pending)@.len() == 0
            &&& r matches Some((t, wires)) && t == stamp && wires@ == to_wires_spec(old(pending)@)
            &&& at_tick(final(buffer).local@, stamp) == at_tick(old(buffer).local@, stamp)
                + old(pending)@
            &&& forall|t: u32|
                t != stamp ==> #[trigger] at_tick(final(buffer).local@, t) == at_tick(
                    old(buffer).local@,
                    t,
                )
        } else {
            *final(pending) == *old(pending) && *final(buffer) == *old(buffer) && r.is_none()
        },
{
    if !takes_input(state) {
        return None;
    }
    let stamp: u32 = tick + INPUT_DELAY;
    let wires: Vec<CommandWire<S>> = to_wires(pending);
    let n: usize = pending.len();
    let ghost before = at_tick(buffer.local@, stamp);
    assert(before + pending@.take(0) =~= before);
    for i in 0..n
        invariant
            n == pending@.len(),
            pending@ == old(pending)@,
            buffer.remote == old(buffer).remote,
            at_tick(buffer.local@, stamp) == before + pending@.take(i as int),
            forall|t: u32|
                t != stamp ==> #[trigger] at_tick(buffer.local@, t) == at_tick(old(buffer).local@, t),
    {
        let ghost mid = buffer.local@;
        schedule(&mut buffer.local, stamp, pending[i]);
        assert(before + pending@.take(i + 1) =~= (before + pending@.take(i as int)).push(
            pending@[i as int],
        ));
        assert forall|t: u32| t != stamp implies #[trigger] at_tick(buffer.local@, t) == at_tick(
            old(buffer).local@,
            t,
        ) by {
            assert(at_tick(buffer.local@, t) == at_tick(mid, t));
        }
    }
    assert(pending@.take(n as int) =~= pending@);
    pending.clear();
    Some((stamp, wires))
}

/// What the messages of the relay change.
pub ghost struct ClientModel<S> {
    pub session: Session,
    pub state: SimState,
    pub decks: DecksModel,
    pub remote: Map<u32, Seq<GameCommand<S>>>,
    pub replay: Map<u32, Seq<GameCommand<S>>>,
    pub target: u32,
}

/// A client: its session, its match, its buffers and its hashes.
pub struct Client<S> {
    pub session: Session,
    pub world: World<S>,
    pub buffer: CommandBuffer<S>,
    pub replay: ReplayLog<S>,
    /// The own hashes by tick.
    pub hashes: HashMap<u32, u32>,
}

impl<S: Scalar> View for Client<S> {
    type V = ClientModel<S>;

    open spec fn view(&self) -> ClientModel<S> {
        ClientModel {
            session: self.session,
            state: self.world.state,
            decks: self.world.decks@,
            remote: by_tick(self.buffer.remote@),
            replay: by_tick(self.replay.map@),
            target: self.replay.target,
        }
    }
}

/// Commands by tick, with those of one more entry at the end of its tick.
pub open spec fn merged_entry<S: Scalar>(
    map: Map<u32, Seq<GameCommand<S>>>,
    e: EntryModel<S>,
) -> Map<u32, Seq<GameCommand<S>>> {
    map.insert(
        e.tick,
        (if map.contains_key(e.tick) { map[e.tick] } else { Seq::empty() }) + from_wires_spec(e.cmds),
    )
}

/// The commands of a log by tick.
pub open spec fn history<S: Scalar>(entries: Seq<EntryModel<S>>) -> Map<u32, Seq<GameCommand<S>>>
    decreases entries.len(),
{
    if entries.len() == 0 {
        Map::empty()
    } else {
        merged_entry(history(entries.drop_last()), entries.last())
    }
}

/// The commands that the entries of a log hold for a tick, in the order of the entries.
pub open spec fn commands_at<S: Scalar>(entries: Seq<EntryModel<S>>, t: u32) -> Seq<GameCommand<S>>
    decreases entries.len(),
{
    if entries.len() == 0 {
        Seq::empty()
    } else {
        let rest = commands_at(entries.drop_last(), t);
        if entries.last().tick == t { rest + from_wires_spec(entries.last().cmds) } else { rest }
    }
}

/// No command of a log is lost: for every tick its history holds the commands of all entries of
/// that tick, whoever sent them, in the order of the entries.
pub proof fn history_is_complete<S: Scalar>(entries: Seq<EntryModel<S>>, t: u32)
    ensures
        history(entries).contains_key(t) <==> exists|i: int|
            0 <= i < entries.len() && (#[trigger] entries[i]).tick == t,
        commands_at(entries, t) == (if history(entries).contains_key(t) {
            history(entries)[t]
        } else {
            Seq::empty()
        }),
    decreases entries.len(),
{
    if entries.len() > 0 {
        let rest = entries.drop_last();
        let last = entries.len() - 1;
        history_is_complete(rest, t);
        assert(entries[last] == entries.last());
        if exists|i: int| 0 <= i < rest.len() && (#[trigger] rest[i]).tick == t {
            let i = choose|i: int| 0 <= i < rest.len() && (#[trigger] rest[i]).tick == t;
            assert(entries[i].tick == t);
        }
        if exists|i: int| 0 <= i < entries.len() && (#[trigger] entries[i]).tick == t {
            let i = choose|i: int| 0 <= i < entries.len() && (#[trigger] entries[i]).tick == t;
            if i < last {
                assert(rest[i].tick == t);
            }
        }
    }
}

/// The commands of a log by tick.
pub fn read_history<S: Scalar>(entries: &Vec<LogEntry<S>>) -> (r: HashMap<u32, Vec<GameCommand<S>>>)
    ensures
        by_tick(r@) == history(log_model(entries@)),
{
    let mut map: HashMap<u32, Vec<GameCommand<S>>> = HashMap::new();
    let n: usize = entries.len();
    let ghost all = log_model(entries@);
    assert(all.take(0) =~= Seq::<EntryModel<S>>::empty());
    assert(by_tick(map@) =~= Map::<u32, Seq<GameCommand<S>>>::empty());
    for i in 0..n
        invariant
            n == entries@.len(),
            all == log_model(entries@),
            by_tick(map@) == history(all.take(i as int)),
    {
        assert(all.take(i + 1).drop_last() =~= all.take(i as int));
        let ghost before = by_tick(map@);
        let e: &LogEntry<S> = &entries[i];
        assert(all[i as int] == e@);
        let more: Vec<GameCommand<S>> = from_wires(&e.cmds);
        let mut cmds: Vec<GameCommand<S>> = match map.remove(&e.tick) {
            Some(v) => v,
            None => Vec::new(),
        };
        let ghost held = cmds@;
        assert(held =~= if before.contains_key(e.tick) { before[e.tick] } else { Seq::empty() });
        let m: usize = more.len();
        assert(held + more@.take(0) =~= held);
        for k in 0..m
            invariant
                m == more@.len(),
                cmds@ == held + more@.take(k as int),
        {
            cmds.push(more[k]);
            assert(held + more@.take(k + 1) =~= (held + more@.take(k as int)).push(more@[k as int]));
        }
        assert(more@.take(m as int) =~= more@);
        map.insert(e.tick, cmds);
        assert(by_tick(map@) =~= merged_entry(before, e@));
    }
    assert(all.take(n as int) =~= all);
    map
}

/// A client after a message of the relay.
pub open spec fn received<S: Scalar>(c: ClientModel<S>, msg: ServerModel<S>) -> ClientModel<S> {
    match msg {
        ServerModel::Joined { index } => ClientModel {
            session: Session { my_index: index, ..c.session },
            ..c
        },
        // One who catches up ignores it.
        ServerModel::Start { seed } => if c.state == SimState::Waiting {
            ClientModel { decks: dealt(seed), state: SimState::Playing, ..c }
        } else {
            c
        },
        ServerModel::History { entries, current_tick, seed } => ClientModel {
            decks: dealt(seed),
            replay: history(entries),
            target: current_tick,
            state: SimState::CatchingUp,
            ..c
        },
        ServerModel::OpponentLeft => ClientModel {
            session: Session { opponent_live: false, live_resume_stamp: None, ..c.session },
            ..c
        },
        ServerModel::OpponentBack => c,
        ServerModel::Commands { tick, cmds } => ClientModel {
            session: if c.session.opponent_live {
                c.session
            } else {
                Session { opponent_live: true, live_resume_stamp: Some(tick), ..c.session }
            },
            remote: c.remote.insert(tick, from_wires_spec(cmds)),
            ..c
        },
        ServerModel::Hash { .. } => c,
    }
}

/// A client after several messages.
pub open spec fn received_all<S: Scalar>(c: ClientModel<S>, msgs: Seq<ServerModel<S>>) -> ClientModel<S>
    decreases msgs.len(),
{
    if msgs.len() == 0 {
        c
    } else {
        received(received_all(c, msgs.drop_last()), msgs.last())
    }
}

/// Something to tell the player.
#[derive(Clone, Copy, PartialEq, Eq, Structural, Debug)]
pub enum Notice {
    Joined(u8),
    Started(u32),
    /// So many entries, up to this tick.
    CatchingUp(usize, u32),
    OpponentLeft,
    OpponentBack,
    /// The peers have drifted apart.
    Desync { tick: u32, own: u32, theirs: u32 },
}

/// What a message gives to tell.
pub open spec fn notice<S: Scalar>(
    state: SimState,
    hashes: Map<u32, u32>,
    msg: ServerModel<S>,
) -> Option<Notice> {
    match msg {
        ServerModel::Joined { index } => Some(Notice::Joined(index)),
        ServerModel::Start { seed } => if state == SimState::Waiting {
            Some(Notice::Started(seed))
        } else {
            None
        },
        ServerModel::History { entries, current_tick, .. } => Some(
            Notice::CatchingUp(entries.len() as usize, current_tick),
        ),
        ServerModel::OpponentLeft => Some(Notice::OpponentLeft),
        ServerModel::OpponentBack => Some(Notice::OpponentBack),
        ServerModel::Commands { .. } => None,
        ServerModel::Hash { tick, hash } => if hashes.contains_key(tick) && hashes[tick] != hash {
            Some(Notice::Desync { tick, own: hashes[tick], theirs: hash })
        } else {
            None
        },
    }
}

/// What the messages give to tell, in order.
pub open spec fn notices_of<S: Scalar>(
    c: ClientModel<S>,
    hashes: Map<u32, u32>,
    msgs: Seq<ServerModel<S>>,
) -> Seq<Notice>
    decreases msgs.len(),
{
    if msgs.len() == 0 {
        Seq::empty()
    } else {
        let rest = notices_of(c, hashes, msgs.drop_last());
        match notice(received_all(c, msgs.drop_last()).state, hashes, msgs.last()) {
            Some(x) => rest.push(x),
            None => rest,
        }
    }
}

impl<S: Scalar> Client<S> {
    /// What is left alone by messages: everything of the world but its state and decks, the own
    /// commands and the own hashes.
    pub open spec fn undisturbed(&self, before: Client<S>) -> bool {
        &&& self.world@ == (WorldModel {
            state: self.world.state,
            decks: self.world.decks@,
            ..before.world@
        })
        &&& self.buffer.local == before.buffer.local
        &&& self.hashes == before.hashes
    }

    /// Takes one message of the relay.
    pub fn handle(&mut self, msg: ServerMsg<S>) -> (r: Option<Notice>)
        ensures
            final(self)@ == received(old(self)@, msg@),
            final(self).undisturbed(*old(self)),
            old(self).world.wf() && (old(self).world.timer.wf() || !(msg is History))
                ==> final(self).world.wf(),
            r == notice(old(self).world.state, old(self).hashes@, msg@),
    {
        let ghost before = self@;
        match msg {
            ServerMsg::Joined { index } => {
                self.session.my_index = index;
                Some(Notice::Joined(index))
            },
            ServerMsg::Start { seed } => {
                if self.world.state == SimState::Waiting {
                    self.world.decks = Decks::shuffled_with(seed);
                    self.world.state = SimState::Playing;
                    Some(Notice::Started(seed))
                } else {
                    None
                }
            },
            ServerMsg::History { entries, current_tick, seed } => {
                let count: usize = entries.len();
                self.world.decks = Decks::shuffled_with(seed);
                self.replay = ReplayLog { map: read_history(&entries), target: current_tick };
                self.world.state = SimState::CatchingUp;
                Some(Notice::CatchingUp(count, current_tick))
            },
            ServerMsg::OpponentLeft => {
                self.session.opponent_live = false;
                self.session.live_resume_stamp = None;
                Some(Notice::OpponentLeft)
            },
            ServerMsg::OpponentBack => Some(Notice::OpponentBack),
            ServerMsg::Commands { tick, cmds } => {
                if !self.session.opponent_live {
                    self.session.opponent_live = true;
                    self.session.live_resume_stamp = Some(tick);
                }
                let cmds: Vec<GameCommand<S>> = from_wires(&cmds);
                self.buffer.remote.insert(tick, cmds);
                assert(by_tick(self.buffer.remote@) =~= before.remote.insert(tick, cmds@));
                None
            },
            ServerMsg::Hash { tick, hash } => match self.hashes.get(&tick) {
                Some(own) => if *own != hash {
                    Some(Notice::Desync { tick, own: *own, theirs: hash })
                } else {
                    None
                },
                None => None,
            },
        }
    }

    /// Takes the messages of the relay in order, and gives what there is to tell.
    pub fn receive(&mut self, msgs: Vec<ServerMsg<S>>) -> (notices: Vec<Notice>)
        ensures
            final(self)@ == received_all(
                old(self)@,
                msgs@.map_values(|m: ServerMsg<S>| m@),
            ),
            final(self).undisturbed(*old(self)),
            old(self).world.wf() && old(self).world.timer.wf() ==> final(self).world.wf(),
            notices@ == notices_of(
                old(self)@,
                old(self).hashes@,
                msgs@.map_values(|m: ServerMsg<S>| m@),
            ),
    {
        let mut notices: Vec<Notice> = Vec::new();
        let mut queue: Vec<ServerMsg<S>> = msgs;
        let ghost all = msgs@;
        let ghost models = all.map_values(|m: ServerMsg<S>| m@);
        let n: usize = queue.len();
        let mut i: usize = 0;
        assert(models.take(0) =~= Seq::<ServerModel<S>>::empty());
        while i < n
            invariant
                n == all.len(),
                i <= n,
                queue@ == all.skip(i as int),
                models == all.map_values(|m: ServerMsg<S>| m@),
                self@ == received_all(old(self)@, models.take(i as int)),
                self.undisturbed(*old(self)),
                old(self).world.wf() && old(self).world.timer.wf() ==> self.world.wf(),
                notices@ == notices_of(old(self)@, old(self).hashes@, models.take(i as int)),
            decreases n - i,
        {
            assert(models.take(i + 1).drop_last() =~= models.take(i as int));
            let msg: ServerMsg<S> = queue.remove(0);
            assert(msg == all[i as int]);
            assert(models[i as int] == msg@);
            if let Some(x) = self.handle(msg) {
                notices.push(x);
            }
            i += 1;
            assert(queue@ =~= all.skip(i as int));
        }
        assert(models.take(n as int) =~= models);
        notices
    }
}

/// A number turned left by some bits.
#[verifier::allow_in_spec]
pub fn rotated7(x: u32) -> u32
    returns
        ((x << 7u32) | (x >> 25u32)),
{
    (x << 7u32) | (x >> 25u32)
}

/// A number turned left by some bits.
#[verifier::allow_in_spec]
pub fn rotated11(x: u32) -> u32
    returns
        ((x << 11u32) | (x >> 21u32)),
{
    (x << 11u32) | (x >> 21u32)
}

/// What a unit adds to the hash: troops by place, health and side, towers by health.
#[verifier::allow_in_spec]
pub fn unit_digest<S: Scalar>(a: &Actor<S>) -> u32
    returns
        (match a.unit.kind {
            UnitKind::Troop => a.pos.x.bits() ^ a.pos.z.bits() ^ a.health.current.bits() ^ (
            a.unit.faction.index() as u32),
            UnitKind::Tower => rotated7(a.health.current.bits()),
            UnitKind::Building => 0u32,
        }),
{
    match a.unit.kind {
        UnitKind::Troop => a.pos.x.bits() ^ a.pos.z.bits() ^ a.health.current.bits() ^ (
        a.unit.faction.index() as u32),
        UnitKind::Tower => rotated7(a.health.current.bits()),
        UnitKind::Building => 0u32,
    }
}

/// What all units add.
pub open spec fn units_digest<S: Scalar>(units: Seq<Actor<S>>) -> nat
    decreases units.len(),
{
    if units.len() == 0 {
        0
    } else {
        units_digest(units.drop_last()) + unit_digest(&units.last()) as nat
    }
}

/// What a card adds; its place counts only modulo 16.
#[verifier::allow_in_spec]
pub fn card_digest(c: u8, i: usize) -> u32
    returns
        ((c as u32) << ((i % 16) as u32)),
{
    (c as u32) << ((i % 16) as u32)
}

/// What the cards add, by their places.
pub open spec fn cards_digest(cards: Seq<u8>) -> nat
    decreases cards.len(),
{
    if cards.len() == 0 {
        0
    } else {
        cards_digest(cards.drop_last()) + card_digest(
            cards.last(),
            ((cards.len() - 1) % 16) as usize,
        ) as nat
    }
}

/// The hash of a world: the sum of what units, elixir and decks add, in 32 bits.
pub open spec fn state_hash_spec<S: Scalar>(m: WorldModel<S>) -> u32 {
    ((units_digest(m.units) + (m.elixir.player.bits() ^ rotated11(m.elixir.enemy.bits())) as nat
        + cards_digest(m.decks.player + m.decks.enemy)) % 0x1_0000_0000) as u32
}

fn mix(h: u32, x: u32, total: Ghost<nat>) -> (r: u32)
    requires
        h == total@ % 0x1_0000_0000,
    ensures
        r == (total@ + x as nat) % 0x1_0000_0000,
{
    h.wrapping_add(x)
}

proof fn lemma_place(p: int, j: int)
    requires
        0 <= p,
        0 <= j,
    ensures
        (p % 16 + j % 16) % 16 == (p + j) % 16,
{
}

/// The hash of a world, by which peers compare their states.
pub fn state_hash<S: Scalar>(world: &World<S>) -> (h: u32)
    ensures
        h == state_hash_spec(world@),
{
    let mut h: u32 = 0;
    let n: usize = world.units.len();
    let ghost units = world.units@;
    assert(units.take(0) =~= Seq::<Actor<S>>::empty());
    for i in 0..n
        invariant
            n == units.len(),
            units == world.units@,
            h == units_digest(units.take(i as int)) % 0x1_0000_0000,
    {
        assert(units.take(i + 1).drop_last() =~= units.take(i as int));
        h = mix(h, unit_digest(&world.units[i]), Ghost(units_digest(units.take(i as int))));
    }
    assert(units.take(n as int) =~= units);
    let e: u32 = world.elixir.player.bits() ^ rotated11(world.elixir.enemy.bits());
    h = mix(h, e, Ghost(units_digest(units)));
    let ghost base = units_digest(units) + e as nat;
    let ghost cards = world.decks.player@ + world.decks.enemy@;
    let p: usize = world.decks.player.len();
    let q: usize = world.decks.enemy.len();
    assert(cards.take(0) =~= Seq::<u8>::empty());
    for i in 0..p
        invariant
            p == world.decks.player@.len(),
            cards == world.decks.player@ + world.decks.enemy@,
            h == (base + cards_digest(cards.take(i as int))) % 0x1_0000_0000,
    {
        assert(cards.take(i + 1).drop_last() =~= cards.take(i as int));
        h = mix(
            h,
            card_digest(world.decks.player[i], i % 16),
            Ghost(base + cards_digest(cards.take(i as int))),
        );
    }
    for j in 0..q
        invariant
            p == world.decks.player@.len(),
            q == world.decks.enemy@.len(),
            cards == world.decks.player@ + world.decks.enemy@,
            h == (base + cards_digest(cards.take(p + j))) % 0x1_0000_0000,
    {
        let ghost next = cards.take(p + j + 1);
        assert(next.drop_last() =~= cards.take(p + j));
        let place: usize = (p % 16 + j % 16) % 16;
        proof {
            lemma_place(p as int, j as int);
        }
        assert(cards_digest(next) == cards_digest(cards.take(p + j)) + card_digest(
            next.last(),
            place,
        ) as nat);
        h = mix(
            h,
            card_digest(world.decks.enemy[j], place),
            Ghost(base + cards_digest(cards.take(p + j))),
        );
    }
    assert(cards.take(p + q) =~= cards);
    h
}

proof fn lemma_digest_remove<S: Scalar>(units: Seq<Actor<S>>, k: int)
    requires
        0 <= k < units.len(),
    ensures
        units_digest(units) == units_digest(units.remove(k)) + unit_digest(&units[k]) as nat,
    decreases units.len(),
{
    if k == units.len() - 1 {
        assert(units.remove(k) =~= units.drop_last());
    } else {
        lemma_digest_remove(units.drop_last(), k);
        assert(units.remove(k).drop_last() =~= units.drop_last().remove(k));
        assert(units.remove(k).last() == units.last());
    }
}

/// The hash does not depend on the order in which a peer keeps its units.
pub proof fn hash_ignores_order<S: Scalar>(a: Seq<Actor<S>>, b: Seq<Actor<S>>)
    requires
        a.to_multiset() == b.to_multiset(),
    ensures
        units_digest(a) == units_digest(b),
    decreases a.len(),
{
    a.to_multiset_ensures();
    b.to_multiset_ensures();
    assert(a.len() == b.len());
    if a.len() > 0 {
        let x = a.last();
        assert(a.contains(x));
        assert(b.to_multiset().count(x) > 0);
        assert(b.contains(x));
        let k = choose|k: int| 0 <= k < b.len() && b[k] == x;
        lemma_digest_remove(b, k);
        vstd::seq_lib::to_multiset_remove(b, k);
        vstd::seq_lib::to_multiset_remove(a, a.len() - 1);
        assert(a.remove(a.len() - 1) =~= a.drop_last());
        hash_ignores_order(a.drop_last(), b.remove(k));
    }
}

/// How long hashes are kept, in ticks.
pub const HASH_WINDOW: u32 = 3000;

/// Whether the hash of tick `t` is still of interest at `now`.
#[verifier::allow_in_spec]
pub fn recent(t: u32, now: u32) -> bool
    returns
        (t as int + HASH_WINDOW as int > now as int),
{
    t as u64 + HASH_WINDOW as u64 > now as u64
}

/// Drops the entries of old ticks.
///
/// Calls `std::collections::HashMap::retain`, of which it is believed that exactly the entries
/// that meet the predicate stay, unchanged.
#[verifier::external_body]
fn retain_recent(hashes: &mut HashMap<u32, u32>, now: u32)
    ensures
        final(hashes)@ == old(hashes)@.restrict(Set::new(|t: u32| recent(t, now))),
{
    hashes.retain(|t, _| recent(*t, now));
}

/// The hashes with that of one more tick, without those that are too old by then.
pub open spec fn kept(hashes: Map<u32, u32>, tick: u32, hash: u32) -> Map<u32, u32> {
    hashes.insert(tick, hash).restrict(Set::new(|t: u32| recent(t, tick)))
}

/// Keeps the hash of a tick, and drops those that are too old.
pub fn keep_hash(hashes: &mut HashMap<u32, u32>, tick: u32, hash: u32)
    ensures
        final(hashes)@ == kept(old(hashes)@, tick, hash),
        final(hashes)@.contains_key(tick) && final(hashes)@[tick] == hash,
{
    hashes.insert(tick, hash);
    retain_recent(hashes, tick);
}

/// Peers that agree hear nothing of each other's hashes, and peers that have drifted apart do:
/// the own hash of a tick stays for as long as it takes to compare it.
pub proof fn drift_is_noticed<S: Scalar>(
    state: SimState,
    hashes: Map<u32, u32>,
    tick: u32,
    own: u32,
    theirs: u32,
)
    ensures
        notice::<S>(state, kept(hashes, tick, own), ServerModel::Hash { tick, hash: theirs }) == (
        if own == theirs {
            None
        } else {
            Some(Notice::Desync { tick, own, theirs })
        }),
{
}

/// Whether the end of the match is to be reported: once, when it is over.
pub fn notify_game_over(state: SimState, fired: &mut bool) -> (r: bool)
    ensures
        r == (!*old(fired) && state is GameOver),
        *final(fired) == (*old(fired) || state is GameOver),
{
    let over: bool = match state {
        SimState::GameOver(_) => true,
        _ => false,
    };
    if *fired || !over {
        return false;
    }
    *fired = true;
    true
}

/// The state in which a client starts: a recording plays, against the computer and without a
/// relay one is alone, with a relay one waits.
#[verifier::allow_in_spec]
pub fn starting_state(recording: bool, bot: bool, connected: bool) -> SimState
    returns
        (if recording {
            SimState::Replaying
        } else if bot || !connected {
            SimState::Solo
        } else {
            SimState::Waiting
        }),
{
    if recording {
        SimState::Replaying
    } else if bot || !connected {
        SimState::Solo
    } else {
        SimState::Waiting
    }
}

/// The token of a player: the one that is asked for, else the one that was kept, else a new one
/// out of time and process; and whether it is to be kept.
#[verifier::allow_in_spec]
pub fn player_token(asked: Option<u64>, kept: Option<u64>, nanos: u64, process: u32) -> (u64, bool)
    returns
        (match (asked, kept) {
            (Some(t), _) => (t, false),
            (None, Some(t)) => (t, false),
            (None, None) => (nanos ^ ((process as u64) << 32u64), true),
        }),
{
    match (asked, kept) {
        (Some(t), _) => (t, false),
        (None, Some(t)) => (t, false),
        (None, None) => (nanos ^ ((process as u64) << 32u64), true),
    }
}

} // verus!
