//! Catching up and playing recordings.
//!
//! A state is its start and the commands since: to catch up is to run through a log as fast as
//! possible, and to play a recording is to do so at a pace that can be controlled.

use std::collections::HashMap;
use vstd::prelude::*;

use crate::arena::{opening, opening_spec};
use crate::components::{CommandBuffer, Faction, GameCommand};
use crate::match_flow::SimState;
use crate::net::{sim_ready, sim_ready_spec, state_hash, state_hash_spec, Session};
use crate::scalar::Scalar;
use crate::sim::{
    at_tick, buffered, exec_order, lemma_run_agrees, lockstep_order, lemma_tick_counts, run_ticks, sim_tick,
    take_commands, tick_spec,
};
use crate::world::{World, WorldModel};

verus! {

broadcast use vstd::std_specs::hash::group_hash_axioms;

/// How many ticks a catch-up runs at once.
pub const CATCH_UP_BURST: u32 = 600;

/// Where the commands of a catch-up or a recording come from.
pub struct ReplayLog<S> {
    pub map: HashMap<u32, Vec<GameCommand<S>>>,
    /// The tick to reach.
    pub target: u32,
}

/// The controls of a player.
#[derive(Clone, Copy, PartialEq, Eq, Structural, Debug)]
pub struct ReplayControl {
    pub paused: bool,
    /// Ticks per frame.
    pub speed: u32,
    /// A tick to jump to.
    pub seek_to: Option<u32>,
}

impl ReplayControl {
    /// Running at normal speed.
    #[verifier::allow_in_spec]
    pub fn new() -> ReplayControl
        returns
            (ReplayControl { paused: false, speed: 1, seek_to: None }),
    {
        ReplayControl { paused: false, speed: 1, seek_to: None }
    }
}

fn copy_commands<S: Scalar>(cmds: &Vec<GameCommand<S>>) -> (r: Vec<GameCommand<S>>)
    ensures
        r@ == cmds@,
{
    let n: usize = cmds.len();
    let mut r: Vec<GameCommand<S>> = Vec::new();
    for i in 0..n
        invariant
            n == cmds@.len(),
            r@ == cmds@.take(i as int),
    {
        r.push(cmds[i]);
        assert(r@ =~= cmds@.take(i + 1));
    }
    assert(r@ =~= cmds@);
    r
}

/// The opponent's commands of a tick, those of the log if it has any.
pub open spec fn fed<S: Scalar>(
    log: Map<u32, Vec<GameCommand<S>>>,
    remote: Map<u32, Vec<GameCommand<S>>>,
    t: u32,
) -> Seq<GameCommand<S>> {
    if at_tick(log, t).len() > 0 { at_tick(log, t) } else { at_tick(remote, t) }
}

/// The commands of each tick when a log is fed into a buffer.
pub open spec fn log_feed<S: Scalar>(log: ReplayLog<S>, buffer: CommandBuffer<S>) -> spec_fn(
    u32,
) -> Seq<GameCommand<S>> {
    |t: u32| exec_order(at_tick(buffer.local@, t) + fed(log.map@, buffer.remote@, t))
}

/// Puts the commands of a tick from the log into the buffer.
pub fn feed_log_tick<S: Scalar>(log: &ReplayLog<S>, buffer: &mut CommandBuffer<S>, tick: u32)
    ensures
        final(buffer).local == old(buffer).local,
        at_tick(final(buffer).remote@, tick) == fed(log.map@, old(buffer).remote@, tick),
        forall|t: u32|
            t != tick ==> #[trigger] at_tick(final(buffer).remote@, t) == at_tick(
                old(buffer).remote@,
                t,
            ),
{
    match log.map.get(&tick) {
        Some(cmds) => {
            if cmds.len() > 0 {
                buffer.remote.insert(tick, copy_commands(cmds));
            }
        },
        None => {},
    }
}

/// Two buffers hold the same for every tick from `from` on.
pub open spec fn same_from<S: Scalar>(a: CommandBuffer<S>, b: CommandBuffer<S>, from: u32) -> bool {
    &&& forall|t: u32| t >= from ==> #[trigger] at_tick(a.local@, t) == at_tick(b.local@, t)
    &&& forall|t: u32| t >= from ==> #[trigger] at_tick(a.remote@, t) == at_tick(b.remote@, t)
}

/// The hash of the world after each tick of a run, by tick.
pub open spec fn trail<S: Scalar>(
    m: WorldModel<S>,
    feed: spec_fn(u32) -> Seq<GameCommand<S>>,
    n: nat,
) -> Seq<(u32, u32)>
    decreases n,
{
    if n == 0 || m.state is GameOver {
        Seq::empty()
    } else {
        let w = tick_spec(m, feed(m.tick));
        seq![(m.tick, state_hash_spec(w))] + trail(w, feed, (n - 1) as nat)
    }
}

fn log_tick<S: Scalar>(world: &mut World<S>, buffer: &mut CommandBuffer<S>, log: &ReplayLog<S>) -> (hash: u32)
    requires
        old(world).wf(),
        !(old(world).state is GameOver),
        old(world).tick < u32::MAX,
    ensures
        final(world).wf(),
        final(world)@ == tick_spec(old(world)@, log_feed(*log, *old(buffer))(old(world).tick)),
        final(world).tick == old(world).tick + 1,
        same_from(*final(buffer), *old(buffer), final(world).tick),
        hash == state_hash_spec(final(world)@),
{
    feed_log_tick(log, buffer, world.tick);
    let ghost fed_buffer = *buffer;
    let cmds: Vec<GameCommand<S>> = take_commands(buffer, world.tick);
    sim_tick(world, &cmds);
    assert forall|t: u32| t >= world.tick implies #[trigger] at_tick(buffer.remote@, t) == at_tick(
        old(buffer).remote@,
        t,
    ) by {
        assert(at_tick(fed_buffer.remote@, t) == at_tick(old(buffer).remote@, t));
    }
    state_hash(world)
}

/// Runs up to `n` ticks with the commands of a log, and gives the hash after each; a match that
/// is over does not go on.
pub fn run_log<S: Scalar>(
    world: &mut World<S>,
    buffer: &mut CommandBuffer<S>,
    log: &ReplayLog<S>,
    n: u32,
) -> (hashes: Vec<(u32, u32)>)
    requires
        old(world).wf(),
        old(world).tick + n <= u32::MAX,
    ensures
        final(world).wf(),
        final(world)@ == run_ticks(old(world)@, log_feed(*log, *old(buffer)), n as nat),
        old(world).tick <= final(world).tick <= old(world).tick + n,
        final(world).tick == old(world).tick + n || final(world).state is GameOver,
        same_from(*final(buffer), *old(buffer), final(world).tick),
        hashes@ == trail(old(world)@, log_feed(*log, *old(buffer)), n as nat),
{
    let ghost feed = log_feed(*log, *buffer);
    let ghost m = world@;
    let mut hashes: Vec<(u32, u32)> = Vec::new();
    assert(hashes@ + trail(m, feed, n as nat) =~= trail(m, feed, n as nat));
    let mut k: u32 = 0;
    while k < n
        invariant_except_break
            run_ticks(m, feed, n as nat) == run_ticks(world@, feed, (n - k) as nat),
            trail(m, feed, n as nat) == hashes@ + trail(world@, feed, (n - k) as nat),
            world.tick == m.tick + k,
        invariant
            k <= n,
            m == old(world)@,
            feed == log_feed(*log, *old(buffer)),
            world.wf(),
            m.tick <= world.tick <= m.tick + k,
            m.tick + n <= u32::MAX,
            same_from(*buffer, *old(buffer), world.tick),
        ensures
            run_ticks(m, feed, n as nat) == world@,
            trail(m, feed, n as nat) == hashes@,
            world.tick == m.tick + n || world.state is GameOver,
        decreases n - k,
    {
        match world.state {
            SimState::GameOver(_) => {
                assert(hashes@ + trail(world@, feed, (n - k) as nat) =~= hashes@);
                break;
            },
            _ => {},
        }
        let ghost w = world@;
        let ghost b = *buffer;
        assert(log_feed(*log, b)(w.tick) == feed(w.tick)) by {
            assert(at_tick(b.local@, w.tick) == at_tick(old(buffer).local@, w.tick));
            assert(at_tick(b.remote@, w.tick) == at_tick(old(buffer).remote@, w.tick));
        }
        let tick: u32 = world.tick;
        let ghost before = hashes@;
        let hash: u32 = log_tick(world, buffer, log);
        hashes.push((tick, hash));
        k = k + 1;
        assert(before + (seq![(tick, hash)] + trail(world@, feed, (n - k) as nat)) =~= hashes@ + trail(
            world@,
            feed,
            (n - k) as nat,
        ));
        assert(same_from(*buffer, *old(buffer), world.tick)) by {
            assert forall|t: u32| t >= world.tick implies #[trigger] at_tick(buffer.local@, t)
                == at_tick(old(buffer).local@, t) by {
                assert(at_tick(b.local@, t) == at_tick(old(buffer).local@, t));
            }
            assert forall|t: u32| t >= world.tick implies #[trigger] at_tick(buffer.remote@, t)
                == at_tick(old(buffer).remote@, t) by {
                assert(at_tick(b.remote@, t) == at_tick(old(buffer).remote@, t));
            }
        }
    }
    hashes
}

/// `a - b`, but not below zero.
pub open spec fn up_to(a: u32, b: u32) -> nat {
    if a > b { (a - b) as nat } else { 0 }
}

/// The smaller of two counts.
pub open spec fn fewer(a: nat, b: nat) -> nat {
    if a < b { a } else { b }
}

/// The world after a frame of catching up: a burst of ticks, and back to the match once the
/// target is reached.
pub open spec fn caught_up<S: Scalar>(
    m: WorldModel<S>,
    target: u32,
    feed: spec_fn(u32) -> Seq<GameCommand<S>>,
) -> WorldModel<S> {
    let n = run_ticks(m, feed, fewer(CATCH_UP_BURST as nat, up_to(target, m.tick)));
    if n.tick >= target && !(n.state is GameOver) {
        WorldModel { state: SimState::Playing, ..n }
    } else {
        n
    }
}

/// The hashes of the ticks of a frame of catching up.
pub open spec fn catch_up_trail<S: Scalar>(
    m: WorldModel<S>,
    target: u32,
    feed: spec_fn(u32) -> Seq<GameCommand<S>>,
) -> Seq<(u32, u32)> {
    trail(m, feed, fewer(CATCH_UP_BURST as nat, up_to(target, m.tick)))
}

/// A frame of catching up; gives the hashes of its ticks.
pub fn catch_up<S: Scalar>(
    world: &mut World<S>,
    buffer: &mut CommandBuffer<S>,
    log: &ReplayLog<S>,
) -> (hashes: Vec<(u32, u32)>)
    requires
        old(world).wf(),
        old(world).state == SimState::CatchingUp,
    ensures
        final(world).wf(),
        final(world)@ == caught_up(old(world)@, log.target, log_feed(*log, *old(buffer))),
        hashes@ == catch_up_trail(old(world)@, log.target, log_feed(*log, *old(buffer))),
        same_from(*final(buffer), *old(buffer), final(world).tick),
{
    let left: u32 = if log.target > world.tick { log.target - world.tick } else { 0 };
    let n: u32 = if CATCH_UP_BURST < left { CATCH_UP_BURST } else { left };
    let hashes: Vec<(u32, u32)> = run_log(world, buffer, log, n);
    let over: bool = match world.state {
        SimState::GameOver(_) => true,
        _ => false,
    };
    if world.tick >= log.target && !over {
        world.state = SimState::Playing;
    }
    hashes
}

/// Starts a match over, with everything that belongs to it; the state of the client stays.
pub fn reset_world<S: Scalar>(world: &mut World<S>, buffer: &mut CommandBuffer<S>)
    ensures
        final(world).wf(),
        final(world)@ == opening_spec::<S>(42, old(world).state),
        final(buffer).local@ == Map::<u32, Vec<GameCommand<S>>>::empty(),
        final(buffer).remote@ == Map::<u32, Vec<GameCommand<S>>>::empty(),
{
    let state: SimState = world.state;
    *world = opening(42, state);
    *buffer = CommandBuffer { local: HashMap::new(), remote: HashMap::new() };
}

/// The commands of each tick of a log alone.
pub open spec fn pure_feed<S: Scalar>(log: ReplayLog<S>) -> spec_fn(u32) -> Seq<GameCommand<S>> {
    |t: u32| exec_order(at_tick(log.map@, t))
}

/// The commands of each tick after a jump: one to an earlier tick forgets the buffer.
pub open spec fn feed_after<S: Scalar>(
    m: WorldModel<S>,
    log: ReplayLog<S>,
    buffer: CommandBuffer<S>,
    to: Option<u32>,
) -> spec_fn(u32) -> Seq<GameCommand<S>> {
    match to {
        Some(t) if t < m.tick => pure_feed(log),
        _ => log_feed(log, buffer),
    }
}

/// The world after a jump: back to the start for an earlier tick, then on to the tick.
pub open spec fn sought<S: Scalar>(
    m: WorldModel<S>,
    log: ReplayLog<S>,
    buffer: CommandBuffer<S>,
    to: u32,
) -> WorldModel<S> {
    let end = if log.target < to { log.target } else { to };
    let start = if to < m.tick { opening_spec::<S>(42, m.state) } else { m };
    run_ticks(start, feed_after(m, log, buffer, Some(to)), up_to(end, start.tick))
}

/// What a buffer holds for every tick from `from` on after a jump: nothing after one to an
/// earlier tick, what it held before after any other, or after none.
pub open spec fn held_after<S: Scalar>(
    m: WorldModel<S>,
    before: CommandBuffer<S>,
    after: CommandBuffer<S>,
    to: Option<u32>,
    from: u32,
) -> bool {
    match to {
        Some(t) if t < m.tick => {
            &&& forall|k: u32| k >= from ==> #[trigger] at_tick(after.local@, k).len() == 0
            &&& forall|k: u32| k >= from ==> #[trigger] at_tick(after.remote@, k).len() == 0
        },
        _ => same_from(after, before, from),
    }
}

/// Jumps to a tick.
pub fn seek<S: Scalar>(
    world: &mut World<S>,
    buffer: &mut CommandBuffer<S>,
    log: &ReplayLog<S>,
    to: u32,
)
    requires
        old(world).wf(),
    ensures
        final(world).wf(),
        final(world)@ == sought(old(world)@, *log, *old(buffer), to),
        old(world).tick <= final(world).tick || to < old(world).tick,
        held_after(old(world)@, *old(buffer), *final(buffer), Some(to), final(world).tick),
        forall|t: u32|
            t >= final(world).tick ==> #[trigger] log_feed(*log, *final(buffer))(t) == feed_after(
                old(world)@,
                *log,
                *old(buffer),
                Some(to),
            )(t),
{
    let end: u32 = if log.target < to { log.target } else { to };
    let ghost m = world@;
    let ghost b = *buffer;
    if to < world.tick {
        reset_world(world, buffer);
        let ghost f = log_feed(*log, *buffer);
        let ghost g = pure_feed(*log);
        assert forall|t: u32| #[trigger] f(t) == g(t) by {
            assert(at_tick(buffer.local@, t) + fed(log.map@, buffer.remote@, t) =~= at_tick(
                log.map@,
                t,
            ));
        }
        proof {
            lemma_run_agrees(world@, f, g, end as nat);
        }
        let ghost c = *buffer;
        run_log(world, buffer, log, end);
        assert forall|t: u32| t >= world.tick implies #[trigger] log_feed(*log, *buffer)(t) == feed_after(
            m,
            *log,
            b,
            Some(to),
        )(t) by {
            assert(at_tick(buffer.local@, t) == at_tick(c.local@, t));
            assert(at_tick(buffer.remote@, t) == at_tick(c.remote@, t));
            assert(f(t) == g(t));
        }
    } else {
        let n: u32 = if end > world.tick { end - world.tick } else { 0 };
        run_log(world, buffer, log, n);
        assert forall|t: u32| t >= world.tick implies #[trigger] log_feed(*log, *buffer)(t) == feed_after(
            m,
            *log,
            b,
            Some(to),
        )(t) by {
            assert(at_tick(buffer.local@, t) == at_tick(b.local@, t));
            assert(at_tick(buffer.remote@, t) == at_tick(b.remote@, t));
        }
    }
}

/// Plays on by as many ticks as the speed says; pauses at the end of the log or of the match.
pub fn play_on<S: Scalar>(
    world: &mut World<S>,
    buffer: &mut CommandBuffer<S>,
    log: &ReplayLog<S>,
    control: &mut ReplayControl,
)
    requires
        old(world).wf(),
    ensures
        final(world).wf(),
        old(world).tick <= final(world).tick,
        same_from(*final(buffer), *old(buffer), final(world).tick),
        ({
            let left = up_to(log.target, old(world).tick);
            let n = run_ticks(
                old(world)@,
                log_feed(*log, *old(buffer)),
                fewer(old(control).speed as nat, left),
            );
            if old(control).paused {
                final(world)@ == old(world)@ && *final(control) == *old(control)
            } else {
                &&& final(world)@ == n
                &&& *final(control) == (ReplayControl {
                    paused: old(control).speed > left || n.state is GameOver,
                    ..*old(control)
                })
            }
        }),
{
    if control.paused {
        return;
    }
    let left: u32 = if log.target > world.tick { log.target - world.tick } else { 0 };
    let n: u32 = if control.speed < left { control.speed } else { left };
    run_log(world, buffer, log, n);
    let over: bool = match world.state {
        SimState::GameOver(_) => true,
        _ => false,
    };
    if control.speed > left || over {
        control.paused = true;
    }
}

/// The world at the point where a frame of a player goes on.
pub open spec fn resumed<S: Scalar>(
    m: WorldModel<S>,
    log: ReplayLog<S>,
    buffer: CommandBuffer<S>,
    seek_to: Option<u32>,
) -> WorldModel<S> {
    match seek_to {
        Some(to) => sought(m, log, buffer, to),
        None => m,
    }
}

/// A frame of a player: first a jump, if one is asked for, then on at the set speed.
pub fn drive_recording<S: Scalar>(
    world: &mut World<S>,
    buffer: &mut CommandBuffer<S>,
    log: &ReplayLog<S>,
    control: &mut ReplayControl,
)
    requires
        old(world).wf(),
        old(world).state == SimState::Replaying,
    ensures
        final(world).wf(),
        held_after(
            old(world)@,
            *old(buffer),
            *final(buffer),
            old(control).seek_to,
            final(world).tick,
        ),
        ({
            let s = resumed(old(world)@, *log, *old(buffer), old(control).seek_to);
            let left = up_to(log.target, s.tick);
            let n = run_ticks(
                s,
                feed_after(old(world)@, *log, *old(buffer), old(control).seek_to),
                fewer(old(control).speed as nat, left),
            );
            let paused = ReplayControl { seek_to: None, ..*old(control) };
            if old(control).paused {
                final(world)@ == s && *final(control) == paused
            } else {
                &&& final(world)@ == n
                &&& *final(control) == (ReplayControl {
                    paused: old(control).speed > left || n.state is GameOver,
                    ..paused
                })
            }
        }),
{
    let ghost m = world@;
    let ghost b = *buffer;
    let ghost jump = control.seek_to;
    let ghost g = feed_after(m, *log, b, jump);
    if let Some(to) = control.seek_to {
        control.seek_to = None;
        seek(world, buffer, log, to);
    }
    proof {
        let s = world@;
        let f = log_feed(*log, *buffer);
        let n = fewer(control.speed as nat, up_to(log.target, s.tick));
        assert forall|t: u32| s.tick <= t < s.tick + n implies #[trigger] f(t) == g(t) by {}
        lemma_run_agrees(s, f, g, n);
    }
    let ghost c = *buffer;
    play_on(world, buffer, log, control);
    assert forall|t: u32| t >= world.tick implies #[trigger] at_tick(buffer.local@, t) == at_tick(
        c.local@,
        t,
    ) by {}
    assert forall|t: u32| t >= world.tick implies #[trigger] at_tick(buffer.remote@, t) == at_tick(
        c.remote@,
        t,
    ) by {}
}

/// What a key does to the controls.
#[derive(Clone, Copy, PartialEq, Eq, Structural, Debug)]
pub enum ReplayKey {
    Space,
    /// 1, 2, 4 or 8.
    Speed(u32),
    Forward,
    Back,
}

/// The controls after a key: space pauses and resumes, a speed resumes at that speed, the
/// arrows jump by ten seconds.
pub open spec fn steered(c: ReplayControl, key: ReplayKey, tick: u32) -> ReplayControl {
    match key {
        ReplayKey::Space => ReplayControl { paused: !c.paused, ..c },
        ReplayKey::Speed(s) => ReplayControl { speed: s, paused: false, ..c },
        ReplayKey::Forward => ReplayControl { seek_to: Some((tick + 300) as u32), ..c },
        ReplayKey::Back => ReplayControl {
            seek_to: Some(if tick >= 300 { (tick - 300) as u32 } else { 0 }),
            ..c
        },
    }
}

/// Turns a key into controls; only a recording has them.
pub fn replay_input(state: SimState, control: &mut ReplayControl, key: ReplayKey, tick: u32)
    requires
        tick <= u32::MAX - 300,
    ensures
        *final(control) == if state == SimState::Replaying {
            steered(*old(control), key, tick)
        } else {
            *old(control)
        },
{
    if state != SimState::Replaying {
        return;
    }
    match key {
        ReplayKey::Space => {
            control.paused = !control.paused;
        },
        ReplayKey::Speed(s) => {
            control.speed = s;
            control.paused = false;
        },
        ReplayKey::Forward => {
            control.seek_to = Some(tick + 300);
        },
        ReplayKey::Back => {
            control.seek_to = Some(if tick >= 300 { tick - 300 } else { 0 });
        },
    }
}

/// Runs a frame of a client that catches up or plays a recording; others have none. Gives the
/// hashes of the ticks of a catch-up; a recording has nobody to compare with.
pub fn drive_replay<S: Scalar>(
    world: &mut World<S>,
    buffer: &mut CommandBuffer<S>,
    log: &ReplayLog<S>,
    control: &mut ReplayControl,
) -> (hashes: Vec<(u32, u32)>)
    requires
        old(world).wf(),
    ensures
        final(world).wf(),
        old(world).state == SimState::CatchingUp ==> final(world)@ == caught_up(
            old(world)@,
            log.target,
            log_feed(*log, *old(buffer)),
        ) && *final(control) == *old(control) && same_from(
            *final(buffer),
            *old(buffer),
            final(world).tick,
        ),
        hashes@ == (if old(world).state == SimState::CatchingUp {
            catch_up_trail(old(world)@, log.target, log_feed(*log, *old(buffer)))
        } else {
            Seq::empty()
        }),
        old(world).state == SimState::Replaying ==> {
            let s = resumed(old(world)@, *log, *old(buffer), old(control).seek_to);
            let left = up_to(log.target, s.tick);
            let n = run_ticks(
                s,
                feed_after(old(world)@, *log, *old(buffer), old(control).seek_to),
                fewer(old(control).speed as nat, left),
            );
            let paused = ReplayControl { seek_to: None, ..*old(control) };
            &&& held_after(
                old(world)@,
                *old(buffer),
                *final(buffer),
                old(control).seek_to,
                final(world).tick,
            )
            &&& if old(control).paused {
                final(world)@ == s && *final(control) == paused
            } else {
                &&& final(world)@ == n
                &&& *final(control) == (ReplayControl {
                    paused: old(control).speed > left || n.state is GameOver,
                    ..paused
                })
            }
        },
        old(world).state != SimState::CatchingUp && old(world).state != SimState::Replaying
            ==> *final(world) == *old(world) && *final(buffer) == *old(buffer) && *final(control) == *old(
            control,
        ),
{
    match world.state {
        SimState::CatchingUp => catch_up(world, buffer, log),
        SimState::Replaying => {
            drive_recording(world, buffer, log, control);
            Vec::new()
        },
        _ => Vec::new(),
    }
}

/// Runs one tick of a match if it may run.
pub fn drive_sim<S: Scalar>(
    world: &mut World<S>,
    buffer: &mut CommandBuffer<S>,
    net: &Option<Session>,
) -> (ran: bool)
    requires
        old(world).wf(),
        old(world).tick < u32::MAX,
    ensures
        final(world).wf(),
        ran == sim_ready_spec(
            old(world).state,
            old(buffer).remote@.contains_key(old(world).tick),
            old(world).tick,
            *net,
        ),
        if ran {
            &&& final(world)@ == tick_spec(old(world)@, buffered(*old(buffer))(old(world).tick))
            &&& final(buffer).local@ == old(buffer).local@.remove(old(world).tick)
            &&& final(buffer).remote@ == old(buffer).remote@.remove(old(world).tick)
        } else {
            *final(world) == *old(world) && *final(buffer) == *old(buffer)
        },
{
    if !sim_ready(world.state, buffer, world.tick, net) {
        return false;
    }
    let cmds: Vec<GameCommand<S>> = take_commands(buffer, world.tick);
    sim_tick(world, &cmds);
    true
}

/// The commands that were carried out in a tick, by the log of a match.
pub open spec fn recorded<S: Scalar>(log: Seq<(u32, GameCommand<S>)>, tick: u32) -> Seq<GameCommand<S>>
    decreases log.len(),
{
    if log.len() == 0 {
        Seq::empty()
    } else {
        let rest = recorded(log.drop_last(), tick);
        if log.last().0 == tick { rest.push(log.last().1) } else { rest }
    }
}

/// Every entry of a log is of a tick before `tick`.
pub open spec fn before_tick<S: Scalar>(log: Seq<(u32, GameCommand<S>)>, tick: u32) -> bool {
    forall|i: int| 0 <= i < log.len() ==> (#[trigger] log[i]).0 < tick
}

proof fn lemma_recorded_add<S: Scalar>(
    log: Seq<(u32, GameCommand<S>)>,
    cmds: Seq<GameCommand<S>>,
    now: u32,
    tick: u32,
)
    ensures
        recorded(log + cmds.map_values(|c: GameCommand<S>| (now, c)), tick) == recorded(log, tick) + (
        if now == tick { cmds } else { Seq::empty() }),
    decreases cmds.len(),
{
    let f = |c: GameCommand<S>| (now, c);
    let all = log + cmds.map_values(f);
    if cmds.len() == 0 {
        assert(all =~= log);
        assert(recorded(all, tick) =~= recorded(log, tick) + (if now == tick {
            cmds
        } else {
            Seq::empty()
        }));
    } else {
        lemma_recorded_add(log, cmds.drop_last(), now, tick);
        assert(all.drop_last() =~= log + cmds.drop_last().map_values(f));
        assert(all.last() == (now, cmds.last()));
        assert(recorded(all, tick) =~= recorded(log, tick) + (if now == tick {
            cmds
        } else {
            Seq::empty()
        }));
    }
}

proof fn lemma_recorded_none<S: Scalar>(log: Seq<(u32, GameCommand<S>)>, tick: u32)
    requires
        before_tick(log, tick),
    ensures
        recorded(log, tick) == Seq::<GameCommand<S>>::empty(),
    decreases log.len(),
{
    if log.len() > 0 {
        assert(log.last() == log[log.len() - 1]);
        assert(before_tick(log.drop_last(), tick)) by {
            assert forall|i: int| 0 <= i < log.drop_last().len() implies (
            #[trigger] log.drop_last()[i]).0 < tick by {
                assert(log.drop_last()[i] == log[i]);
            }
        }
        lemma_recorded_none(log.drop_last(), tick);
    }
}

proof fn lemma_log_before<S: Scalar>(m: WorldModel<S>, cmds: Seq<GameCommand<S>>)
    requires
        m.tick < u32::MAX,
        before_tick(m.log, m.tick),
    ensures
        before_tick(tick_spec(m, cmds).log, tick_spec(m, cmds).tick),
{
    lemma_tick_counts(m, cmds);
    let after = tick_spec(m, cmds).log;
    assert forall|i: int| 0 <= i < after.len() implies (#[trigger] after[i]).0 < m.tick + 1 by {
        if i < m.log.len() {
            assert(after[i] == m.log[i]);
        } else {
            assert(after[i].0 == m.tick);
        }
    }
}

/// What was recorded of earlier ticks stays recorded.
proof fn lemma_records_last<S: Scalar>(
    m: WorldModel<S>,
    feed: spec_fn(u32) -> Seq<GameCommand<S>>,
    n: nat,
    t: u32,
)
    requires
        m.tick + n <= u32::MAX,
        t < m.tick,
    ensures
        recorded(run_ticks(m, feed, n).log, t) == recorded(m.log, t),
    decreases n,
{
    if n > 0 && !(m.state is GameOver) {
        let next = tick_spec(m, feed(m.tick));
        lemma_tick_counts(m, feed(m.tick));
        lemma_recorded_add(m.log, feed(m.tick), m.tick, t);
        lemma_records_last(next, feed, (n - 1) as nat, t);
        assert(recorded(m.log, t) + Seq::<GameCommand<S>>::empty() =~= recorded(m.log, t));
    }
}

/// The record of a run holds what each of its ticks was fed.
proof fn lemma_recorded_is_fed<S: Scalar>(
    m: WorldModel<S>,
    feed: spec_fn(u32) -> Seq<GameCommand<S>>,
    n: nat,
)
    requires
        m.tick + n <= u32::MAX,
        before_tick(m.log, m.tick),
        n > 0,
        !(m.state is GameOver),
    ensures
        recorded(run_ticks(m, feed, n).log, m.tick) == feed(m.tick),
{
    let next = tick_spec(m, feed(m.tick));
    lemma_tick_counts(m, feed(m.tick));
    lemma_recorded_add(m.log, feed(m.tick), m.tick, m.tick);
    lemma_recorded_none(m.log, m.tick);
    assert(recorded(next.log, m.tick) =~= feed(m.tick));
    lemma_records_last(next, feed, (n - 1) as nat, m.tick);
}

/// A recording reproduces its match: running from the same start with the commands that the
/// log of a run holds for each tick leads to the same world, log and all.
pub proof fn recording_reproduces<S: Scalar>(
    m: WorldModel<S>,
    feed: spec_fn(u32) -> Seq<GameCommand<S>>,
    n: nat,
)
    requires
        m.tick + n <= u32::MAX,
        before_tick(m.log, m.tick),
        forall|t: u32| exec_order(#[trigger] feed(t)) == feed(t),
    ensures
        ({
            let log = run_ticks(m, feed, n).log;
            run_ticks(m, |t: u32| exec_order(recorded(log, t)), n) == run_ticks(m, feed, n)
        }),
{
    let log = run_ticks(m, feed, n).log;
    lemma_replay_from(m, feed, n, log);
}

proof fn lemma_replay_from<S: Scalar>(
    m: WorldModel<S>,
    feed: spec_fn(u32) -> Seq<GameCommand<S>>,
    n: nat,
    log: Seq<(u32, GameCommand<S>)>,
)
    requires
        m.tick + n <= u32::MAX,
        before_tick(m.log, m.tick),
        forall|t: u32| exec_order(#[trigger] feed(t)) == feed(t),
        log == run_ticks(m, feed, n).log,
    ensures
        run_ticks(m, |t: u32| exec_order(recorded(log, t)), n) == run_ticks(m, feed, n),
    decreases n,
{
    let again = |t: u32| exec_order(recorded(log, t));
    if n > 0 && !(m.state is GameOver) {
        lemma_recorded_is_fed(m, feed, n);
        assert(again(m.tick) == feed(m.tick));
        lemma_log_before(m, feed(m.tick));
        lemma_tick_counts(m, feed(m.tick));
        lemma_replay_from(tick_spec(m, feed(m.tick)), feed, (n - 1) as nat, log);
    }
}

/// Two runs of the same commands from the same start are the same.
pub proof fn runs_repeat<S: Scalar>(
    m: WorldModel<S>,
    a: spec_fn(u32) -> Seq<GameCommand<S>>,
    b: spec_fn(u32) -> Seq<GameCommand<S>>,
    n: nat,
)
    requires
        m.tick + n <= u32::MAX,
        forall|t: u32| m.tick <= t < m.tick + n ==> #[trigger] a(t) == b(t),
    ensures
        run_ticks(m, a, n) == run_ticks(m, b, n),
{
    lemma_run_agrees(m, a, b, n);
}

/// The commands of each tick that peers see when one calls its own what the other calls remote.
pub proof fn peers_agree<S: Scalar>(
    m: WorldModel<S>,
    blue: Map<u32, Vec<GameCommand<S>>>,
    red: Map<u32, Vec<GameCommand<S>>>,
    n: nat,
)
    requires
        m.tick + n <= u32::MAX,
        forall|t: u32, i: int|
            0 <= i < at_tick(blue, t).len() ==> (#[trigger] at_tick(blue, t)[i]).faction()
                == Faction::Player,
        forall|t: u32, i: int|
            0 <= i < at_tick(red, t).len() ==> (#[trigger] at_tick(red, t)[i]).faction()
                == Faction::Enemy,
    ensures
        run_ticks(m, |t: u32| exec_order(at_tick(blue, t) + at_tick(red, t)), n) == run_ticks(
            m,
            |t: u32| exec_order(at_tick(red, t) + at_tick(blue, t)),
            n,
        ),
{
    let a = |t: u32| exec_order(at_tick(blue, t) + at_tick(red, t));
    let b = |t: u32| exec_order(at_tick(red, t) + at_tick(blue, t));
    assert forall|t: u32| m.tick <= t < m.tick + n implies #[trigger] a(t) == b(t) by {
        lockstep_order(at_tick(blue, t), at_tick(red, t), Faction::Player);
    }
    lemma_run_agrees(m, a, b, n);
}

} // verus!
