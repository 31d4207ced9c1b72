//! Laws of reproduction: whoever runs the same commands from the same start gets the same match,
//! be it live, in a catch-up or in a recording.

use vstd::prelude::*;

use crate::arena::opening_spec;
use crate::cards::{tower_snaps_spec, TowerSnap};
use crate::components::{CommandBuffer, Faction, GameCommand};
use crate::match_flow::{can_end, SimState};
use crate::net::state_hash_spec;
use crate::replay::{
    before_tick, fed, feed_after, log_feed, pure_feed, recorded, recording_reproduces, sought, ReplayLog,
};
use crate::scalar::Scalar;
use crate::sim::{
    all_commanded, at_tick, exec_order, fought, lemma_run_agrees, lemma_tick_counts, lockstep_order, prepared,
    run_ticks, tick_spec, worked,
};
use crate::world::WorldModel;

verus! {

/// The same world in another mode.
pub open spec fn in_mode<S: Scalar>(m: WorldModel<S>, mode: SimState) -> WorldModel<S> {
    WorldModel { state: mode, ..m }
}

/// A world as it looks in another mode: a match that is over is so in every mode.
pub open spec fn seen_in<S: Scalar>(m: WorldModel<S>, mode: SimState) -> WorldModel<S> {
    if m.state is GameOver { m } else { in_mode(m, mode) }
}

proof fn lemma_commands_in_mode<S: Scalar>(
    m: WorldModel<S>,
    cmds: Seq<GameCommand<S>>,
    towers: Seq<TowerSnap<S>>,
    mode: SimState,
)
    ensures
        all_commanded(in_mode(m, mode), cmds, towers) == in_mode(all_commanded(m, cmds, towers), mode),
        all_commanded(m, cmds, towers).state == m.state,
    decreases cmds.len(),
{
    if cmds.len() > 0 {
        lemma_commands_in_mode(m, cmds.drop_last(), towers, mode);
    }
}

proof fn lemma_tick_in_mode<S: Scalar>(m: WorldModel<S>, cmds: Seq<GameCommand<S>>, mode: SimState)
    requires
        can_end(m.state),
        can_end(mode),
    ensures
        tick_spec(in_mode(m, mode), cmds) == seen_in(tick_spec(m, cmds), mode),
        tick_spec(m, cmds).state is GameOver || tick_spec(m, cmds).state == m.state,
{
    reveal(tick_spec);
    let towers = tower_snaps_spec(m.units);
    lemma_commands_in_mode(m, cmds, towers, mode);
    let a = all_commanded(m, cmds, towers);
    assert(prepared(in_mode(a, mode)) == in_mode(prepared(a), mode));
    assert(fought(in_mode(prepared(a), mode)) == in_mode(fought(prepared(a)), mode));
    assert(worked(in_mode(fought(prepared(a)), mode)) == in_mode(worked(fought(prepared(a))), mode));
}

/// A match takes the same course in every mode.
pub proof fn modes_play_alike<S: Scalar>(
    m: WorldModel<S>,
    feed: spec_fn(u32) -> Seq<GameCommand<S>>,
    n: nat,
    mode: SimState,
)
    requires
        can_end(m.state),
        can_end(mode),
    ensures
        run_ticks(in_mode(m, mode), feed, n) == seen_in(run_ticks(m, feed, n), mode),
        run_ticks(m, feed, n).state is GameOver || run_ticks(m, feed, n).state == m.state,
    decreases n,
{
    if n > 0 {
        let next = tick_spec(m, feed(m.tick));
        lemma_tick_in_mode(m, feed(m.tick), mode);
        if !(next.state is GameOver) {
            modes_play_alike(next, feed, (n - 1) as nat, mode);
        }
    }
}

/// A recording plays its match: running in another mode with what the log holds for each tick
/// leads to the same world, and so to the same hash.
pub proof fn recording_plays_its_match<S: Scalar>(
    m: WorldModel<S>,
    feed: spec_fn(u32) -> Seq<GameCommand<S>>,
    n: nat,
    mode: SimState,
)
    requires
        m.tick + n <= u32::MAX,
        before_tick(m.log, m.tick),
        forall|t: u32| exec_order(#[trigger] feed(t)) == feed(t),
        can_end(m.state),
        can_end(mode),
    ensures
        ({
            let played = run_ticks(m, feed, n);
            let again = run_ticks(
                in_mode(m, mode),
                |t: u32| exec_order(recorded(played.log, t)),
                n,
            );
            again == seen_in(played, mode) && state_hash_spec(again) == state_hash_spec(played)
        }),
{
    let log = run_ticks(m, feed, n).log;
    recording_reproduces(m, feed, n);
    modes_play_alike(m, |t: u32| exec_order(recorded(log, t)), n, mode);
}

/// One who catches up by the log of the relay ends where the others are: the log holds the
/// commands of both sides for each tick, in the order in which they came.
pub proof fn catch_up_agrees<S: Scalar>(
    m: WorldModel<S>,
    blue: Map<u32, Vec<GameCommand<S>>>,
    red: Map<u32, Vec<GameCommand<S>>>,
    log: Map<u32, Vec<GameCommand<S>>>,
    n: nat,
)
    requires
        m.tick + n <= u32::MAX,
        can_end(m.state),
        forall|t: u32, i: int|
            0 <= i < at_tick(blue, t).len() ==> (#[trigger] at_tick(blue, t)[i]).faction()
                == Faction::Player,
        forall|t: u32, i: int|
            0 <= i < at_tick(red, t).len() ==> (#[trigger] at_tick(red, t)[i]).faction()
                == Faction::Enemy,
        forall|t: u32|
            #[trigger] at_tick(log, t) == at_tick(blue, t) + at_tick(red, t) || at_tick(log, t)
                == at_tick(red, t) + at_tick(blue, t),
    ensures
        run_ticks(in_mode(m, SimState::CatchingUp), |t: u32| exec_order(at_tick(log, t)), n) == seen_in(
            run_ticks(m, |t: u32| exec_order(at_tick(blue, t) + at_tick(red, t)), n),
            SimState::CatchingUp,
        ),
{
    let a = |t: u32| exec_order(at_tick(log, t));
    let b = |t: u32| exec_order(at_tick(blue, t) + at_tick(red, t));
    assert forall|t: u32| m.tick <= t < m.tick + n implies #[trigger] a(t) == b(t) by {
        lockstep_order(at_tick(blue, t), at_tick(red, t), Faction::Player);
        assert(at_tick(log, t) == at_tick(log, t));
    }
    lemma_run_agrees(m, a, b, n);
    modes_play_alike(m, a, n, SimState::CatchingUp);
}

/// Ticks add up.
pub proof fn runs_add_up<S: Scalar>(
    m: WorldModel<S>,
    feed: spec_fn(u32) -> Seq<GameCommand<S>>,
    a: nat,
    b: nat,
)
    ensures
        run_ticks(run_ticks(m, feed, a), feed, b) == run_ticks(m, feed, a + b),
    decreases a,
{
    if a > 0 && !(m.state is GameOver) {
        runs_add_up(tick_spec(m, feed(m.tick)), feed, (a - 1) as nat, b);
    }
}

proof fn lemma_run_counts<S: Scalar>(
    m: WorldModel<S>,
    feed: spec_fn(u32) -> Seq<GameCommand<S>>,
    n: nat,
)
    requires
        m.tick + n <= u32::MAX,
        !(run_ticks(m, feed, n).state is GameOver),
    ensures
        run_ticks(m, feed, n).tick == m.tick + n,
    decreases n,
{
    if n > 0 && !(m.state is GameOver) {
        lemma_tick_counts(m, feed(m.tick));
        lemma_run_counts(tick_spec(m, feed(m.tick)), feed, (n - 1) as nat);
    }
}

/// To jump in a recording is to play it from the start: wherever it stands, a jump leads to where
/// playing that long would have led.
pub proof fn jumping_is_playing<S: Scalar>(log: ReplayLog<S>, buffer: CommandBuffer<S>, played: nat, to: u32)
    requires
        played <= log.target,
        run_ticks(opening_spec::<S>(42, SimState::Replaying), pure_feed(log), played).state
            == SimState::Replaying,
        forall|t: u32| t >= played ==> #[trigger] at_tick(buffer.local@, t).len() == 0,
        forall|t: u32| t >= played ==> #[trigger] at_tick(buffer.remote@, t).len() == 0,
    ensures
        ({
            let start = opening_spec::<S>(42, SimState::Replaying);
            let m = run_ticks(start, pure_feed(log), played);
            sought(m, log, buffer, to) == run_ticks(
                start,
                pure_feed(log),
                if log.target < to { log.target as nat } else { to as nat },
            )
        }),
{
    let start = opening_spec::<S>(42, SimState::Replaying);
    let f = pure_feed(log);
    let m = run_ticks(start, f, played);
    let end = if log.target < to { log.target } else { to };
    lemma_run_counts(start, f, played);
    assert(m.tick == played);
    if to >= m.tick {
        let g = log_feed(log, buffer);
        let n = (end - m.tick) as nat;
        assert(feed_after(m, log, buffer, Some(to)) == g);
        assert forall|t: u32| m.tick <= t < m.tick + n implies #[trigger] g(t) == f(t) by {
            assert(at_tick(buffer.local@, t).len() == 0);
            assert(at_tick(buffer.remote@, t).len() == 0);
            assert(g(t) == f(t)) by {
                assert(at_tick(buffer.local@, t) + fed(log.map@, buffer.remote@, t) =~= at_tick(
                    log.map@,
                    t,
                ));
            }
        }
        lemma_run_agrees(m, g, f, n);
        runs_add_up(start, f, played, n);
    }
}

} // verus!
