//! What catching up and playing recordings come to.

use vstd::prelude::*;

use crate::arena::opening_spec;
use crate::components::{CommandBuffer, GameCommand};
use crate::match_flow::SimState;
use crate::net::state_hash_spec;
use crate::replay::{
    caught_up, log_feed, pure_feed, recorded, resumed, sought, steered, trail, ReplayControl,
    ReplayKey, ReplayLog,
};
use crate::scalar::Scalar;
use crate::sim::{at_tick, exec_order, run_ticks, tick_spec};
use crate::world::WorldModel;

verus! {

/// A frame of catching up runs no more than 600 ticks and none beyond the target; the match goes on as
/// soon as the target is reached, unless it is over.
pub proof fn catching_up_reaches_its_target<S: Scalar>(m: WorldModel<S>, target: u32, feed: spec_fn(u32) -> Seq<GameCommand<S>>)
    ensures
        ({
            let left = if target > m.tick { target - m.tick } else { 0 };
            let n = if left < 600 { left } else { 600 };
            let (run, after) = (run_ticks(m, feed, n as nat), caught_up(m, target, feed));
            &&& run.state is GameOver ==> after == run
            &&& !(run.state is GameOver) && run.tick >= target ==> after == (WorldModel { state: SimState::Playing, ..run })
            &&& run.tick < target ==> after == run
        }),
{
}

/// The hashes of a run are those of the world after each of its ticks, under the number of the tick.
pub proof fn trails_follow_the_run<S: Scalar>(m: WorldModel<S>, feed: spec_fn(u32) -> Seq<GameCommand<S>>, n: nat)
    ensures
        ({
            let next = tick_spec(m, feed(m.tick));
            &&& trail(m, feed, 0).len() == 0
            &&& m.state is GameOver ==> trail(m, feed, n).len() == 0
            &&& !(m.state is GameOver) ==> trail(m, feed, n + 1) == seq![(m.tick, state_hash_spec(next))] + trail(next, feed, n)
        }),
{
}

/// A log takes the place of what the opponent sent, tick by tick; where it is silent, that counts. The
/// own commands count in any case.
pub proof fn logs_come_first<S: Scalar>(log: ReplayLog<S>, buffer: CommandBuffer<S>, t: u32)
    ensures
        at_tick(log.map@, t).len() > 0 ==> log_feed(log, buffer)(t) == exec_order(
            at_tick(buffer.local@, t) + at_tick(log.map@, t),
        ),
        at_tick(log.map@, t).len() == 0 ==> log_feed(log, buffer)(t) == exec_order(
            at_tick(buffer.local@, t) + at_tick(buffer.remote@, t),
        ),
{
}

/// A jump forward runs on to the tick, but not beyond the end of the log; one back starts the match
/// over and runs to the tick by the log alone. Without a jump the world stays.
pub proof fn jumps_land_on_their_tick<S: Scalar>(m: WorldModel<S>, log: ReplayLog<S>, buffer: CommandBuffer<S>, to: u32)
    ensures
        ({
            let end = if to < log.target { to } else { log.target };
            &&& resumed(m, log, buffer, None) == m
            &&& resumed(m, log, buffer, Some(to)) == sought(m, log, buffer, to)
            &&& to >= m.tick && end >= m.tick ==> sought(m, log, buffer, to) == run_ticks(
                m,
                log_feed(log, buffer),
                (end - m.tick) as nat,
            )
            &&& to >= m.tick && end < m.tick ==> sought(m, log, buffer, to) == m
            &&& to < m.tick ==> sought(m, log, buffer, to) == run_ticks(
                opening_spec::<S>(42, m.state),
                |t: u32| exec_order(at_tick(log.map@, t)),
                end as nat,
            )
        }),
{
    assert(opening_spec::<S>(42, m.state).tick == 0);
    assert(pure_feed(log) =~= (|t: u32| exec_order(at_tick(log.map@, t))));
    if !(to < m.tick) && (if to < log.target { to } else { log.target }) < m.tick {
        assert(run_ticks(m, log_feed(log, buffer), 0) == m);
    }
}

/// Keys: space pauses and resumes, a speed is set and lets it run, the arrows jump by ten seconds, not
/// below the start; nothing else changes.
pub proof fn keys_steer_the_player(c: ReplayControl, speed: u32, tick: u32)
    requires
        tick + 300 <= u32::MAX,
    ensures
        steered(c, ReplayKey::Space, tick) == (ReplayControl { paused: !c.paused, ..c }),
        steered(steered(c, ReplayKey::Space, tick), ReplayKey::Space, tick) == c,
        steered(c, ReplayKey::Speed(speed), tick) == (ReplayControl { paused: false, speed, seek_to: c.seek_to }),
        steered(c, ReplayKey::Forward, tick).seek_to matches Some(t) && t == tick + 300,
        steered(c, ReplayKey::Back, tick).seek_to matches Some(t) && t == (if tick >= 300 { tick - 300 } else { 0 }),
        steered(c, ReplayKey::Forward, tick).paused == c.paused && steered(c, ReplayKey::Forward, tick).speed == c.speed,
        steered(c, ReplayKey::Back, tick).paused == c.paused && steered(c, ReplayKey::Back, tick).speed == c.speed,
{
}

/// The commands of a tick in a log are those that were entered under its number, in their order.
pub proof fn logs_are_read_by_tick<S: Scalar>(log: Seq<(u32, GameCommand<S>)>, t: u32)
    ensures
        recorded(log, t) == log.filter(|x: (u32, GameCommand<S>)| x.0 == t).map_values(|x: (u32, GameCommand<S>)| x.1),
    decreases log.len(),
{
    reveal(Seq::filter);
    let f = |x: (u32, GameCommand<S>)| x.0 == t;
    let g = |x: (u32, GameCommand<S>)| x.1;
    if log.len() > 0 {
        logs_are_read_by_tick(log.drop_last(), t);
        let rest = log.drop_last().filter(f);
        assert(log.filter(f) == (if f(log.last()) { rest.push(log.last()) } else { rest }));
        assert(rest.push(log.last()).map_values(g) =~= rest.map_values(g).push(log.last().1));
    } else {
        assert(log.filter(f) =~= Seq::empty());
        assert(recorded(log, t) =~= log.filter(f).map_values(g));
    }
}

/// A player starts running at normal speed.
pub proof fn players_start_running()
    ensures
        !ReplayControl::new().paused,
        ReplayControl::new().speed == 1,
        ReplayControl::new().seek_to.is_none(),
{
}

} // verus!
