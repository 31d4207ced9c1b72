//! A client at work: what a tick of a match and a frame of a catch-up do, and what is sent.

use vstd::prelude::*;

use crate::components::GameCommand;
use crate::constants::INPUT_DELAY;
use crate::match_flow::SimState;
use crate::net::{
    collect_inputs, keep_hash, kept, notify_game_over, sim_ready, sim_ready_spec, state_hash,
    state_hash_spec, Client, Session,
};
use crate::protocol::{to_wires_spec, ClientMsg, ClientMsgModel, CommandWire};
use crate::replay::{
    catch_up_trail, caught_up, drive_replay, drive_sim, feed_after, fewer, held_after, log_feed,
    resumed, same_from, up_to, ReplayControl,
};
use crate::scalar::Scalar;
use crate::sim::{at_tick, buffered, run_ticks, tick_spec};
use crate::world::WorldModel;

verus! {

/// Messages as mathematical values.
pub open spec fn said<S: Scalar>(msgs: Seq<ClientMsg<S>>) -> Seq<ClientMsgModel<S>> {
    msgs.map_values(|m: ClientMsg<S>| m@)
}

/// What is sent in a tick: the stamped commands, the end of the match if this tick brought it,
/// and the hash.
pub open spec fn sent<S: Scalar>(
    tick: u32,
    cmds: Seq<GameCommand<S>>,
    ended: bool,
    hash: u32,
) -> Seq<ClientMsgModel<S>> {
    let inputs = ClientMsgModel::Commands {
        tick: (tick + INPUT_DELAY) as u32,
        cmds: to_wires_spec(cmds),
    };
    let end = if ended { seq![ClientMsgModel::GameOver { end_tick: tick }] } else { Seq::empty() };
    seq![inputs] + end + seq![ClientMsgModel::Hash { tick, hash }]
}

/// The hashes with those of a run.
pub open spec fn kept_all(hashes: Map<u32, u32>, run: Seq<(u32, u32)>) -> Map<u32, u32>
    decreases run.len(),
{
    if run.len() == 0 {
        hashes
    } else {
        kept(kept_all(hashes, run.drop_last()), run.last().0, run.last().1)
    }
}

/// The messages that tell the hashes of a run.
pub open spec fn told<S: Scalar>(run: Seq<(u32, u32)>) -> Seq<ClientMsgModel<S>> {
    run.map_values(|x: (u32, u32)| ClientMsgModel::<S>::Hash { tick: x.0, hash: x.1 })
}

/// The messages of a catch-up: the hash of every tick, and before the last one the end of the
/// match, if it came.
pub open spec fn told_with_end<S: Scalar>(run: Seq<(u32, u32)>, ended: bool) -> Seq<ClientMsgModel<S>> {
    if ended && run.len() > 0 {
        told::<S>(run.drop_last()) + seq![
            ClientMsgModel::GameOver { end_tick: run.last().0 },
            ClientMsgModel::Hash { tick: run.last().0, hash: run.last().1 },
        ]
    } else {
        told(run)
    }
}

impl<S: Scalar> Client<S> {
    /// The session, if there is a relay.
    pub open spec fn seat(&self, online: bool) -> Option<Session> {
        if online { Some(self.session) } else { None }
    }

    /// Whether the next tick may run.
    pub open spec fn ready(&self, online: bool) -> bool {
        sim_ready_spec(
            self.world.state,
            self.buffer.remote@.contains_key(self.world.tick),
            self.world.tick,
            self.seat(online),
        )
    }

    /// The match one tick later, if it runs.
    pub open spec fn next_world(&self) -> WorldModel<S> {
        tick_spec(self.world@, buffered(self.buffer)(self.world.tick))
    }

    /// Runs one tick of a match if it may run: stamps the clicks, plays the tick, keeps its hash,
    /// and gives what is to be sent. `reported` tells whether the end was reported before.
    pub fn tick(
        &mut self,
        pending: &mut Vec<GameCommand<S>>,
        online: bool,
        reported: &mut bool,
    ) -> (out: Vec<ClientMsg<S>>)
        requires
            old(self).world.wf(),
            old(self).world.tick + INPUT_DELAY <= u32::MAX,
        ensures
            final(self).world.wf(),
            final(self).session == old(self).session,
            final(self).replay == old(self).replay,
            if old(self).ready(online) {
                let t = old(self).world.tick;
                let stamp = (t + INPUT_DELAY) as u32;
                let w = old(self).next_world();
                &&& final(self).world@ == w
                &&& final(self).hashes@ == kept(old(self).hashes@, t, state_hash_spec(w))
                &&& final(self).buffer.remote@ == old(self).buffer.remote@.remove(t)
                &&& at_tick(final(self).buffer.local@, stamp) == at_tick(
                    old(self).buffer.local@,
                    stamp,
                ) + old(pending)@
                &&& forall|k: u32|
                    k != t && k != stamp ==> #[trigger] at_tick(final(self).buffer.local@, k)
                        == at_tick(old(self).buffer.local@, k)
                &&& at_tick(final(self).buffer.local@, t).len() == 0
                &&& final(pending)@.len() == 0
                &&& *final(reported) == (*old(reported) || w.state is GameOver)
                &&& said(out@) == (if online {
                    sent(
                        t,
                        old(pending)@,
                        !*old(reported) && w.state is GameOver,
                        state_hash_spec(w),
                    )
                } else {
                    Seq::empty()
                })
            } else {
                &&& *final(self) == *old(self)
                &&& *final(pending) == *old(pending)
                &&& *final(reported) == *old(reported)
                &&& out@.len() == 0
            },
    {
        let mut out: Vec<ClientMsg<S>> = Vec::new();
        let net: Option<Session> = if online { Some(self.session) } else { None };
        let tick: u32 = self.world.tick;
        if !sim_ready(self.world.state, &self.buffer, tick, &net) {
            return out;
        }
        let ghost cmds = pending@;
        let inputs: Option<(u32, Vec<CommandWire<S>>)> = collect_inputs(
            self.world.state,
            pending,
            &mut self.buffer,
            tick,
        );
        let ghost mid = self.buffer;
        assert(at_tick(mid.local@, tick) == at_tick(old(self).buffer.local@, tick));
        drive_sim(&mut self.world, &mut self.buffer, &net);
        assert(self.world@ == old(self).next_world());
        let hash: u32 = state_hash(&self.world);
        let ended: bool = notify_game_over(self.world.state, reported);
        keep_hash(&mut self.hashes, tick, hash);
        assert forall|k: u32| k != tick implies #[trigger] at_tick(self.buffer.local@, k) == at_tick(
            mid.local@,
            k,
        ) by {}
        if online {
            if let Some((stamp, wires)) = inputs {
                out.push(ClientMsg::Commands { tick: stamp, cmds: wires });
            }
            if ended {
                out.push(ClientMsg::GameOver { end_tick: tick });
            }
            out.push(ClientMsg::Hash { tick, hash });
        }
        assert(online ==> said(out@) =~= sent(tick, cmds, ended, hash));
        assert(!online ==> said(out@) =~= Seq::<ClientMsgModel<S>>::empty());
        out
    }

    /// Runs a frame of a catch-up or of a recording, and gives what is to be sent: only a
    /// catch-up sends.
    pub fn frame(&mut self, control: &mut ReplayControl, reported: &mut bool) -> (out: Vec<ClientMsg<S>>)
        requires
            old(self).world.wf(),
        ensures
            final(self).world.wf(),
            final(self).session == old(self).session,
            final(self).replay == old(self).replay,
            match old(self).world.state {
                SimState::CatchingUp => {
                    let feed = log_feed(old(self).replay, old(self).buffer);
                    let run = catch_up_trail(old(self).world@, old(self).replay.target, feed);
                    let w = caught_up(old(self).world@, old(self).replay.target, feed);
                    &&& final(self).world@ == w
                    &&& same_from(final(self).buffer, old(self).buffer, w.tick)
                    &&& *final(control) == *old(control)
                    &&& final(self).hashes@ == kept_all(old(self).hashes@, run)
                    &&& *final(reported) == (*old(reported) || w.state is GameOver)
                    &&& said(out@) == told_with_end::<S>(
                        run,
                        !*old(reported) && w.state is GameOver,
                    )
                },
                SimState::Replaying => {
                    let to = old(control).seek_to;
                    let (log, buffer) = (old(self).replay, old(self).buffer);
                    let s = resumed(old(self).world@, log, buffer, to);
                    let left = up_to(log.target, s.tick);
                    let n = run_ticks(
                        s,
                        feed_after(old(self).world@, log, buffer, to),
                        fewer(old(control).speed as nat, left),
                    );
                    let still = ReplayControl { seek_to: None, ..*old(control) };
                    &&& final(self).world@ == (if old(control).paused { s } else { n })
                    &&& held_after(
                        old(self).world@,
                        buffer,
                        final(self).buffer,
                        to,
                        final(self).world.tick,
                    )
                    &&& *final(control) == (if old(control).paused {
                        still
                    } else {
                        ReplayControl {
                            paused: old(control).speed > left || n.state is GameOver,
                            ..still
                        }
                    })
                    &&& final(self).hashes == old(self).hashes
                    &&& *final(reported) == *old(reported)
                    &&& out@.len() == 0
                },
                _ => {
                    &&& *final(self) == *old(self)
                    &&& *final(control) == *old(control)
                    &&& *final(reported) == *old(reported)
                    &&& out@.len() == 0
                },
            },
    {
        let mut out: Vec<ClientMsg<S>> = Vec::new();
        let catching: bool = match self.world.state {
            SimState::CatchingUp => true,
            _ => false,
        };
        let run: Vec<(u32, u32)> = drive_replay(
            &mut self.world,
            &mut self.buffer,
            &self.replay,
            control,
        );
        if !catching {
            return out;
        }
        let ended: bool = notify_game_over(self.world.state, reported);
        let n: usize = run.len();
        let ghost models = run@;
        let ghost after = *self;
        assert(models.take(0) =~= Seq::<(u32, u32)>::empty());
        assert(said(out@) =~= told::<S>(models.take(0)));
        for i in 0..n
            invariant
                n == models.len(),
                models == run@,
                self.world == after.world,
                self.buffer == after.buffer,
                self.session == after.session,
                self.replay == after.replay,
                self.hashes@ == kept_all(after.hashes@, models.take(i as int)),
                said(out@) == (if i == n {
                    told_with_end::<S>(models, ended)
                } else {
                    told::<S>(models.take(i as int))
                }),
        {
            let (tick, hash): (u32, u32) = run[i];
            assert(models.take(i + 1).drop_last() =~= models.take(i as int));
            let ghost before = out@;
            keep_hash(&mut self.hashes, tick, hash);
            if ended && i + 1 == n {
                out.push(ClientMsg::GameOver { end_tick: tick });
                assert(said(out@) =~= said(before).push(ClientMsgModel::GameOver { end_tick: tick }));
            }
            out.push(ClientMsg::Hash { tick, hash });
            proof {
                assert(told::<S>(models.take(i + 1)) =~= told::<S>(models.take(i as int)).push(
                    ClientMsgModel::Hash { tick, hash },
                ));
                if i + 1 == n {
                    assert(models.take(i + 1) =~= models);
                    assert(models.drop_last() =~= models.take(i as int));
                    assert(said(out@) =~= told_with_end::<S>(models, ended));
                } else {
                    assert(said(out@) =~= told::<S>(models.take(i + 1)));
                }
            }
        }
        assert(models.take(n as int) =~= models);
        out
    }
}

} // verus!
