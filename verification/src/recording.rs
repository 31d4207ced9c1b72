//! Recordings: the log of a match as a file, and back.

use vstd::prelude::*;

use crate::components::GameCommand;
use crate::constants::SIM_VERSION;
use crate::match_flow::SimState;
use crate::net::{by_tick, commands_at, history, history_is_complete, read_history};
use crate::protocol::{
    command_to_wire, from_wires_spec, log_model, to_wires_spec, wires_round_trip, CommandWire,
    EntryModel, LogEntry, ReplayFile,
};
use crate::replay::{recorded, ReplayLog};
use crate::scalar::Scalar;

verus! {

/// Entries in the order of their ticks, each tick once.
pub open spec fn ascending<S: Scalar>(entries: Seq<EntryModel<S>>) -> bool {
    forall|i: int, j: int|
        0 <= i < j < entries.len() ==> (#[trigger] entries[i]).tick < (#[trigger] entries[j]).tick
}

/// The entries are the log, tick by tick: in the order of the ticks, none empty, each with all
/// commands of its tick in their order.
pub open spec fn grouped<S: Scalar>(log: Seq<(u32, GameCommand<S>)>, entries: Seq<EntryModel<S>>) -> bool {
    &&& ascending(entries)
    &&& forall|i: int|
        0 <= i < entries.len() ==> (#[trigger] entries[i]).from == 0 && entries[i].cmds.len() > 0
            && entries[i].cmds == to_wires_spec(recorded(log, entries[i].tick))
    &&& forall|t: u32| (forall|i: int| 0 <= i < entries.len() ==> (#[trigger] entries[i]).tick != t)
        ==> (#[trigger] recorded(log, t)).len() == 0
}

proof fn lemma_recorded_push<S: Scalar>(log: Seq<(u32, GameCommand<S>)>, x: (u32, GameCommand<S>), t: u32)
    ensures
        recorded(log.push(x), t) == (if x.0 == t { recorded(log, t).push(x.1) } else { recorded(log, t) }),
{
    assert(log.push(x).drop_last() =~= log);
}

proof fn lemma_wires_push<S: Scalar>(cmds: Seq<GameCommand<S>>, c: GameCommand<S>)
    ensures
        to_wires_spec(cmds.push(c)) == to_wires_spec(cmds).push(command_to_wire(c)),
{
    assert(to_wires_spec(cmds.push(c)) =~= to_wires_spec(cmds).push(command_to_wire(c)));
}

fn add_command<S: Scalar>(
    entries: &mut Vec<LogEntry<S>>,
    tick: u32,
    cmd: GameCommand<S>,
    log: Ghost<Seq<(u32, GameCommand<S>)>>,
)
    requires
        grouped(log@, log_model(old(entries)@)),
    ensures
        grouped(log@.push((tick, cmd)), log_model(final(entries)@)),
{
    let ghost before = log_model(entries@);
    let ghost next = log@.push((tick, cmd));
    let n: usize = entries.len();
    let mut p: usize = 0;
    while p < n && entries[p].tick < tick
        invariant
            n == entries@.len(),
            before == log_model(entries@),
            p <= n,
            forall|i: int| 0 <= i < p ==> (#[trigger] before[i]).tick < tick,
        decreases n - p,
    {
        assert(before[p as int].tick == entries@[p as int].tick);
        p += 1;
    }
    proof {
        assert forall|t: u32| #[trigger] recorded(next, t) == (if t == tick {
            recorded(log@, t).push(cmd)
        } else {
            recorded(log@, t)
        }) by {
            lemma_recorded_push(log@, (tick, cmd), t);
        }
        lemma_wires_push(recorded(log@, tick), cmd);
        if p < n {
            assert(before[p as int].tick == entries@[p as int].tick);
        }
    }
    let wire: CommandWire<S> = command_to_wire(cmd);
    if p < n && entries[p].tick == tick {
        let e = &mut entries[p];
        e.cmds.push(wire);
        let ghost after = log_model(entries@);
        proof {
            assert(after =~= before.update(
                p as int,
                EntryModel { cmds: before[p as int].cmds.push(wire), ..before[p as int] },
            ));
            assert forall|i: int, j: int| 0 <= i < j < after.len() implies (#[trigger] after[i]).tick < (
            #[trigger] after[j]).tick by {
                assert(before[i].tick < before[j].tick);
            }
            assert forall|i: int| 0 <= i < after.len() implies (#[trigger] after[i]).from == 0
                && after[i].cmds.len() > 0 && after[i].cmds == to_wires_spec(
                recorded(next, after[i].tick),
            ) by {
                assert(before[i].from == 0);
                if i < p {
                    assert(before[i].tick < before[p as int].tick);
                } else if i > p {
                    assert(before[p as int].tick < before[i].tick);
                }
            }
            assert forall|t: u32|
                (forall|i: int| 0 <= i < after.len() ==> (#[trigger] after[i]).tick != t) implies (
            #[trigger] recorded(next, t)).len() == 0 by {
                assert(after[p as int].tick == tick);
                assert forall|i: int| 0 <= i < before.len() implies (#[trigger] before[i]).tick != t by {
                    assert(after[i].tick == before[i].tick);
                }
            }
        }
    } else {
        let mut cmds: Vec<CommandWire<S>> = Vec::new();
        cmds.push(wire);
        entries.insert(p, LogEntry { tick, from: 0, cmds });
        let ghost after = log_model(entries@);
        proof {
            let fresh = EntryModel { tick, from: 0u8, cmds: seq![wire] };
            assert(after =~= before.insert(p as int, fresh)) by {
                assert(cmds@ =~= seq![wire]);
            }
            if p < n {
                assert(tick < before[p as int].tick);
            }
            assert forall|i: int| p <= i < before.len() implies tick < (#[trigger] before[i]).tick by {
                if i > p {
                    assert(before[p as int].tick < before[i].tick);
                }
            }
            assert forall|i: int| 0 <= i < before.len() implies (#[trigger] before[i]).tick != tick by {}
            assert(recorded(log@, tick).len() == 0);
            assert(to_wires_spec(recorded(next, tick)) =~= seq![wire]);
            assert forall|i: int, j: int| 0 <= i < j < after.len() implies (#[trigger] after[i]).tick < (
            #[trigger] after[j]).tick by {
                if i < p && j < p {
                    assert(before[i].tick < before[j].tick);
                } else if i < p && j > p {
                    assert(after[j] == before[j - 1]);
                    assert(before[i].tick < before[j - 1].tick);
                } else if i > p {
                    assert(after[i] == before[i - 1]);
                    assert(after[j] == before[j - 1]);
                    assert(before[i - 1].tick < before[j - 1].tick);
                } else if i == p {
                    assert(after[j] == before[j - 1]);
                }
            }
            assert forall|i: int| 0 <= i < after.len() implies (#[trigger] after[i]).from == 0
                && after[i].cmds.len() > 0 && after[i].cmds == to_wires_spec(
                recorded(next, after[i].tick),
            ) by {
                if i < p {
                    assert(after[i] == before[i]);
                } else if i > p {
                    assert(after[i] == before[i - 1]);
                }
            }
            assert forall|t: u32|
                (forall|i: int| 0 <= i < after.len() ==> (#[trigger] after[i]).tick != t) implies (
            #[trigger] recorded(next, t)).len() == 0 by {
                assert(after[p as int].tick == tick);
                assert forall|i: int| 0 <= i < before.len() implies (#[trigger] before[i]).tick != t by {
                    if i < p {
                        assert(after[i] == before[i]);
                    } else {
                        assert(after[i + 1] == before[i]);
                    }
                }
            }
        }
    }
}

/// The log of a match as entries of a recording.
pub fn group_log<S: Scalar>(log: &Vec<(u32, GameCommand<S>)>) -> (entries: Vec<LogEntry<S>>)
    ensures
        grouped(log@, log_model(entries@)),
{
    let n: usize = log.len();
    let mut entries: Vec<LogEntry<S>> = Vec::new();
    assert(log@.take(0) =~= Seq::<(u32, GameCommand<S>)>::empty());
    assert(grouped(log@.take(0), log_model(entries@)));
    for i in 0..n
        invariant
            n == log@.len(),
            grouped(log@.take(i as int), log_model(entries@)),
    {
        assert(log@.take(i + 1) =~= log@.take(i as int).push(log@[i as int]));
        let (t, c): (u32, GameCommand<S>) = log[i];
        add_command(&mut entries, t, c, Ghost(log@.take(i as int)));
    }
    assert(log@.take(n as int) =~= log@);
    entries
}

/// The recording of a match that is over; none before, for one that is itself a recording, or
/// when it was saved already.
pub fn save_replay_on_game_over<S: Scalar>(
    state: SimState,
    tick: u32,
    log: &Vec<(u32, GameCommand<S>)>,
    replaying: bool,
    saved: &mut bool,
) -> (r: Option<ReplayFile<S>>)
    ensures
        r.is_some() == (!*old(saved) && !replaying && state is GameOver),
        *final(saved) == (*old(saved) || r.is_some()),
        r matches Some(f) ==> f.version == SIM_VERSION && f.end_tick == tick && grouped(
            log@,
            log_model(f.entries@),
        ),
{
    let over: bool = match state {
        SimState::GameOver(_) => true,
        _ => false,
    };
    if *saved || replaying || !over {
        return None;
    }
    *saved = true;
    Some(ReplayFile { version: SIM_VERSION, end_tick: tick, entries: group_log(log) })
}

/// A recording as a source of commands, and whether it was made by these rules: another
/// version plays, but may go astray.
pub fn load_replay<S: Scalar>(file: &ReplayFile<S>) -> (r: (ReplayLog<S>, bool))
    ensures
        by_tick(r.0.map@) == history(log_model(file.entries@)),
        r.0.target == file.end_tick,
        r.1 == (file.version == SIM_VERSION),
{
    (
        ReplayLog { map: read_history(&file.entries), target: file.end_tick },
        file.version == SIM_VERSION,
    )
}

proof fn lemma_one_entry<S: Scalar>(entries: Seq<EntryModel<S>>, t: u32)
    requires
        ascending(entries),
    ensures
        forall|i: int|
            0 <= i < entries.len() && (#[trigger] entries[i]).tick == t ==> commands_at(entries, t)
                == from_wires_spec(entries[i].cmds),
        (forall|i: int| 0 <= i < entries.len() ==> (#[trigger] entries[i]).tick != t) ==> commands_at(
            entries,
            t,
        ).len() == 0,
    decreases entries.len(),
{
    if entries.len() > 0 {
        let rest = entries.drop_last();
        assert(ascending(rest)) by {
            assert forall|i: int, j: int| 0 <= i < j < rest.len() implies (#[trigger] rest[i]).tick < (
            #[trigger] rest[j]).tick by {
                assert(entries[i].tick < entries[j].tick);
            }
        }
        lemma_one_entry(rest, t);
        let last = entries.len() - 1;
        assert(entries[last] == entries.last());
        if entries[last].tick == t {
            assert forall|i: int| 0 <= i < rest.len() implies (#[trigger] rest[i]).tick != t by {
                assert(entries[i].tick < entries[last].tick);
            }
            assert(commands_at(entries, t) =~= from_wires_spec(entries[last].cmds));
        }
        assert forall|i: int| 0 <= i < entries.len() && (#[trigger] entries[i]).tick == t implies commands_at(
            entries,
            t,
        ) == from_wires_spec(entries[i].cmds) by {
            if i < last {
                assert(rest[i].tick == t);
                assert(entries[i].tick < entries[last].tick);
            }
        }
        assert((forall|i: int| 0 <= i < entries.len() ==> (#[trigger] entries[i]).tick != t) ==> (forall|i:
            int| 0 <= i < rest.len() ==> (#[trigger] rest[i]).tick != t)) by {
            if forall|i: int| 0 <= i < entries.len() ==> (#[trigger] entries[i]).tick != t {
                assert forall|i: int| 0 <= i < rest.len() implies (#[trigger] rest[i]).tick != t by {
                    assert(entries[i].tick != t);
                }
            }
        }
    }
}

/// What is saved is loaded: for every tick, a recording gives back the commands that the log
/// of the match holds for it.
pub proof fn recording_round_trip<S: Scalar>(
    log: Seq<(u32, GameCommand<S>)>,
    entries: Seq<EntryModel<S>>,
    t: u32,
)
    requires
        grouped(log, entries),
    ensures
        history(entries).contains_key(t) ==> history(entries)[t] == recorded(log, t),
        !history(entries).contains_key(t) ==> recorded(log, t).len() == 0,
{
    history_is_complete(entries, t);
    lemma_one_entry(entries, t);
    if history(entries).contains_key(t) {
        let i = choose|i: int| 0 <= i < entries.len() && (#[trigger] entries[i]).tick == t;
        wires_round_trip(recorded(log, t));
    } else {
        assert forall|i: int| 0 <= i < entries.len() implies (#[trigger] entries[i]).tick != t by {}
    }
}

} // verus!
