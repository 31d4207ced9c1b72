//! What a command that cannot be played changes: the log, and nothing else.

use vstd::prelude::*;

use crate::cards::{tower_snaps_spec, TowerSnap};
use crate::components::{Faction, GameCommand};
use crate::scalar::Scalar;
use crate::sim::{
    all_commanded, exec_order, fought, lemma_of_side_add, lemma_tick_counts, of_side, prepared, run_ticks,
    tick_spec, worked,
};
use crate::tally::{accepted, lost_in_tick, run_count, takes, tick_count};
use crate::world::WorldModel;

verus! {

/// A world without its log.
pub open spec fn unlogged<S: Scalar>(m: WorldModel<S>) -> WorldModel<S> {
    WorldModel { log: Seq::empty(), ..m }
}

/// What is carried out before a command that stands between others.
pub open spec fn turn_of<S: Scalar>(
    x: Seq<GameCommand<S>>,
    cmd: GameCommand<S>,
    y: Seq<GameCommand<S>>,
) -> Seq<GameCommand<S>> {
    match cmd.faction() {
        Faction::Player => of_side(x, Faction::Player),
        Faction::Enemy => of_side(x + y, Faction::Player) + of_side(x, Faction::Enemy),
    }
}

proof fn lemma_commands_unlogged<S: Scalar>(
    a: WorldModel<S>,
    b: WorldModel<S>,
    cmds: Seq<GameCommand<S>>,
    towers: Seq<TowerSnap<S>>,
)
    requires
        unlogged(a) == unlogged(b),
    ensures
        unlogged(all_commanded(a, cmds, towers)) == unlogged(all_commanded(b, cmds, towers)),
        forall|f: Faction| accepted(a, cmds, towers, f) == accepted(b, cmds, towers, f),
    decreases cmds.len(),
{
    lemma_same_fields(a, b);
    if cmds.len() > 0 {
        let rest = cmds.drop_last();
        lemma_commands_unlogged(a, b, rest, towers);
        lemma_same_fields(all_commanded(a, rest, towers), all_commanded(b, rest, towers));
        assert forall|f: Faction| accepted(a, cmds, towers, f) == accepted(b, cmds, towers, f) by {
            assert(accepted(a, rest, towers, f) == accepted(b, rest, towers, f));
        }
    }
}

proof fn lemma_same_fields<S: Scalar>(a: WorldModel<S>, b: WorldModel<S>)
    requires
        unlogged(a) == unlogged(b),
    ensures
        a == (WorldModel { log: a.log, ..b }),
{
    let (u, v) = (unlogged(a), unlogged(b));
    assert(a == (WorldModel { log: a.log, ..u }));
    assert(b == (WorldModel { log: b.log, ..v }));
}

proof fn lemma_refused_between<S: Scalar>(
    m: WorldModel<S>,
    pre: Seq<GameCommand<S>>,
    cmd: GameCommand<S>,
    post: Seq<GameCommand<S>>,
    towers: Seq<TowerSnap<S>>,
)
    requires
        !takes(all_commanded(m, pre, towers), cmd, towers),
    ensures
        unlogged(all_commanded(m, pre + seq![cmd] + post, towers)) == unlogged(
            all_commanded(m, pre + post, towers),
        ),
        forall|f: Faction| #[trigger]
            accepted(m, pre + seq![cmd] + post, towers, f) == accepted(m, pre + post, towers, f),
    decreases post.len(),
{
    let long = pre + seq![cmd] + post;
    let short = pre + post;
    if post.len() == 0 {
        assert(long.drop_last() =~= pre);
        assert(short =~= pre);
    } else {
        let rest = post.drop_last();
        lemma_refused_between(m, pre, cmd, rest, towers);
        assert(long.drop_last() =~= pre + seq![cmd] + rest);
        assert(short.drop_last() =~= pre + rest);
        assert(long.last() == post.last());
        assert(short.last() == post.last());
        lemma_same_fields(
            all_commanded(m, pre + seq![cmd] + rest, towers),
            all_commanded(m, pre + rest, towers),
        );
        assert forall|f: Faction| #[trigger] accepted(m, long, towers, f) == accepted(m, short, towers, f) by {
            assert(accepted(m, pre + seq![cmd] + rest, towers, f) == accepted(m, pre + rest, towers, f));
        }
    }
}

/// The log has no part in a tick: worlds that differ by it alone do so after the tick too.
pub proof fn lemma_tick_unlogged<S: Scalar>(a: WorldModel<S>, b: WorldModel<S>, cmds: Seq<GameCommand<S>>)
    requires
        unlogged(a) == unlogged(b),
    ensures
        unlogged(tick_spec(a, cmds)) == unlogged(tick_spec(b, cmds)),
        forall|f: Faction| tick_count(a, cmds, f) == tick_count(b, cmds, f),
{
    lemma_same_fields(a, b);
    let towers = tower_snaps_spec(a.units);
    lemma_commands_unlogged(a, b, cmds, towers);
    lemma_rest_unlogged(a, b, cmds, cmds);
}

proof fn lemma_rest_unlogged<S: Scalar>(
    a: WorldModel<S>,
    b: WorldModel<S>,
    x: Seq<GameCommand<S>>,
    y: Seq<GameCommand<S>>,
)
    requires
        a.units == b.units,
        unlogged(all_commanded(a, x, tower_snaps_spec(a.units))) == unlogged(
            all_commanded(b, y, tower_snaps_spec(a.units)),
        ),
    ensures
        unlogged(tick_spec(a, x)) == unlogged(tick_spec(b, y)),
        forall|f: Faction| lost_in_tick(a, x, f) == lost_in_tick(b, y, f),
{
    reveal(tick_spec);
    reveal(lost_in_tick);
    let towers = tower_snaps_spec(a.units);
    let (c, d) = (all_commanded(a, x, towers), all_commanded(b, y, towers));
    lemma_same_fields(c, d);
    let l = c.log;
    assert(prepared(c) == (WorldModel { log: l, ..prepared(d) }));
    assert(fought(prepared(c)) == (WorldModel { log: l, ..fought(prepared(d)) }));
    assert(worked(fought(prepared(c))) == (WorldModel { log: l, ..worked(fought(prepared(d))) }));
}

/// A refused command changes nothing in its tick but the log.
pub proof fn lemma_refused_tick<S: Scalar>(
    m: WorldModel<S>,
    x: Seq<GameCommand<S>>,
    cmd: GameCommand<S>,
    y: Seq<GameCommand<S>>,
)
    requires
        !takes(
            all_commanded(m, turn_of(x, cmd, y), tower_snaps_spec(m.units)),
            cmd,
            tower_snaps_spec(m.units),
        ),
    ensures
        unlogged(tick_spec(m, exec_order(x + seq![cmd] + y))) == unlogged(tick_spec(m, exec_order(x + y))),
        forall|f: Faction|
            #![trigger tick_count(m, exec_order(x + seq![cmd] + y), f)]
            #![trigger tick_count(m, exec_order(x + y), f)]
            tick_count(m, exec_order(x + seq![cmd] + y), f) == tick_count(m, exec_order(x + y), f),
{
    let f = cmd.faction();
    let g = f.other();
    let one = seq![cmd];
    reveal_with_fuel(of_side, 2);
    assert(one.drop_last() =~= Seq::<GameCommand<S>>::empty());
    assert(one.last() == cmd);
    assert(of_side(one, f) =~= one);
    assert(of_side(one, g) =~= Seq::<GameCommand<S>>::empty());
    lemma_of_side_add(x + one, y, f);
    lemma_of_side_add(x + one, y, g);
    lemma_of_side_add(x, one, f);
    lemma_of_side_add(x, one, g);
    lemma_of_side_add(x, y, f);
    lemma_of_side_add(x, y, g);
    let pre = turn_of(x, cmd, y);
    let post = match f {
        Faction::Player => of_side(y, Faction::Player) + of_side(x + y, Faction::Enemy),
        Faction::Enemy => of_side(y, Faction::Enemy),
    };
    assert(exec_order(x + one + y) =~= pre + one + post);
    assert(exec_order(x + y) =~= pre + post);
    lemma_refused_between(m, pre, cmd, post, tower_snaps_spec(m.units));
    lemma_rest_unlogged(m, m, exec_order(x + one + y), exec_order(x + y));
}

/// The log has no part in a run.
pub proof fn lemma_run_unlogged<S: Scalar>(
    a: WorldModel<S>,
    b: WorldModel<S>,
    feed: spec_fn(u32) -> Seq<GameCommand<S>>,
    n: nat,
)
    requires
        unlogged(a) == unlogged(b),
    ensures
        unlogged(run_ticks(a, feed, n)) == unlogged(run_ticks(b, feed, n)),
        forall|f: Faction| run_count(a, feed, n, f) == run_count(b, feed, n, f),
    decreases n,
{
    lemma_same_fields(a, b);
    if n > 0 && !(a.state is GameOver) {
        let cmds = feed(a.tick);
        lemma_tick_unlogged(a, b, cmds);
        lemma_run_unlogged(tick_spec(a, cmds), tick_spec(b, cmds), feed, (n - 1) as nat);
        assert forall|f: Faction| run_count(a, feed, n, f) == run_count(b, feed, n, f) by {
            assert(tick_count(a, cmds, f) == tick_count(b, cmds, f));
            assert(run_count(tick_spec(a, cmds), feed, (n - 1) as nat, f) == run_count(
                tick_spec(b, cmds),
                feed,
                (n - 1) as nat,
                f,
            ));
            assert(b.tick == a.tick);
            assert(feed(b.tick) == cmds);
        }
    }
}

/// Runs with the same commands count the same.
pub proof fn lemma_count_agrees<S: Scalar>(
    m: WorldModel<S>,
    a: spec_fn(u32) -> Seq<GameCommand<S>>,
    b: spec_fn(u32) -> Seq<GameCommand<S>>,
    n: nat,
    faction: Faction,
)
    requires
        m.tick + n <= u32::MAX,
        forall|t: u32| m.tick <= t < m.tick + n ==> #[trigger] a(t) == b(t),
    ensures
        run_count(m, a, n, faction) == run_count(m, b, n, faction),
    decreases n,
{
    if n > 0 && !(m.state is GameOver) {
        assert(a(m.tick) == b(m.tick));
        lemma_tick_counts(m, a(m.tick));
        lemma_count_agrees(tick_spec(m, a(m.tick)), a, b, (n - 1) as nat, faction);
    }
}

/// A run does not go back.
pub proof fn lemma_run_goes_on<S: Scalar>(
    m: WorldModel<S>,
    feed: spec_fn(u32) -> Seq<GameCommand<S>>,
    n: nat,
)
    requires
        m.tick + n <= u32::MAX,
    ensures
        m.tick <= run_ticks(m, feed, n).tick <= m.tick + n,
    decreases n,
{
    if n > 0 && !(m.state is GameOver) {
        lemma_tick_counts(m, feed(m.tick));
        lemma_run_goes_on(tick_spec(m, feed(m.tick)), feed, (n - 1) as nat);
    }
}

} // verus!
