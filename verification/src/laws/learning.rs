//! What learning agents are told: rewards, endings, actions and observations.

use vstd::arithmetic::div_mod::*;
use vstd::prelude::*;

use crate::cards::{playable, tower_snaps_spec};
use crate::combat::nearest::lemma_quotient;
use crate::components::{Actor, Faction, Health, UnitKind};
use crate::constants::card_spec;
use crate::decks::hand_position_from;
use crate::fixed::{abs, lemma_quotient_ordered, quotient, Fixed};
use crate::match_flow::SimState;
use crate::scalar::{whole, zero, Scalar};
use crate::sim_env::{
    cell_to_pos, idx_to_action, legal, ordered, shaping, step_feed, stepped, tower_health,
    EnvAction, SimWorld, StepResult,
};
use crate::tally::{run_count, Count};
use crate::vector::Vec3;
use crate::world::WorldModel;

verus! {

/// What a unit adds to the tower health of a side: what is left of it, if it is a tower of the
/// side and anything is left.
pub open spec fn adds(a: Actor<Fixed>, side: Faction) -> int {
    if a.unit.kind == UnitKind::Tower && a.unit.faction == side && a.health.current.raw > 0 {
        a.health.current.raw as int
    } else {
        0
    }
}

/// Whether the health of all units is within reason.
pub open spec fn sane_health(units: Seq<Actor<Fixed>>) -> bool {
    &&& units.len() <= 0x10_0000
    &&& forall|i: int| 0 <= i < units.len() ==> (#[trigger] units[i]).health.current.raw <= 0x1_0000_0000
}

/// The tower health of a side is the sum of what its towers have left.
pub proof fn tower_health_is_a_sum(units: Seq<Actor<Fixed>>, side: Faction)
    requires
        sane_health(units),
    ensures
        tower_health(units, side).raw == units.map_values(|a: Actor<Fixed>| adds(a, side)).fold_left(
            0int,
            |x: int, y: int| x + y,
        ),
        0 <= tower_health(units, side).raw <= units.len() * 0x1_0000_0000,
    decreases units.len(),
{
    let f = |a: Actor<Fixed>| adds(a, side);
    let g = |x: int, y: int| x + y;
    let all = units.map_values(f);
    lemma_quotient(0, 1, 0);
    if units.len() > 0 {
        let rest = units.drop_last();
        assert(sane_health(rest)) by {
            assert forall|i: int| 0 <= i < rest.len() implies (#[trigger] rest[i]).health.current.raw
                <= 0x1_0000_0000 by {
                assert(units[i].health.current.raw <= 0x1_0000_0000);
            }
        }
        tower_health_is_a_sum(rest, side);
        assert(all.drop_last() =~= rest.map_values(f));
        assert(units[units.len() - 1].health.current.raw <= 0x1_0000_0000);
    }
}

/// What a blow to a tower takes from the sum of its side, and that nothing else takes from it.
pub proof fn blows_lower_the_sum(units: Seq<Actor<Fixed>>, i: int, hp: Fixed, side: Faction)
    requires
        sane_health(units),
        0 <= i < units.len(),
        0 <= hp.raw <= units[i].health.current.raw,
    ensures
        ({
            let hurt = Actor { health: Health { current: hp, ..units[i].health }, ..units[i] };
            tower_health(units.update(i, hurt), side).raw == tower_health(units, side).raw - (if units[i].unit.kind
                == UnitKind::Tower && units[i].unit.faction == side {
                units[i].health.current.raw - hp.raw
            } else {
                0
            })
        }),
    decreases units.len(),
{
    let hurt = Actor { health: Health { current: hp, ..units[i].health }, ..units[i] };
    let after = units.update(i, hurt);
    let rest = units.drop_last();
    assert(sane_health(rest)) by {
        assert forall|k: int| 0 <= k < rest.len() implies (#[trigger] rest[k]).health.current.raw <= 0x1_0000_0000 by {
            assert(units[k].health.current.raw <= 0x1_0000_0000);
        }
    }
    lemma_quotient(0, 1, 0);
    tower_health_is_a_sum(rest, side);
    assert(units[i].health.current.raw <= 0x1_0000_0000);
    assert(units[units.len() - 1].health.current.raw <= 0x1_0000_0000);
    if i == units.len() - 1 {
        assert(after.drop_last() =~= rest);
    } else {
        assert(after.drop_last() =~= rest.update(i, hurt));
        blows_lower_the_sum(rest, i, hp, side);
        let part = rest.update(i, hurt);
        assert(sane_health(part)) by {
            assert forall|k: int| 0 <= k < part.len() implies (#[trigger] part[k]).health.current.raw
                <= 0x1_0000_0000 by {
                assert(units[k].health.current.raw <= 0x1_0000_0000);
            }
        }
        tower_health_is_a_sum(part, side);
    }
}

proof fn lemma_product(n: int, k: int)
    ensures
        quotient(n * 65536 * k, 65536) == n * k,
{
    let m = n * k;
    assert(n * 65536 * k == m * 65536) by (nonlinear_arith)
        requires
            m == n * k,
    ;
    if m >= 0 {
        lemma_quotient(m * 65536, 65536, m);
    } else {
        lemma_quotient(-m * 65536, 65536, -m);
        assert(abs(m * 65536) == abs(-m * 65536));
    }
}

proof fn lemma_whole(n: i64)
    requires
        -0x1_0000_0000 <= n <= 0x1_0000_0000,
    ensures
        whole::<Fixed>(n).raw == n * 65536,
{
    if n >= 0 {
        lemma_quotient(n * 65536, 1, n * 65536);
    } else {
        lemma_quotient(-n * 65536, 1, -n * 65536);
        assert(abs(n * 65536) == -n * 65536);
    }
}

/// The reward of a step, by what it is for: five ten-thousandths for each point of health that
/// red's towers lost and blue's did not; four thousandths for each card that blue played; five
/// thousandths less with full elixir; ten thousandths for each troop that red lost and blue did
/// not. In fixed point, by 65536ths.
pub proof fn rewards_add_up(hp: (Fixed, Fixed), after: WorldModel<Fixed>, blue: Count, red: Count)
    requires
        sane_health(after.units),
        -0x100_0000_0000_0000 <= hp.0.raw <= 0x100_0000_0000_0000,
        -0x100_0000_0000_0000 <= hp.1.raw <= 0x100_0000_0000_0000,
        blue.plays <= 0x1000_0000,
        blue.losses <= 0x1000_0000,
        red.losses <= 0x1000_0000,
    ensures
        ({
            let red_lost = hp.1.raw - tower_health(after.units, Faction::Enemy).raw;
            let blue_lost = hp.0.raw - tower_health(after.units, Faction::Player).raw;
            shaping(hp, after, blue, red).raw == quotient((red_lost - blue_lost) * 32, 65536) + 262 * blue.plays - (
            if after.elixir.player.raw >= 10 * 65536 {
                327int
            } else {
                0
            }) + 655 * (red.losses - blue.losses)
        }),
{
    tower_health_is_a_sum(after.units, Faction::Enemy);
    tower_health_is_a_sum(after.units, Faction::Player);
    lemma_quotient(5int * 65536, 10000, 32);
    lemma_quotient(4int * 65536, 1000, 262);
    lemma_quotient(5int * 65536, 1000, 327);
    lemma_quotient(10int * 65536, 1000, 655);
    lemma_quotient(10int * 65536, 1, 655360);
    lemma_quotient(1int * 65536, 1_000_000, 0);
    lemma_whole(blue.plays as i64);
    lemma_whole(red.losses as i64);
    lemma_whole(blue.losses as i64);
    lemma_product(blue.plays as int, 262);
    lemma_product(red.losses - blue.losses, 655);
    let red_lost = hp.1.raw - tower_health(after.units, Faction::Enemy).raw;
    let blue_lost = hp.0.raw - tower_health(after.units, Faction::Player).raw;
    let d = red_lost - blue_lost;
    assert(-0x800_0000_0000_0000 <= d <= 0x800_0000_0000_0000);
    assert(abs(quotient(d * 32, 65536)) <= abs(d));
}

/// With all else equal, the reward does not fall as red's towers get less, and does not rise as
/// blue's do.
pub proof fn damage_pays(hp: (Fixed, Fixed), a: WorldModel<Fixed>, b: WorldModel<Fixed>, blue: Count, red: Count)
    requires
        sane_health(a.units),
        sane_health(b.units),
        -0x100_0000_0000_0000 <= hp.0.raw <= 0x100_0000_0000_0000,
        -0x100_0000_0000_0000 <= hp.1.raw <= 0x100_0000_0000_0000,
        blue.plays <= 0x1000_0000,
        blue.losses <= 0x1000_0000,
        red.losses <= 0x1000_0000,
        a.elixir.player == b.elixir.player,
        tower_health(a.units, Faction::Enemy).raw >= tower_health(b.units, Faction::Enemy).raw,
        tower_health(a.units, Faction::Player).raw <= tower_health(b.units, Faction::Player).raw,
    ensures
        shaping(hp, a, blue, red).raw <= shaping(hp, b, blue, red).raw,
{
    rewards_add_up(hp, a, blue, red);
    rewards_add_up(hp, b, blue, red);
    let x = (hp.1.raw - tower_health(a.units, Faction::Enemy).raw) - (hp.0.raw - tower_health(
        a.units,
        Faction::Player,
    ).raw);
    let y = (hp.1.raw - tower_health(b.units, Faction::Enemy).raw) - (hp.0.raw - tower_health(
        b.units,
        Faction::Player,
    ).raw);
    lemma_quotient_ordered(x * 32, y * 32);
}

/// A win is worth one, a defeat costs one, and a draw neither; an episode ends with the match, or
/// drawn after two thousand steps.
pub proof fn endings_pay<S: Scalar>(
    before: SimWorld<S>,
    blue: Option<EnvAction<S>>,
    red: Option<EnvAction<S>>,
    after: SimWorld<S>,
    r: StepResult<S>,
)
    requires
        stepped(before, blue, red, after, r),
    ensures
        ({
            let m = before.world@;
            let feed = step_feed(
                m,
                before.buffer,
                ordered(m, Faction::Player, blue) + ordered(m, Faction::Enemy, red),
            );
            let shaped = shaping(
                before.tower_hp,
                after.world@,
                run_count(m, feed, 15, Faction::Player),
                run_count(m, feed, 15, Faction::Enemy),
            );
            let state = after.world.state;
            &&& r.done <==> state is GameOver || after.steps > 2000
            &&& state == SimState::GameOver(Some(Faction::Player)) ==> r.reward == shaped.plus(S::ratio(1, 1))
                && r.winner == Some(Faction::Player)
            &&& state == SimState::GameOver(Some(Faction::Enemy)) ==> r.reward == shaped.plus(
                S::ratio(1, 1).negated(),
            ) && r.winner == Some(Faction::Enemy)
            &&& state == SimState::GameOver(None) ==> r.reward == shaped.plus(S::ratio(0, 1)) && r.winner.is_none()
            &&& !r.done ==> r.reward == shaped && r.winner.is_none()
        }),
{
}

/// A step that starts where the last one ended is judged by the damage done in it: the tower
/// health that it is measured against is that at its start.
pub proof fn damage_is_measured_per_step<S: Scalar>(
    before: SimWorld<S>,
    blue: Option<EnvAction<S>>,
    red: Option<EnvAction<S>>,
    after: SimWorld<S>,
    r: StepResult<S>,
)
    requires
        stepped(before, blue, red, after, r),
    ensures
        after.tower_hp.0 == tower_health(after.world@.units, Faction::Player),
        after.tower_hp.1 == tower_health(after.world@.units, Faction::Enemy),
{
}

/// What an agent may do is what comes to something: a troop of the hand can be put on a cell
/// exactly if the mask says so.
pub proof fn masks_are_honest<S: Scalar>(m: WorldModel<S>, side: Faction, idx: usize)
    requires
        idx < 448,
        m.decks.queue(side).len() >= 4,
        card_spec::<S>(m.decks.queue(side)[idx as int / 112]) matches Some(c) && c.kind is Troop,
    ensures
        ({
            let act = idx_to_action::<S>(side, idx)->0;
            legal(m, side, idx as int) == playable(
                m,
                side,
                m.decks.queue(side)[idx as int / 112],
                Vec3 { x: act.x, y: zero(), z: act.z },
                tower_snaps_spec(m.units),
            ).is_some()
        }),
{
    let slot = idx as int / 112;
    lemma_in_hand(m.decks.queue(side), slot, 0);
}

proof fn lemma_in_hand(queue: Seq<u8>, slot: int, from: int)
    requires
        0 <= from <= slot < 4,
    ensures
        hand_position_from(queue, queue[slot], from).is_some(),
    decreases 4 - from,
{
    if from < slot && queue[from] != queue[slot] {
        lemma_in_hand(queue, slot, from + 1);
    }
}

/// Every action names a slot of the hand and a cell, and every two actions differ in one of them;
/// the last one stands for doing nothing.
pub proof fn actions_name_slots_and_cells<S: Scalar>(side: Faction, a: usize)
    requires
        a < 449,
    ensures
        idx_to_action::<S>(side, a).is_none() <==> a == 448,
        idx_to_action::<S>(side, a) matches Some(x) ==> {
            &&& x.slot < 4
            &&& x.slot * 112 <= a < x.slot * 112 + 112
            &&& (x.x, x.z) == cell_to_pos::<S>(side, (a - x.slot * 112) as usize)
        },
{
}

/// The cells of the action grid in fixed point: eight columns two units apart from -7 to 7,
/// fourteen rows from 2 units before the middle to almost 14, in the own half.
pub proof fn cells_cover_the_own_half(side: Faction, cell: usize)
    requires
        cell < 112,
    ensures
        ({
            let (x, z) = cell_to_pos::<Fixed>(side, cell);
            let (col, row) = (cell as int % 8, cell as int / 8);
            let depth = 2 * 65536 + row * 60494;
            &&& x.raw == (2 * col - 7) * 65536
            &&& side == Faction::Player ==> z.raw == -depth
            &&& side == Faction::Enemy ==> z.raw == depth
            &&& 2 * 65536 <= depth <= 14 * 65536
        }),
{
    let (col, row) = (cell as int % 8, cell as int / 8);
    lemma_whole(7);
    lemma_whole(14);
    lemma_whole(12);
    lemma_whole(13);
    lemma_whole(2);
    lemma_whole(1);
    lemma_whole(col as i64);
    lemma_whole(row as i64);
    lemma_quotient(14int * 65536 * 65536, 7int * 65536, 131072);
    lemma_quotient(12int * 65536 * 65536, 13int * 65536, 60494);
    lemma_product(col, 131072);
    lemma_product(row, 60494);
    let depth = 2 * 65536 + row * 60494;
    lemma_product(1, depth);
    lemma_product(-1, depth);
}

} // verus!
