//! Elixir comes back at a steady rate, up to a limit.

use vstd::prelude::*;

use crate::components::Elixir;
use crate::constants::{elixir_max, elixir_per_sec, elixir_start, tick_dt};
use crate::match_flow::{elixir_multiplier, MatchTimer};
use crate::scalar::{whole, Scalar};

verus! {

/// What comes back in one tick.
#[verifier::allow_in_spec]
pub fn regen_rate<S: Scalar>(timer: &MatchTimer) -> S
    returns
        elixir_per_sec::<S>().times(whole(elixir_multiplier(timer))).times(tick_dt()),
{
    elixir_per_sec::<S>().times(whole(elixir_multiplier(timer))).times(tick_dt())
}

/// The elixir of both sides one tick later.
#[verifier::allow_in_spec]
pub fn regenerated<S: Scalar>(e: Elixir<S>, timer: &MatchTimer) -> Elixir<S>
    returns
        (Elixir {
            player: e.player.plus(regen_rate(timer)).least(elixir_max()),
            enemy: e.enemy.plus(regen_rate(timer)).least(elixir_max()),
        }),
{
    Elixir {
        player: e.player.plus(regen_rate(timer)).least(elixir_max()),
        enemy: e.enemy.plus(regen_rate(timer)).least(elixir_max()),
    }
}

/// Lets one tick's worth of elixir come back to both sides.
pub fn regen<S: Scalar>(elixir: &mut Elixir<S>, timer: &MatchTimer)
    ensures
        *final(elixir) == regenerated(*old(elixir), timer),
{
    *elixir = regenerated(*elixir, timer);
}

/// What both sides start with.
#[verifier::allow_in_spec]
pub fn initial<S: Scalar>() -> Elixir<S>
    returns
        (Elixir { player: elixir_start::<S>(), enemy: elixir_start::<S>() }),
{
    Elixir { player: elixir_start(), enemy: elixir_start() }
}

/// Elixir never exceeds its limit after it came back.
pub proof fn elixir_is_capped<S: Scalar>(e: Elixir<S>, timer: &MatchTimer)
    ensures
        !elixir_max::<S>().less(regenerated(e, timer).player),
        !elixir_max::<S>().less(regenerated(e, timer).enemy),
{
    S::least_bounded(e.player.plus(regen_rate(timer)), elixir_max());
    S::least_bounded(e.enemy.plus(regen_rate(timer)), elixir_max());
}

/// Both sides with equal elixir stay equal.
pub proof fn regen_is_even<S: Scalar>(e: Elixir<S>, timer: &MatchTimer)
    requires
        e.player == e.enemy,
    ensures
        regenerated(e, timer).player == regenerated(e, timer).enemy,
{
}

} // verus!
