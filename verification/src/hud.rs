//! What is shown besides the field: bars, cards, numbers and effects, as plain values.

use vstd::prelude::*;

use crate::components::{Elixir, Faction, GameCommand, Health};
use crate::constants::{card, card_spec, elixir_max, CardKind, CardSpec};
use crate::match_flow::{elixir_multiplier, MatchTimer};
use crate::scalar::{clamped, hundredths, one, whole, zero, Scalar};

verus! {

/// The elixir that someone on this side sees; without a side, blue's.
#[verifier::allow_in_spec]
pub fn shown_elixir<S: Scalar>(elixir: &Elixir<S>, my: Option<Faction>) -> S
    returns
        (match my {
            Some(Faction::Enemy) => elixir.enemy,
            _ => elixir.player,
        }),
{
    match my {
        Some(Faction::Enemy) => elixir.enemy,
        _ => elixir.player,
    }
}

/// The elixir bar: how full it is in percent, and the whole points.
#[verifier::allow_in_spec]
pub fn elixir_bar<S: Scalar>(mine: S) -> (S, i64)
    returns
        (
            mine.over(elixir_max()).times(whole(100)),
            mine.negated().ceiling().negated().truncated(),
        ),
{
    (mine.over(elixir_max()).times(whole(100)), mine.negated().ceiling().negated().truncated())
}

/// The factor that is shown while elixir comes faster.
#[verifier::allow_in_spec]
pub fn multiplier_label(timer: &MatchTimer) -> Option<i64>
    returns
        (if elixir_multiplier(timer) > 1 { Some(elixir_multiplier(timer)) } else { None }),
{
    let m: i64 = elixir_multiplier(timer);
    if m > 1 {
        Some(m)
    } else {
        None
    }
}

/// How a card in hand looks.
#[derive(Clone, Copy, PartialEq, Eq, Structural, Debug)]
pub enum SlotLook {
    Selected,
    TooDear,
    Ready,
}

/// How a card in hand looks: selected before all, else grey while it cannot be paid.
#[verifier::allow_in_spec]
pub fn slot_look<S: Scalar>(slot: usize, selected: usize, elixir: S, spec: &CardSpec<S>) -> SlotLook
    returns
        (if slot == selected {
            SlotLook::Selected
        } else if elixir.less(spec.cost) {
            SlotLook::TooDear
        } else {
            SlotLook::Ready
        }),
{
    if slot == selected {
        SlotLook::Selected
    } else if elixir.less(spec.cost) {
        SlotLook::TooDear
    } else {
        SlotLook::Ready
    }
}

/// How a troop is tinted, by its size.
#[derive(Clone, Copy, PartialEq, Eq, Structural, Debug)]
pub enum Tint {
    Pale,
    Dark,
    Plain,
}

/// How a troop is tinted: the small pale, the large dark.
#[verifier::allow_in_spec]
pub fn tint<S: Scalar>(radius: S) -> Tint
    returns
        (if radius.less(hundredths::<S>(40)) {
            Tint::Pale
        } else if hundredths::<S>(60).less(radius) {
            Tint::Dark
        } else {
            Tint::Plain
        }),
{
    if radius.less(hundredths::<S>(40)) {
        Tint::Pale
    } else if hundredths::<S>(60).less(radius) {
        Tint::Dark
    } else {
        Tint::Plain
    }
}

/// A health bar: hidden while full, scaled to what is left, and shifted so that it shrinks to
/// the left.
#[derive(Clone, Copy, Debug)]
pub struct Bar<S> {
    pub visible: bool,
    pub scale: S,
    pub shift: S,
}

/// The health bar of a unit.
pub open spec fn bar_spec<S: Scalar>(health: Health<S>, width: S) -> Bar<S> {
    let pct = clamped(health.current.over(health.max), zero(), one());
    Bar {
        visible: !one::<S>().at_most(pct),
        scale: pct,
        shift: one::<S>().minus(pct).negated().times(width).times(hundredths(50)),
    }
}

/// The health bar of a unit.
pub fn bar<S: Scalar>(health: &Health<S>, width: S) -> (r: Bar<S>)
    ensures
        r == bar_spec(*health, width),
{
    let pct: S = clamped(health.current.over(health.max), zero(), one());
    Bar {
        visible: !one::<S>().at_most(pct),
        scale: pct,
        shift: one::<S>().minus(pct).negated().times(width).times(hundredths(50)),
    }
}

/// The size of the result text after `t` seconds: it grows past its final size and settles.
pub open spec fn pop_size_spec<S: Scalar>(t: S) -> S {
    let s = t.over(hundredths(35)).least(one());
    if s.less(hundredths(70)) {
        whole::<S>(40).plus(whole::<S>(96).minus(whole(40)).times(s.over(hundredths(70))))
    } else {
        whole::<S>(96).minus(
            whole::<S>(96).minus(whole(80)).times(s.minus(hundredths(70)).over(hundredths(30))),
        )
    }
}

/// The size of the result text after `t` seconds.
pub fn pop_size<S: Scalar>(t: S) -> (r: S)
    ensures
        r == pop_size_spec(t),
{
    let s: S = t.over(hundredths(35)).least(one());
    if s.less(hundredths(70)) {
        whole::<S>(40).plus(whole::<S>(96).minus(whole(40)).times(s.over(hundredths(70))))
    } else {
        whole::<S>(96).minus(
            whole::<S>(96).minus(whole(80)).times(s.minus(hundredths(70)).over(hundredths(30))),
        )
    }
}

/// A spark of a firework.
#[derive(Clone, Copy, Debug)]
pub struct Spark<S> {
    pub x: S,
    pub y: S,
    pub vx: S,
    pub vy: S,
    pub life: S,
}

/// A spark after `dt` seconds, unless it has burnt out: it falls, and air slows it.
pub open spec fn spark_spec<S: Scalar>(f: Spark<S>, dt: S) -> Option<Spark<S>> {
    let life = f.life.minus(dt);
    if life.at_most(zero()) {
        None
    } else {
        let vx = f.vx.times(one::<S>().minus(hundredths::<S>(60).times(dt)));
        let vy = f.vy.plus(whole::<S>(260).times(dt)).times(
            one::<S>().minus(hundredths::<S>(40).times(dt)),
        );
        Some(Spark { x: f.x.plus(vx.times(dt)), y: f.y.plus(vy.times(dt)), vx, vy, life })
    }
}

/// A spark after `dt` seconds, unless it has burnt out.
pub fn spark<S: Scalar>(f: &Spark<S>, dt: S) -> (r: Option<Spark<S>>)
    ensures
        r == spark_spec(*f, dt),
{
    let life: S = f.life.minus(dt);
    if life.at_most(zero()) {
        return None;
    }
    let vy: S = f.vy.plus(whole::<S>(260).times(dt)).times(
        one::<S>().minus(hundredths::<S>(40).times(dt)),
    );
    let vx: S = f.vx.times(one::<S>().minus(hundredths::<S>(60).times(dt)));
    Some(Spark { x: f.x.plus(vx.times(dt)), y: f.y.plus(vy.times(dt)), vx, vy, life })
}

/// A spell that is to be shown.
#[derive(Clone, Copy, Debug)]
pub struct SpellCast<S> {
    pub card: u8,
    pub x: S,
    pub z: S,
    /// How far its ring spreads: a little beyond its reach.
    pub end_radius: S,
}

/// The spell of a command, if it is one.
pub open spec fn cast_of<S: Scalar>(cmd: GameCommand<S>) -> Option<SpellCast<S>> {
    match cmd {
        GameCommand::Deploy { card: c, x, z, .. } => match card_spec::<S>(c) {
            Some(spec) => match spec.kind {
                CardKind::Spell(s) => Some(
                    SpellCast { card: c, x, z, end_radius: s.radius.plus(hundredths(40)) },
                ),
                _ => None,
            },
            None => None,
        },
    }
}

/// The spells among the commands of a log from a place on.
pub open spec fn casts_from<S: Scalar>(log: Seq<(u32, GameCommand<S>)>, from: int) -> Seq<SpellCast<S>>
    decreases log.len(),
{
    if log.len() == 0 || log.len() <= from {
        Seq::empty()
    } else {
        let rest = casts_from(log.drop_last(), from);
        match cast_of(log.last().1) {
            Some(c) => rest.push(c),
            None => rest,
        }
    }
}

/// The spells that were cast since the last look. A log that has become shorter belongs to a
/// match that was started over.
pub fn new_casts<S: Scalar>(log: &Vec<(u32, GameCommand<S>)>, cursor: &mut usize) -> (r: Vec<SpellCast<S>>)
    ensures
        *final(cursor) == log@.len(),
        r@ == casts_from(log@, *old(cursor) as int),
{
    let n: usize = log.len();
    let mut r: Vec<SpellCast<S>> = Vec::new();
    if *cursor > n {
        *cursor = n;
    }
    let from: usize = *cursor;
    let mut i: usize = from;
    while i < n
        invariant
            n == log@.len(),
            from <= i <= n,
            r@ == casts_from(log@.take(i as int), from as int),
        decreases n - i,
    {
        assert(log@.take(i + 1).drop_last() =~= log@.take(i as int));
        let (_, cmd): (u32, GameCommand<S>) = log[i];
        match cmd {
            GameCommand::Deploy { card: c, x, z, .. } => {
                if let Some(spec) = card::<S>(c) {
                    if let CardKind::Spell(s) = spec.kind {
                        r.push(SpellCast { card: c, x, z, end_radius: s.radius.plus(hundredths(40)) });
                    }
                }
            },
        }
        i += 1;
    }
    assert(log@.take(n as int) =~= log@);
    *cursor = n;
    r
}

/// A ring that spreads: its radius, its opacity, and whether it is over.
#[verifier::allow_in_spec]
pub fn ring<S: Scalar>(t: S, duration: S, end_radius: S) -> (S, S, bool)
    returns
        (
            end_radius.times(t.over(duration).least(one())),
            one::<S>().minus(t.over(duration).least(one())).times(hundredths(90)),
            duration.at_most(t),
        ),
{
    let k: S = t.over(duration).least(one());
    (end_radius.times(k), one::<S>().minus(k).times(hundredths(90)), duration.at_most(t))
}

} // verus!
