//! Volleys: spells whose damage lands in waves.

use vstd::arithmetic::div_mod::{lemma_fundamental_div_mod, lemma_fundamental_div_mod_converse};
use vstd::prelude::*;

use crate::combat::attack::only_hurt;
use crate::components::{Actor, SpellVolley, UnitKind};
use crate::fixed::Fixed;
use crate::scalar::{zero, Scalar};
use crate::vector::Vec3;
use crate::world::volleys_wf;

verus! {

/// A unit after one wave: enemy troops and buildings within the radius are hurt.
#[verifier::allow_in_spec]
pub fn waved<S: Scalar>(a: Actor<S>, v: &SpellVolley<S>) -> Actor<S>
    returns
        (if a.unit.kind != UnitKind::Tower && a.unit.faction != v.faction && a.pos.ground_distance(
            Vec3 { x: v.x, y: zero::<S>(), z: v.z },
        ).at_most(v.radius) {
            a.hurt(v.damage)
        } else {
            a
        }),
{
    if a.unit.kind != UnitKind::Tower && a.unit.faction != v.faction && a.pos.ground_distance(
        Vec3 { x: v.x, y: zero(), z: v.z },
    ).at_most(v.radius) {
        a.hurt(v.damage)
    } else {
        a
    }
}

/// A volley one tick later, unless that was its last wave.
#[verifier::allow_in_spec]
pub fn later<S: Scalar>(v: SpellVolley<S>) -> Option<SpellVolley<S>>
    requires
        v.wf(),
    returns
        (if v.next_in > 0 {
            Some(SpellVolley { next_in: (v.next_in - 1) as u32, ..v })
        } else if v.waves_left == 1 {
            None
        } else {
            Some(
                SpellVolley {
                    waves_left: (v.waves_left - 1) as u32,
                    next_in: (v.interval - 1) as u32,
                    ..v
                },
            )
        }),
{
    if v.next_in > 0 {
        Some(SpellVolley { next_in: v.next_in - 1, ..v })
    } else if v.waves_left == 1 {
        None
    } else {
        Some(SpellVolley { waves_left: v.waves_left - 1, next_in: v.interval - 1, ..v })
    }
}

/// Units and volleys in the course of a tick.
pub ghost struct Barrage<S> {
    pub units: Seq<Actor<S>>,
    pub volleys: Seq<SpellVolley<S>>,
}

/// One tick of one volley; the volleys in `b` are those that go on.
pub open spec fn rain<S: Scalar>(b: Barrage<S>, v: SpellVolley<S>) -> Barrage<S> {
    Barrage {
        units: if v.next_in > 0 {
            b.units
        } else {
            b.units.map_values(|a: Actor<S>| waved(a, &v))
        },
        volleys: match later(v) {
            Some(w) => b.volleys.push(w),
            None => b.volleys,
        },
    }
}

/// One tick of all volleys, in order.
pub open spec fn volleys_spec<S: Scalar>(units: Seq<Actor<S>>, volleys: Seq<SpellVolley<S>>) -> Barrage<S>
    decreases volleys.len(),
{
    if volleys.len() == 0 {
        Barrage { units, volleys: Seq::empty() }
    } else {
        rain(volleys_spec(units, volleys.drop_last()), volleys.last())
    }
}

fn strike<S: Scalar>(units: &mut Vec<Actor<S>>, v: &SpellVolley<S>)
    ensures
        final(units)@ == old(units)@.map_values(|a: Actor<S>| waved(a, v)),
{
    let n: usize = units.len();
    let ghost before = units@;
    for i in 0..n
        invariant
            n == before.len(),
            n == units@.len(),
            forall|j: int| i <= j < n ==> units@[j] == before[j],
            forall|j: int| 0 <= j < i ==> units@[j] == waved(before[j], v),
    {
        let a: Actor<S> = units[i];
        units[i] = waved(a, v);
    }
    assert(units@ =~= before.map_values(|a: Actor<S>| waved(a, v)));
}

/// Counts every volley down; one whose time has come lands a wave on what stands there now.
pub fn spell_volley_tick<S: Scalar>(units: &mut Vec<Actor<S>>, volleys: &mut Vec<SpellVolley<S>>)
    requires
        volleys_wf(old(volleys)@),
    ensures
        (Barrage { units: final(units)@, volleys: final(volleys)@ }) == volleys_spec(
            old(units)@,
            old(volleys)@,
        ),
        final(units)@.len() == old(units)@.len(),
        volleys_wf(final(volleys)@),
{
    let n: usize = volleys.len();
    let ghost all = volleys@;
    let mut kept: Vec<SpellVolley<S>> = Vec::new();
    assert(all.take(0) =~= Seq::<SpellVolley<S>>::empty());
    for i in 0..n
        invariant
            n == all.len(),
            volleys@ == all,
            volleys_wf(all),
            volleys_wf(kept@),
            units@.len() == old(units)@.len(),
            (Barrage { units: units@, volleys: kept@ }) == volleys_spec(
                old(units)@,
                all.take(i as int),
            ),
    {
        assert(all.take(i + 1).drop_last() =~= all.take(i as int));
        let v: SpellVolley<S> = volleys[i];
        assert(all[i as int].wf());
        if v.next_in == 0 {
            strike(units, &v);
        }
        match later(v) {
            Some(w) => {
                kept.push(w);
            },
            None => {},
        }
    }
    assert(all.take(n as int) =~= all);
    *volleys = kept;
}

/// A volley after `t` ticks, if it is still there.
pub open spec fn after_ticks<S: Scalar>(v: SpellVolley<S>, t: nat) -> Option<SpellVolley<S>>
    decreases t,
{
    if t == 0 {
        Some(v)
    } else {
        match later(v) {
            Some(w) => after_ticks(w, (t - 1) as nat),
            None => None,
        }
    }
}

/// Whether a volley lands a wave in the tick that `t` others came before.
pub open spec fn lands_at<S: Scalar>(v: SpellVolley<S>, t: nat) -> bool {
    match after_ticks(v, t) {
        Some(w) => w.next_in == 0,
        None => false,
    }
}

/// The timetable of a volley: after the first wait a wave every interval, as many as there are.
pub proof fn volley_timetable<S: Scalar>(v: SpellVolley<S>, t: nat)
    requires
        v.wf(),
    ensures
        lands_at(v, t) == (t >= v.next_in && (t - v.next_in) % (v.interval as int) == 0 && (t
            - v.next_in) / (v.interval as int) < v.waves_left),
    decreases t,
{
    let k = v.interval as int;
    if t == 0 {
        if v.next_in == 0 {
            assert(0int % k == 0 && 0int / k == 0) by (nonlinear_arith)
                requires
                    k >= 1,
            ;
        }
    } else {
        match later(v) {
            Some(w) => {
                let s = (t - 1) as nat;
                volley_timetable(w, s);
                if v.next_in == 0 {
                    let d = s - w.next_in;
                    assert(d == t - k);
                    if t >= k {
                        lemma_fundamental_div_mod(d, k);
                        assert((d / k + 1) * k == k * (d / k) + k) by (nonlinear_arith);
                        lemma_fundamental_div_mod_converse(t as int, k, d / k + 1, d % k);
                    } else {
                        lemma_fundamental_div_mod_converse(t as int, k, 0, t as int);
                    }
                }
            },
            None => {
                if t >= k {
                    lemma_fundamental_div_mod(t as int, k);
                    assert(t as int / k >= 1) by (nonlinear_arith)
                        requires
                            t >= k,
                            k >= 1,
                            t == k * (t as int / k) + t as int % k,
                            0 <= t as int % k < k,
                    ;
                } else {
                    lemma_fundamental_div_mod_converse(t as int, k, 0, t as int);
                }
            },
        }
    }
}

/// The number of the tick in which a volley lands its last wave, counted from zero.
pub open spec fn last_wave<S: Scalar>(v: SpellVolley<S>) -> int {
    v.next_in + (v.waves_left - 1) * v.interval
}

/// A volley is there until its last wave, and gone after it.
pub proof fn volley_ends<S: Scalar>(v: SpellVolley<S>, t: nat)
    requires
        v.wf(),
    ensures
        after_ticks(v, t).is_some() <==> t <= last_wave(v),
    decreases t,
{
    assert((v.waves_left - 1) * v.interval >= 0) by (nonlinear_arith)
        requires
            v.waves_left >= 1,
            v.interval >= 1,
    ;
    if t > 0 {
        if let Some(w) = later(v) {
            volley_ends(w, (t - 1) as nat);
            if v.next_in == 0 {
                assert((v.waves_left - 1) * v.interval == (v.waves_left - 2) * v.interval + v.interval)
                    by (nonlinear_arith);
            }
        } else {
            assert((v.waves_left - 1) * v.interval == 0) by (nonlinear_arith)
                requires
                    v.waves_left == 1,
            ;
        }
    }
}

/// Whether a volley hurts a unit: one that is no tower, of the other side, and within its radius.
pub open spec fn exposed<S: Scalar>(a: Actor<S>, v: SpellVolley<S>) -> bool {
    &&& a.unit.kind != UnitKind::Tower
    &&& a.unit.faction != v.faction
    &&& a.pos.ground_distance(Vec3 { x: v.x, y: zero::<S>(), z: v.z }).at_most(v.radius)
}

/// A unit that stays where it is, after `t` ticks of a volley.
pub open spec fn rained_on<S: Scalar>(a: Actor<S>, v: SpellVolley<S>, t: nat) -> Actor<S>
    decreases t,
{
    if t == 0 {
        a
    } else {
        let b = if v.next_in == 0 { waved(a, &v) } else { a };
        match later(v) {
            Some(w) => rained_on(b, w, (t - 1) as nat),
            None => b,
        }
    }
}

/// A unit after the same damage some number of times.
pub open spec fn hurt_times<S: Scalar>(a: Actor<S>, damage: S, n: nat) -> Actor<S>
    decreases n,
{
    if n == 0 {
        a
    } else {
        hurt_times(a.hurt(damage), damage, (n - 1) as nat)
    }
}

/// In fixed point the damage of many waves is that of one, times their number.
pub proof fn damage_adds_up(a: Actor<Fixed>, damage: Fixed, n: nat)
    requires
        0 <= damage.raw,
        0 <= a.health.current.raw,
        n * damage.raw <= i64::MAX,
    ensures
        hurt_times(a, damage, n).health.current.raw == a.health.current.raw - n * damage.raw,
{
    assert(0 <= n * damage.raw) by (nonlinear_arith)
        requires
            0 <= damage.raw,
    ;
    lemma_damage_adds_up(a, damage, n);
}

proof fn lemma_damage_adds_up(a: Actor<Fixed>, damage: Fixed, n: nat)
    requires
        0 <= damage.raw,
        0 <= n * damage.raw,
        a.health.current.raw - n * damage.raw >= i64::MIN,
    ensures
        hurt_times(a, damage, n).health.current.raw == a.health.current.raw - n * damage.raw,
    decreases n,
{
    if n > 0 {
        let rest = (n - 1) as nat;
        assert(n * damage.raw == rest * damage.raw + damage.raw && rest * damage.raw >= 0)
            by (nonlinear_arith)
            requires
                n == rest + 1,
                damage.raw >= 0,
        ;
        lemma_damage_adds_up(a.hurt(damage), damage, rest);
    } else {
        assert(n * damage.raw == 0) by (nonlinear_arith)
            requires
                n == 0,
        ;
    }
}

/// Units and volleys after `t` ticks in which nothing but the volleys happens.
pub open spec fn rained_out<S: Scalar>(b: Barrage<S>, t: nat) -> Barrage<S>
    decreases t,
{
    if t == 0 {
        b
    } else {
        rained_out(volleys_spec(b.units, b.volleys), (t - 1) as nat)
    }
}

/// In all, a volley strikes what stays inside once for each of its waves, and what it does not
/// concern not at all.
pub proof fn volley_strikes_in_all<S: Scalar>(a: Actor<S>, v: SpellVolley<S>, t: nat)
    requires
        v.wf(),
        t > last_wave(v),
    ensures
        exposed(a, v) ==> rained_on(a, v, t) == hurt_times(a, v.damage, v.waves_left as nat),
        !exposed(a, v) ==> rained_on(a, v, t) == a,
    decreases t,
{
    assert((v.waves_left - 1) * v.interval >= 0) by (nonlinear_arith)
        requires
            v.waves_left >= 1,
            v.interval >= 1,
    ;
    let b = if v.next_in == 0 { waved(a, &v) } else { a };
    match later(v) {
        Some(w) => {
            if v.next_in == 0 {
                assert((v.waves_left - 1) * v.interval == (v.waves_left - 2) * v.interval + v.interval)
                    by (nonlinear_arith);
            }
            volley_strikes_in_all(b, w, (t - 1) as nat);
        },
        None => {
            reveal_with_fuel(hurt_times, 2);
        },
    }
}

/// A volley that nothing disturbs takes its course on every unit, and leaves no volley behind.
pub proof fn lone_volley<S: Scalar>(units: Seq<Actor<S>>, v: SpellVolley<S>, t: nat)
    requires
        v.wf(),
    ensures
        ({
            let b = rained_out(Barrage { units, volleys: seq![v] }, t);
            &&& b.units == units.map_values(|a: Actor<S>| rained_on(a, v, t))
            &&& b.volleys == (match after_ticks(v, t) {
                Some(w) => seq![w],
                None => Seq::empty(),
            })
        }),
    decreases t,
{
    let one = seq![v];
    let start = Barrage { units, volleys: one };
    if t == 0 {
        assert(units =~= units.map_values(|a: Actor<S>| rained_on(a, v, t)));
    } else {
        let s = (t - 1) as nat;
        reveal_with_fuel(volleys_spec, 2);
        assert(one.drop_last() =~= Seq::<SpellVolley<S>>::empty());
        assert(one.last() == v);
        let b = volleys_spec(units, one);
        match later(v) {
            Some(w) => {
                assert(b.volleys =~= seq![w]);
                lone_volley(b.units, w, s);
            },
            None => {
                assert(b.volleys =~= Seq::<SpellVolley<S>>::empty());
                lemma_no_volley(b, s);
            },
        }
        assert(rained_out(start, t).units =~= units.map_values(|a: Actor<S>| rained_on(a, v, t)));
    }
}

proof fn lemma_no_volley<S: Scalar>(b: Barrage<S>, t: nat)
    requires
        b.volleys.len() == 0,
    ensures
        rained_out(b, t) == b,
    decreases t,
{
    assert(b.volleys =~= Seq::<SpellVolley<S>>::empty());
    if t > 0 {
        lemma_no_volley(b, (t - 1) as nat);
    }
}

/// Volleys change nothing of units but their health, and never hurt towers or friends.
pub proof fn waves_spare_towers_and_friends<S: Scalar>(a: Actor<S>, v: &SpellVolley<S>)
    ensures
        a.unit.kind == UnitKind::Tower || a.unit.faction == v.faction ==> waved(a, v) == a,
        only_hurt(seq![a], seq![waved(a, v)]),
{
}

} // verus!
