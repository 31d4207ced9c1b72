//! How units move: how far in a tick, where to, and what keeps them from it.

use vstd::prelude::*;

use crate::buffs::{channels_spec, stat_spec, BuffModel};
use crate::combat::movement::{moving_spec, steering_goal};
use crate::combat::nearest::{lemma_quotient, lemma_root_exists, sane, sane_pos, FAR};
use crate::combat::picture::{names_are_found, MOST_UNITS};
use crate::combat::physics::{ashore, dried, push_out_spec, push_spec, pushed_spec};
use crate::combat::targeting::{snapshot, snapshot_is_complete};
use crate::combat::{nearest, UnitSnap};
use crate::components::{Actor, Charge, StatKind, UnitKind};
use crate::fixed::{abs, quotient, whole_root, Fixed};
use crate::identity::distinct;
use crate::laws::strikes::gap;
use crate::scalar::{one, zero, Scalar};
use crate::vector::Vec3;

verus! {

/// The speed of a unit on the move: under its buffs, and by its factor more once its charge is
/// wound up with this tick.
pub open spec fn gait<S: Scalar>(a: Actor<S>, status: Option<Seq<BuffModel<S>>>) -> S {
    let speed = stat_spec(status, a.mover->0, StatKind::MoveSpeed);
    match a.charge {
        Some(c) => if c.windup.at_most(c.progress.plus(S::ratio(1, 30))) {
            speed.times(c.speed_mult)
        } else {
            speed
        },
        None => speed,
    }
}

/// Whether a unit is to move on a target: it can move and may, and the target, which is `b`, is out
/// of reach from edge to edge.
pub open spec fn marches<S: Scalar>(a: Actor<S>, b: Actor<S>, status: Option<Seq<BuffModel<S>>>) -> bool {
    &&& a.mover.is_some()
    &&& a.attacker matches Some(att) && att.target == Some(b.entity) && !gap(a, b).at_most(
        att.attack_range.plus(S::ratio(5, 100)),
    )
    &&& !channels_spec(status).cannot_move
}

/// The way on the ground to a point.
pub open spec fn way_to<S: Scalar>(a: Actor<S>, goal: Vec3<S>) -> Vec3<S> {
    Vec3 { x: goal.x.minus(a.pos.x), y: zero(), z: goal.z.minus(a.pos.z) }
}

/// In one tick a unit goes as far towards its goal as its speed takes it in a thirtieth of a
/// second, but not past the goal, and no nearer to its target than it can strike from. Its charge
/// winds up by as much time; nothing else of it changes.
pub proof fn strides_follow_the_speed<S: Scalar>(
    units: Seq<Actor<S>>,
    next: u64,
    statuses: Seq<Option<Seq<BuffModel<S>>>>,
    i: int,
    k: int,
)
    requires
        distinct(units, next),
        units.len() <= MOST_UNITS,
        0 <= i < units.len(),
        0 <= k < units.len(),
        marches(units[i], units[k], statuses[i]),
    ensures
        ({
            let (a, b) = (units[i], units[k]);
            let goal = steering_goal(a.pos, b.pos, a.flying);
            let way = way_to(a, goal);
            let far = way.length();
            let stop = (a.attacker->0).attack_range.plus(a.unit.radius).plus(b.unit.radius);
            let step = gait(a, statuses[i]).times(S::ratio(1, 30));
            let left = if goal.same(b.pos) { far.minus(stop).most(zero()) } else { far };
            let after = moving_spec(units, statuses, snapshot(units))[i];
            &&& far.at_most(S::ratio(1, 10000)) ==> after == a
            &&& !far.at_most(S::ratio(1, 10000)) ==> {
                &&& after.pos == a.pos.plus(way.normalized().times(step.least(left)))
                &&& after == (Actor { pos: after.pos, charge: after.charge, ..a })
                &&& a.charge matches Some(c) ==> after.charge == Some(
                    Charge { progress: c.progress.plus(S::ratio(1, 30)), ..c },
                )
                &&& a.charge.is_none() ==> after.charge.is_none()
            }
        }),
{
    snapshot_is_complete(units);
    names_are_found(units, next, units[k].entity);
}

/// Who has its target in reach, or none, or may not move, stays where it is.
pub proof fn who_does_not_march_stays<S: Scalar>(
    units: Seq<Actor<S>>,
    next: u64,
    statuses: Seq<Option<Seq<BuffModel<S>>>>,
    i: int,
)
    requires
        distinct(units, next),
        units.len() <= MOST_UNITS,
        0 <= i < units.len(),
        forall|k: int| 0 <= k < units.len() ==> !marches(units[i], #[trigger] units[k], statuses[i]),
    ensures
        moving_spec(units, statuses, snapshot(units)).len() == units.len(),
        moving_spec(units, statuses, snapshot(units))[i].pos == units[i].pos,
{
    let a = units[i];
    snapshot_is_complete(units);
    if a.mover.is_some() && a.attacker.is_some() && (a.attacker->0).target.is_some() {
        let e = (a.attacker->0).target->0;
        names_are_found(units, next, e);
        if exists|k: int| 0 <= k < units.len() && (#[trigger] units[k]).entity == e {
            let k = choose|k: int| 0 <= k < units.len() && (#[trigger] units[k]).entity == e;
            assert(!marches(a, units[k], statuses[i]));
        }
    }
}

/// The share of a way that a step covers, by integers.
proof fn lemma_share(x: int, l: int, s: int)
    requires
        -0x40_0000_0000 <= x <= 0x40_0000_0000,
        0 < l <= 0x100_0000_0000,
        0 <= s <= l,
    ensures
        ({
            let inv = quotient(65536int * 65536int, l);
            let n = quotient(x * inv, 65536);
            let d = quotient(n * s, 65536);
            &&& 0 <= inv <= 65536 * 65536
            &&& x >= 0 ==> 0 <= n && 0 <= d
            &&& x <= 0 ==> n <= 0 && d <= 0
            &&& abs(n) <= 0x40_0000_0000 * 65536
            &&& abs(d) * l <= abs(x) * s
            &&& abs(d) <= abs(x)
        }),
{
    let big = 65536 * 65536int;
    let inv = big / l;
    vstd::arithmetic::div_mod::lemma_fundamental_div_mod(big, l);
    vstd::arithmetic::div_mod::lemma_div_pos_is_pos(big, l);
    assert(quotient(65536int * 65536int, l) == inv);
    assert(inv * l <= big) by (nonlinear_arith)
        requires
            big == l * inv + big % l,
            big % l >= 0,
    ;
    assert(inv <= big) by (nonlinear_arith)
        requires
            inv * l <= big,
            l >= 1,
            inv >= 0,
    ;
    let y = abs(x);
    assert(abs(x * inv) == y * inv) by (nonlinear_arith)
        requires
            y == x || y == -x,
            y >= 0,
            inv >= 0,
    ;
    assert(x >= 0 ==> x * inv >= 0) by (nonlinear_arith)
        requires
            inv >= 0,
    ;
    assert(x <= 0 ==> x * inv <= 0) by (nonlinear_arith)
        requires
            inv >= 0,
    ;
    let n = quotient(x * inv, 65536);
    let m = (y * inv) / 65536;
    assert(y * inv >= 0) by (nonlinear_arith)
        requires
            y >= 0,
            inv >= 0,
    ;
    assert(m >= 0 && m * 65536 <= y * inv);
    assert(n == m || n == -m);
    assert(abs(n) == m);
    assert(m <= y * 65536) by (nonlinear_arith)
        requires
            m * 65536 <= y * inv,
            inv <= 65536 * 65536,
            y >= 0,
    ;
    assert(abs(n * s) == m * s) by (nonlinear_arith)
        requires
            n == m || n == -m,
            m >= 0,
            s >= 0,
    ;
    assert(n >= 0 ==> n * s >= 0) by (nonlinear_arith)
        requires
            s >= 0,
    ;
    assert(n <= 0 ==> n * s <= 0) by (nonlinear_arith)
        requires
            s >= 0,
    ;
    assert(m * s >= 0) by (nonlinear_arith)
        requires
            m >= 0,
            s >= 0,
    ;
    let d = quotient(n * s, 65536);
    let e = (m * s) / 65536;
    assert(abs(d) == e);
    assert(e >= 0 && e * 65536 <= m * s);
    assert(e * l <= y * s) by (nonlinear_arith)
        requires
            e * 65536 <= m * s,
            m * 65536 <= y * inv,
            inv * l <= 65536 * 65536,
            e >= 0,
            m >= 0,
            s >= 0,
            l >= 1,
            y >= 0,
            inv >= 0,
    {
        assert(e * 65536 * 65536 <= m * s * 65536);
        assert(m * s * 65536 == (m * 65536) * s);
        assert((m * 65536) * s <= (y * inv) * s);
        assert(e * 65536 * 65536 * l <= (y * inv) * s * l);
        assert((y * inv) * s * l == (y * s) * (inv * l));
        assert((y * s) >= 0);
        assert((y * s) * (inv * l) <= (y * s) * (65536 * 65536));
        assert(e * l * (65536 * 65536) <= (y * s) * (65536 * 65536));
    }
    assert(e <= y) by (nonlinear_arith)
        requires
            e * l <= y * s,
            s <= l,
            l >= 1,
            y >= 0,
            e >= 0,
    ;
}

pub proof fn lemma_numbers()
    ensures
        Fixed::ratio(1, 30).raw == 2184,
        Fixed::ratio(1, 10000).raw == 6,
        Fixed::ratio(0, 1).raw == 0,
        Fixed::ratio(1, 1).raw == 65536,
        Fixed::ratio(4, 1).raw == 262144,
        Fixed::ratio(450, 100).raw == 294912,
        Fixed::ratio(150, 100).raw == 98304,
        Fixed::ratio(125, 100).raw == 81920,
        Fixed::ratio(50, 100).raw == 32768,
{
    lemma_quotient(65536, 30, 2184);
    lemma_quotient(65536, 10000, 6);
    lemma_quotient(0, 1, 0);
    lemma_quotient(65536, 1, 65536);
    lemma_quotient(262144, 1, 262144);
    lemma_quotient(450int * 65536, 100, 294912);
    lemma_quotient(150int * 65536, 100, 98304);
    lemma_quotient(125int * 65536, 100, 81920);
    lemma_quotient(50int * 65536, 100, 32768);
}

/// The length of a way within reason.
pub proof fn lemma_way_length(x: Fixed, z: Fixed)
    requires
        -0x40_0000_0000 <= x.raw <= 0x40_0000_0000,
        -0x40_0000_0000 <= z.raw <= 0x40_0000_0000,
    ensures
        0 <= (Vec3 { x, y: zero::<Fixed>(), z }).length().raw <= 0x100_0000_0000,
{
    lemma_numbers();
    nearest::lemma_square(x.raw as int);
    nearest::lemma_square(z.raw as int);
    nearest::lemma_square(0);
    let w = Vec3 { x, y: zero::<Fixed>(), z };
    let q = w.length_squared().raw as int;
    assert(0 <= q <= 0x2000_0000_0000_0000);
    let n = q * 65536;
    lemma_root_exists(n);
    let r = whole_root(n);
    assert(r <= 0x100_0000_0000) by (nonlinear_arith)
        requires
            r * r <= n,
            n <= 0x2000_0000_0000_0000 * 65536,
            r >= 0,
    ;
}

/// A step along a way in fixed point: each coordinate goes the same way as the whole, and by no
/// more than its share of the step.
pub proof fn lemma_step_along(p: Vec3<Fixed>, x: Fixed, z: Fixed, s: Fixed)
    requires
        sane(p.x),
        sane(p.z),
        -0x40_0000_0000 <= x.raw <= 0x40_0000_0000,
        -0x40_0000_0000 <= z.raw <= 0x40_0000_0000,
        0 <= s.raw <= (Vec3 { x, y: zero::<Fixed>(), z }).length().raw,
        0 < (Vec3 { x, y: zero::<Fixed>(), z }).length().raw,
    ensures
        ({
            let w = Vec3 { x, y: zero::<Fixed>(), z };
            let l = w.length().raw as int;
            let after = p.plus(w.normalized().times(s));
            let (dx, dz) = (after.x.raw - p.x.raw, after.z.raw - p.z.raw);
            &&& x.raw >= 0 ==> dx >= 0
            &&& x.raw <= 0 ==> dx <= 0
            &&& z.raw >= 0 ==> dz >= 0
            &&& z.raw <= 0 ==> dz <= 0
            &&& abs(dx) * l <= abs(x.raw as int) * s.raw
            &&& abs(dz) * l <= abs(z.raw as int) * s.raw
            &&& abs(dx) <= abs(x.raw as int)
            &&& abs(dz) <= abs(z.raw as int)
        }),
{
    lemma_numbers();
    lemma_way_length(x, z);
    let w = Vec3 { x, y: zero::<Fixed>(), z };
    let l = w.length().raw as int;
    lemma_share(x.raw as int, l, s.raw as int);
    lemma_share(z.raw as int, l, s.raw as int);
    let inv = one::<Fixed>().over(w.length());
    assert(inv.raw == quotient(65536int * 65536int, l));
    let n = w.normalized();
    assert(n.x.raw == quotient(x.raw * inv.raw, 65536));
    assert(n.z.raw == quotient(z.raw * inv.raw, 65536));
    let d = n.times(s);
    assert(d.x.raw == quotient(n.x.raw * s.raw, 65536));
    assert(d.z.raw == quotient(n.z.raw * s.raw, 65536));
}

/// In fixed point: in a tick no unit gets further, in either direction of the ground, than its
/// share of a thirtieth of its speed; it never moves away from its goal nor past it.
pub proof fn nobody_outruns_its_speed(
    units: Seq<Actor<Fixed>>,
    next: u64,
    statuses: Seq<Option<Seq<BuffModel<Fixed>>>>,
    i: int,
    k: int,
)
    requires
        distinct(units, next),
        units.len() <= MOST_UNITS,
        0 <= i < units.len(),
        0 <= k < units.len(),
        marches(units[i], units[k], statuses[i]),
        sane_pos(units[i].pos),
        sane_pos(steering_goal(units[i].pos, units[k].pos, units[i].flying)),
        0 <= gait(units[i], statuses[i]).raw <= FAR,
        0 <= (units[i].attacker->0).attack_range.raw <= FAR,
        0 <= units[i].unit.radius.raw <= FAR,
        0 <= units[k].unit.radius.raw <= FAR,
    ensures
        ({
            let (a, b) = (units[i], units[k]);
            let goal = steering_goal(a.pos, b.pos, a.flying);
            let after = moving_spec(units, statuses, snapshot(units))[i];
            let l = way_to(a, goal).length().raw as int;
            let v = gait(a, statuses[i]).raw as int;
            let (wx, wz) = (goal.x.raw - a.pos.x.raw, goal.z.raw - a.pos.z.raw);
            let (dx, dz) = (after.pos.x.raw - a.pos.x.raw, after.pos.z.raw - a.pos.z.raw);
            &&& 30 * (abs(dx) * l) <= abs(wx) * v
            &&& 30 * (abs(dz) * l) <= abs(wz) * v
            &&& wx >= 0 ==> 0 <= dx <= wx
            &&& wx <= 0 ==> wx <= dx <= 0
            &&& wz >= 0 ==> 0 <= dz <= wz
            &&& wz <= 0 ==> wz <= dz <= 0
        }),
{
    let (a, b) = (units[i], units[k]);
    let goal = steering_goal(a.pos, b.pos, a.flying);
    strides_follow_the_speed(units, next, statuses, i, k);
    lemma_numbers();
    let way = way_to(a, goal);
    let far = way.length();
    lemma_way_length(way.x, way.z);
    let v = gait(a, statuses[i]);
    let step = v.times(Fixed::ratio(1, 30));
    let q = v.raw * 2184 / 65536;
    assert(0 <= v.raw * 2184);
    assert(step.raw == q);
    assert(30 * q <= v.raw);
    let stop = (a.attacker->0).attack_range.plus(a.unit.radius).plus(b.unit.radius);
    let left = if goal.same(b.pos) { far.minus(stop).most(zero()) } else { far };
    let s = step.least(left);
    let (x, z) = (abs(way.x.raw as int), abs(way.z.raw as int));
    if far.raw > 6 {
        assert(0 <= s.raw <= far.raw);
        lemma_step_along(a.pos, way.x, way.z, s);
        assert(30 * (x * s.raw) <= x * v.raw) by (nonlinear_arith)
            requires
                x >= 0,
                30 * s.raw <= v.raw,
        ;
        assert(30 * (z * s.raw) <= z * v.raw) by (nonlinear_arith)
            requires
                z >= 0,
                30 * s.raw <= v.raw,
        ;
    } else {
        assert(x * v.raw >= 0 && z * v.raw >= 0) by (nonlinear_arith)
            requires
                x >= 0,
                z >= 0,
                v.raw >= 0,
        ;
        assert(moving_spec(units, statuses, snapshot(units))[i] == a);
        let l = far.raw as int;
        assert(abs(0) * l == 0);
    }
}

/// Who flies, or has the target on its side of the river, heads straight for it. Who has to cross
/// heads for the mouth of a bridge on its own side, of the nearer one; once in the lane of the
/// bridge, straight along it to the target's depth. In fixed point, by 65536ths.
pub proof fn walkers_cross_by_the_nearer_bridge(pos: Vec3<Fixed>, target: Vec3<Fixed>, flying: bool)
    requires
        sane_pos(pos),
        sane_pos(target),
    ensures
        ({
            let goal = steering_goal(pos, target, flying);
            let crossing = !flying && (pos.z.raw < 0) != (target.z.raw < 0);
            let (left, right) = (abs(pos.x.raw + 294912), abs(pos.x.raw - 294912));
            let nearer = if left < right { left } else { right };
            &&& !crossing ==> goal == target
            &&& crossing && nearer < 98304 ==> goal.x == pos.x && goal.z == target.z
            &&& crossing && nearer >= 98304 ==> {
                &&& goal.x.raw == -294912 || goal.x.raw == 294912
                &&& abs(pos.x.raw - goal.x.raw) == nearer
                &&& goal.z.raw == (if pos.z.raw < 0 { -114688int } else { 114688 })
            }
        }),
{
    lemma_numbers();
    lemma_quotient(65536int * 114688, 65536, 114688);
    assert(quotient(-65536int * 114688, 65536) == -114688) by {
        assert(abs(-65536int * 114688) == 65536int * 114688);
    }
    assert(Fixed::ratio(125, 100).plus(Fixed::ratio(50, 100)).raw == 114688);
}

/// Nobody on the ground is left in the river: who is in it, off the bridges, is put on the nearer
/// bank at the same place along it; who is not is left alone. In fixed point, by 65536ths.
pub proof fn river_is_cleared(p: Vec3<Fixed>)
    requires
        sane_pos(p),
    ensures
        ({
            let wet = abs(p.z.raw as int) < 81920 && abs(p.x.raw + 294912) >= 98304 && abs(p.x.raw - 294912)
                >= 98304;
            &&& !wet ==> ashore(p) == p
            &&& wet ==> ashore(p).x == p.x && ashore(p).y == p.y && ashore(p).z.raw == (if p.z.raw < 0 {
                -81920int
            } else {
                81920
            })
        }),
{
    lemma_numbers();
    lemma_quotient(65536int * 81920, 65536, 81920);
    assert(quotient(-65536int * 81920, 65536) == -81920) by {
        assert(abs(-65536int * 81920) == 65536int * 81920);
    }
}

/// Only troops on the ground are taken out of the river.
pub proof fn flyers_and_structures_may_be_over_the_river<S: Scalar>(a: Actor<S>)
    ensures
        dried(a) == (if a.unit.kind == UnitKind::Troop && !a.flying {
            Actor { pos: ashore(a.pos), ..a }
        } else {
            a
        }),
{
}

/// A structure pushes a body that it overlaps straight away from its middle, by no more than they
/// overlap in either direction of the ground, and leaves alone what it does not overlap.
pub proof fn structures_push_outwards(pos: Vec3<Fixed>, radius: Fixed, center: Vec3<Fixed>, wide: Fixed)
    requires
        sane_pos(pos),
        sane_pos(center),
        0 <= radius.raw <= FAR,
        0 <= wide.raw <= FAR,
    ensures
        ({
            let after = push_out_spec(pos, radius, center, wide);
            let (x, z) = (pos.x.raw - center.x.raw, pos.z.raw - center.z.raw);
            let l = (Vec3 { x: Fixed { raw: x as i64 }, y: zero::<Fixed>(), z: Fixed { raw: z as i64 } }).length().raw as int;
            let (dx, dz) = (after.x.raw - pos.x.raw, after.z.raw - pos.z.raw);
            let deep = wide.raw + radius.raw - l;
            &&& deep <= 0 || l <= 6 ==> after == pos
            &&& deep > 0 && l > 6 && deep <= l ==> {
                &&& x >= 0 ==> dx >= 0
                &&& x <= 0 ==> dx <= 0
                &&& z >= 0 ==> dz >= 0
                &&& z <= 0 ==> dz <= 0
                &&& abs(dx) * l <= abs(x) * deep
                &&& abs(dz) * l <= abs(z) * deep
            }
            &&& after.y == pos.y || deep > 0
        }),
{
    lemma_numbers();
    let d = pos.minus(center).flat();
    lemma_way_length(d.x, d.z);
    let l = d.length();
    let deep = wide.plus(radius).minus(l);
    if l.raw > 6 && 0 < deep.raw <= l.raw {
        lemma_step_along(pos, d.x, d.z, deep);
    }
}

/// Troops that overlap push each other apart: the push on one points away from the other, and the
/// nearer they are the stronger it is; who does not overlap does not push.
pub proof fn pushes_point_apart(a: UnitSnap<Fixed>, b: UnitSnap<Fixed>)
    requires
        sane_pos(a.pos),
        sane_pos(b.pos),
        0 <= a.radius.raw <= FAR,
        0 <= b.radius.raw <= FAR,
    ensures
        ({
            let (x, z) = (a.pos.x.raw - b.pos.x.raw, a.pos.z.raw - b.pos.z.raw);
            let l = a.pos.minus(b.pos).flat().length().raw as int;
            &&& push_spec(a, b).is_some() <==> 6 < l < a.radius.raw + b.radius.raw
            &&& push_spec(a, b) matches Some(f) ==> {
                &&& x >= 0 ==> f.x.raw >= 0
                &&& x <= 0 ==> f.x.raw <= 0
                &&& z >= 0 ==> f.z.raw >= 0
                &&& z <= 0 ==> f.z.raw <= 0
            }
        }),
{
    lemma_numbers();
    let d = a.pos.minus(b.pos).flat();
    lemma_way_length(d.x, d.z);
    let l = d.length().raw as int;
    if l > 6 {
        lemma_share(d.x.raw as int, l, 0);
        lemma_share(d.z.raw as int, l, 0);
        let n = d.normalized();
        let inv = one::<Fixed>().over(d.length());
        assert(inv.raw == quotient(65536int * 65536int, l));
        assert(n.x.raw == quotient(d.x.raw * inv.raw, 65536));
        assert(n.z.raw == quotient(d.z.raw * inv.raw, 65536));
        vstd::arithmetic::div_mod::lemma_div_pos_is_pos(abs(n.x.raw * 65536), l);
        vstd::arithmetic::div_mod::lemma_div_pos_is_pos(abs(n.z.raw * 65536), l);
    }
}

/// The crowd moves nobody by more than four units a second along the force, whatever its strength
/// is: a body goes where the force points, by a thirtieth of a force of at most four.
pub proof fn pushes_are_capped<S: Scalar>(a: Actor<S>, force: Vec3<S>)
    ensures
        ({
            let d = Vec3 { x: force.x, y: zero(), z: force.z };
            let size = d.length();
            let after = pushed_spec(a, force);
            &&& after == (Actor { pos: after.pos, ..a })
            &&& !S::ratio(1, 10000).less(size) ==> after == a
            &&& S::ratio(1, 10000).less(size) && !S::ratio(4, 1).less(size) ==> after.pos == a.pos.plus(
                d.times(S::ratio(1, 30)),
            )
            &&& S::ratio(1, 10000).less(size) && S::ratio(4, 1).less(size) ==> after.pos == a.pos.plus(
                d.times(S::ratio(4, 1).over(size)).times(S::ratio(1, 30)),
            )
        }),
{
}

} // verus!
