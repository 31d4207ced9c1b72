//! Distances and directions, in fixed point by 65536ths.

use vstd::prelude::*;

use crate::combat::{edge_dist, nearest};
use crate::combat::nearest::{lemma_distances, lemma_root_exists, sane_pos, FAR};
use crate::fixed::{is_root, whole_root, Fixed};
use crate::laws::strides::{lemma_numbers, lemma_way_length};
use crate::vector::Vec3;

verus! {

/// Sums and differences are taken coordinate by coordinate; a point on the ground keeps its place, and
/// one that is raised keeps it as well.
pub proof fn points_add_up(p: Vec3<Fixed>, q: Vec3<Fixed>, h: Fixed)
    requires
        sane_pos(p),
        sane_pos(q),
        -FAR <= h.raw <= FAR,
    ensures
        p.plus(q).x.raw == p.x.raw + q.x.raw && p.plus(q).y.raw == p.y.raw + q.y.raw && p.plus(q).z.raw == p.z.raw + q.z.raw,
        p.minus(q).x.raw == p.x.raw - q.x.raw && p.minus(q).y.raw == p.y.raw - q.y.raw && p.minus(q).z.raw == p.z.raw
            - q.z.raw,
        p.plus(q).minus(q) == p,
        p.flat().x == p.x && p.flat().y.raw == 0 && p.flat().z == p.z,
        p.raised(h).x == p.x && p.raised(h).y.raw == p.y.raw + h.raw && p.raised(h).z == p.z,
        p.same(q) <==> p == q,
{
    lemma_numbers();
}

/// The square of a distance is the sum of the squares of the differences, and does not depend on
/// where one stands; it is nothing from a point to itself.
pub proof fn distances_are_pythagorean(p: Vec3<Fixed>, q: Vec3<Fixed>)
    requires
        sane_pos(p),
        sane_pos(q),
    ensures
        ({
            let (dx, dy, dz) = (p.x.raw - q.x.raw, p.y.raw - q.y.raw, p.z.raw - q.z.raw);
            &&& p.distance_squared(q).raw == dx * dx / 65536 + dy * dy / 65536 + dz * dz / 65536
            &&& p.distance_squared(q) == q.distance_squared(p)
            &&& p.distance_squared(p).raw == 0
        }),
{
    lemma_distances(p, q);
    lemma_distances(q, p);
    lemma_distances(p, p);
    let (dx, dy, dz) = (p.x.raw - q.x.raw, p.y.raw - q.y.raw, p.z.raw - q.z.raw);
    assert((-dx) * (-dx) == dx * dx && (-dy) * (-dy) == dy * dy && (-dz) * (-dz) == dz * dz) by (nonlinear_arith);
}

/// The distance on the ground is the root of the squares of the differences across and along, up to
/// a 65536th; heights do not count. From edge to edge it is less by both radii.
pub proof fn ground_distances_are_roots(p: Vec3<Fixed>, q: Vec3<Fixed>, a: Fixed, b: Fixed)
    requires
        sane_pos(p),
        sane_pos(q),
        0 <= a.raw <= FAR,
        0 <= b.raw <= FAR,
    ensures
        ({
            let (dx, dz) = (p.x.raw - q.x.raw, p.z.raw - q.z.raw);
            let sum = (dx * dx / 65536 + dz * dz / 65536) * 65536;
            let d = p.ground_distance(q).raw as int;
            &&& 0 <= d
            &&& d * d <= sum < (d + 1) * (d + 1)
            &&& edge_dist(p, a, q, b).raw == d - a.raw - b.raw
        }),
{
    lemma_distances(p, q);
    lemma_numbers();
    let w = p.minus(q).flat();
    lemma_way_length(w.x, w.z);
    let (dx, dz) = (p.x.raw - q.x.raw, p.z.raw - q.z.raw);
    nearest::lemma_square(dx);
    nearest::lemma_square(dz);
    let n = w.length_squared().raw * 65536;
    lemma_root_exists(n);
    assert(is_root(n, whole_root(n)));
    let r = whole_root(n);
    assert(r <= 0x100_0000_0000) by (nonlinear_arith)
        requires
            r * r <= n,
            n <= 0x2000_0000_0000_0000 * 65536,
            r >= 0,
    ;
    if n == 0 {
        assert(r == 0) by (nonlinear_arith)
            requires
                r * r <= n,
                n == 0,
                r >= 0,
        ;
    }
    assert(w.length().raw == r);
}

} // verus!
