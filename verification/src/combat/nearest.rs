//! The grid finds what a look at everyone would find.
//!
//! Shown for [`Fixed`], whose arithmetic is exact enough to reason about geometry: on a field of
//! any reasonable size no troop that a seeker accepts is nearer than the one that the grid gives.

use vstd::prelude::*;

use super::grid::{
    cell_gap, cell_of, column, found, gather, gather_row, high, in_circle_spec, low, nearest_of, reach,
    ring_cells, rings_are_exact, row, scan_cells, scan_finds_nearest, search, settled, Seeker,
};
use super::targeting::{grid_of, nearest_monster_spec};
use super::UnitSnap;
use crate::components::UnitKind;
use crate::constants::{grid_cell, grid_min_x, grid_min_z, monster_radius_max, COLS, ROWS};
use crate::fixed::{abs, is_root, quotient, whole_root, Fixed};
use crate::scalar::{zero, Scalar};
use crate::vector::Vec3;

verus! {

/// Two million units in either direction.
pub const FAR: i64 = 0x20_0000_0000;

/// A coordinate within reason.
pub open spec fn sane(x: Fixed) -> bool {
    -FAR <= x.raw <= FAR
}

/// A position within reason.
pub open spec fn sane_pos(p: Vec3<Fixed>) -> bool {
    sane(p.x) && sane(p.y) && sane(p.z)
}

/// The cell coordinate of an offset from the edge.
pub open spec fn slot(u: int, n: int) -> int {
    if u < 0 {
        0
    } else if u / 131072 >= n {
        n - 1
    } else {
        u / 131072
    }
}

pub proof fn lemma_quotient(a: int, b: int, q: int)
    requires
        0 <= a,
        0 < b,
        q * b <= a < q * b + b,
    ensures
        quotient(a, b) == q,
{
    assert(abs(a) == a && abs(b) == b);
    vstd::arithmetic::div_mod::lemma_fundamental_div_mod_converse(a, b, q, a - q * b);
}

proof fn lemma_constants()
    ensures
        grid_min_x::<Fixed>().raw == -1048576,
        grid_min_z::<Fixed>().raw == -1572864,
        grid_cell::<Fixed>().raw == 131072,
        monster_radius_max::<Fixed>().raw == 98304,
        zero::<Fixed>().raw == 0,
{
    lemma_quotient(16int * 65536, 1, 1048576);
    lemma_quotient(24int * 65536, 1, 1572864);
    lemma_quotient(2int * 65536, 1, 131072);
    lemma_quotient(150int * 65536, 100, 98304);
    lemma_quotient(0int * 65536, 1, 0);
}

proof fn lemma_slot(x: Fixed)
    requires
        sane(x),
    ensures
        column(x) == slot(x.raw + 1048576, 16),
        row(x) == slot(x.raw + 1572864, 24),
{
    let u = x.raw + 1048576;
    let v = x.raw + 1572864;
    lemma_constants();
    lemma_halved(u);
    lemma_halved(v);
}

proof fn lemma_halved(u: int)
    requires
        -0x40_0000_0000 <= u <= 0x40_0000_0000,
    ensures
        u >= 0 ==> quotient(quotient(u * 65536, 131072), 65536) == u / 131072,
        u < 0 ==> quotient(quotient(u * 65536, 131072), 65536) <= 0,
        -0x40_0000_0000 <= quotient(u * 65536, 131072) <= 0x40_0000_0000,
        -0x40_0000_0000 <= quotient(quotient(u * 65536, 131072), 65536) <= 0x40_0000_0000,
{
    if u >= 0 {
        assert((u * 65536) / 131072 == u / 2);
        assert((u / 2) / 65536 == u / 131072);
    } else {
        let w = -u;
        assert((w * 65536) / 131072 == w / 2);
        assert(abs(u * 65536) == w * 65536);
    }
}

/// Units whose cells are `g` apart are more than `g - 1` cells apart.
proof fn lemma_gap(a: Fixed, b: Fixed, n: int, base: int)
    requires
        sane(a),
        sane(b),
        n == 16 && base == 1048576 || n == 24 && base == 1572864,
    ensures
        ({
            let g = slot(a.raw + base, n) - slot(b.raw + base, n);
            &&& g > 0 ==> a.raw - b.raw > 131072 * (g - 1)
            &&& g < 0 ==> b.raw - a.raw > 131072 * (-g - 1)
        }),
{
}

pub proof fn lemma_square(d: int)
    requires
        -0x40_0000_0000 <= d <= 0x40_0000_0000,
    ensures
        (Fixed { raw: d as i64 }).times(Fixed { raw: d as i64 }).raw == d * d / 65536,
        0 <= d * d / 65536 <= 0x1000_0000_0000_0000,
        d * d / 65536 * 65536 > d * d - 65536,
{
    assert(0 <= d * d <= 0x40_0000_0000 * 0x40_0000_0000) by (nonlinear_arith)
        requires
            -0x40_0000_0000 <= d <= 0x40_0000_0000,
    ;
}

proof fn lemma_square_grows(d: int, k: int)
    requires
        0 <= k,
        d > 131072 * k || d < -131072 * k,
    ensures
        d * d / 65536 >= 262144 * k * k,
{
    assert(d * d >= (131072 * k) * (131072 * k)) by (nonlinear_arith)
        requires
            0 <= k,
            d > 131072 * k || d < -131072 * k,
    ;
    assert((131072 * k) * (131072 * k) == 65536 * (262144 * k * k)) by (nonlinear_arith);
    let e = 262144 * k * k;
    assert(d * d >= 65536 * e);
}

/// The square of the distance, and that of the distance on the ground, are what they should be.
pub proof fn lemma_distances(p: Vec3<Fixed>, q: Vec3<Fixed>)
    requires
        sane_pos(p),
        sane_pos(q),
    ensures
        ({
            let (dx, dy, dz) = (p.x.raw - q.x.raw, p.y.raw - q.y.raw, p.z.raw - q.z.raw);
            &&& p.distance_squared(q).raw == dx * dx / 65536 + dy * dy / 65536 + dz * dz / 65536
            &&& p.minus(q).flat().length_squared().raw == dx * dx / 65536 + dz * dz / 65536
            &&& p.distance_squared(q).raw >= dx * dx / 65536
            &&& p.distance_squared(q).raw >= dz * dz / 65536
        }),
{
    let (dx, dy, dz) = (p.x.raw - q.x.raw, p.y.raw - q.y.raw, p.z.raw - q.z.raw);
    lemma_square(dx);
    lemma_square(dy);
    lemma_square(dz);
    lemma_square(0);
    lemma_constants();
}

/// A unit beyond ring `r` is no nearer than the bound of that ring.
proof fn lemma_beyond(p: Vec3<Fixed>, q: Vec3<Fixed>, r: int)
    requires
        sane_pos(p),
        sane_pos(q),
        0 <= r <= 24,
        cell_gap(column(p.x), row(p.z), column(q.x), row(q.z)) > r,
    ensures
        p.distance_squared(q).raw >= 262144 * r * r,
{
    let (dx, dz) = (p.x.raw - q.x.raw, p.z.raw - q.z.raw);
    lemma_distances(p, q);
    lemma_slot(p.x);
    lemma_slot(p.z);
    lemma_slot(q.x);
    lemma_slot(q.z);
    lemma_gap(p.x, q.x, 16, 1048576);
    lemma_gap(p.z, q.z, 24, 1572864);
    if dx > 131072 * r || dx < -131072 * r {
        lemma_square_grows(dx, r);
    } else {
        lemma_square_grows(dz, r);
    }
}

proof fn lemma_bound(r: int)
    requires
        0 <= r <= 24,
    ensures
        Fixed::ratio(r as i64, 1).times(grid_cell()).times(
            Fixed::ratio(r as i64, 1).times(grid_cell()),
        ).raw == 262144 * r * r,
{
    lemma_constants();
    lemma_quotient(r * 65536, 1, r * 65536);
    assert((r * 65536) * 131072 == (r * 131072) * 65536) by (nonlinear_arith);
    lemma_quotient((r * 65536) * 131072, 65536, r * 131072);
    assert(Fixed::ratio(r as i64, 1).times(grid_cell()).raw == r * 131072);
    lemma_square(r * 131072);
    assert((r * 131072) * (r * 131072) == (262144 * r * r) * 65536) by (nonlinear_arith);
}

/// How much the cells may cut off a length: nothing, unless it ends with a cell.
pub open spec fn margin(m: int) -> int {
    if m % 131072 <= 1 { m % 131072 + 1 } else { 0 }
}

/// How many rings a radius reaches.
proof fn lemma_reach(m: Fixed)
    requires
        0 <= m.raw <= 0x60_0000_0000,
    ensures
        reach(m) == 24 || m.raw - margin(m.raw as int) < 131072 * reach(m),
        0 <= reach(m) <= 24,
        m.raw > 1 ==> reach(m) > 0,
{
    let h = m.raw as int / 2;
    lemma_constants();
    assert((m.raw * 65536) / 131072 == h);
    assert(m.over(grid_cell()).raw == h);
    let c = -((-h) / 65536);
    assert(c * 65536 >= h && c >= 0);
    let (k, e) = (m.raw as int / 131072, m.raw as int % 131072);
    assert(m.raw == 131072 * k + e);
    assert(h == 65536 * k + e / 2);
    assert(e > 1 ==> c >= k + 1);
    assert(c >= k);
    assert(m.over(grid_cell()).ceiling().raw == c * 65536);
    assert(quotient(c * 65536, 65536) == c) by {
        assert((c * 65536) / 65536 == c);
    }
}

proof fn lemma_root_lower(n: int, r: int, d: int)
    requires
        is_root(n, r),
        0 <= d,
        d * d <= n,
    ensures
        r >= d,
{
    assert(r >= d) by (nonlinear_arith)
        requires
            0 <= r,
            0 <= d,
            d * d <= n,
            n < (r + 1) * (r + 1),
    ;
}

pub proof fn lemma_root_exists(n: int)
    requires
        0 <= n,
    ensures
        is_root(n, whole_root(n)),
    decreases n,
{
    if n == 0 {
        assert(is_root(0, 0));
    } else {
        lemma_root_exists(n - 1);
        let r = whole_root(n - 1);
        if n < (r + 1) * (r + 1) {
            assert(is_root(n, r));
        } else {
            assert((r + 1) * (r + 1) <= n);
            assert(n < (r + 2) * (r + 2)) by (nonlinear_arith)
                requires
                    0 <= r,
                    n - 1 < (r + 1) * (r + 1),
            ;
            assert(is_root(n, r + 1));
        }
    }
}

/// The distance on the ground is at most one part in 65536 below each of its coordinates.
pub proof fn lemma_ground_distance(p: Vec3<Fixed>, q: Vec3<Fixed>, d: int)
    requires
        sane_pos(p),
        sane_pos(q),
        d == p.x.raw - q.x.raw || d == q.x.raw - p.x.raw || d == p.z.raw - q.z.raw || d == q.z.raw - p.z.raw,
        d >= 32768,
    ensures
        p.ground_distance(q).raw >= d - 1,
{
    let (dx, dz) = (p.x.raw - q.x.raw, p.z.raw - q.z.raw);
    lemma_distances(p, q);
    lemma_square(dx);
    lemma_square(dz);
    lemma_square(d);
    let l = p.minus(q).flat().length_squared();
    assert(d * d == dx * dx || d * d == dz * dz) by (nonlinear_arith)
        requires
            d == dx || d == -dx || d == dz || d == -dz,
    ;
    assert(l.raw >= d * d / 65536);
    let n = l.raw * 65536;
    assert(n >= d * d - 65535);
    assert((d - 1) * (d - 1) == d * d - 2 * d + 1) by (nonlinear_arith);
    assert(0 <= d - 1);
    assert((d - 1) * (d - 1) <= n);
    lemma_root_exists(n);
    lemma_root_lower(n, whole_root(n), d - 1);
    assert(l.raw > 0) by {
        assert(d * d >= 32768 * 32768) by (nonlinear_arith)
            requires
                d >= 32768,
        ;
    }
    assert(n <= 0x3000_0000_0000_0000 * 65536);
    assert(whole_root(n) <= 0x1_0000_0000_0000) by (nonlinear_arith)
        requires
            whole_root(n) * whole_root(n) <= n,
            0 <= whole_root(n),
            n <= 0x3000_0000_0000_0000 * 65536,
    ;
}

/// It is as far there as back.
pub proof fn lemma_distance_is_even(p: Vec3<Fixed>, q: Vec3<Fixed>)
    requires
        sane_pos(p),
        sane_pos(q),
    ensures
        p.ground_distance(q) == q.ground_distance(p),
{
    let (dx, dz) = (p.x.raw - q.x.raw, p.z.raw - q.z.raw);
    lemma_distances(p, q);
    lemma_distances(q, p);
    assert((-dx) * (-dx) == dx * dx && (-dz) * (-dz) == dz * dz) by (nonlinear_arith);
}

/// Whoever is in range is within the rings that are searched.
proof fn lemma_in_range(seeker: Seeker<Fixed>, s: UnitSnap<Fixed>)
    requires
        sane_pos(seeker.pos),
        sane_pos(s.pos),
        0 <= seeker.range.raw <= FAR,
        0 <= seeker.radius.raw <= FAR,
        0 <= s.radius.raw,
        s.radius.raw + margin(seeker.max_center().raw as int) <= monster_radius_max::<Fixed>().raw,
        seeker.accepts(&s),
    ensures
        cell_gap(column(seeker.pos.x), row(seeker.pos.z), column(s.pos.x), row(s.pos.z)) <= reach(
            seeker.max_center(),
        ),
{
    let (p, q) = (seeker.pos, s.pos);
    lemma_constants();
    let m = seeker.max_center();
    assert(m.raw == seeker.range.raw + seeker.radius.raw + 98304);
    lemma_reach(m);
    lemma_slot(p.x);
    lemma_slot(p.z);
    lemma_slot(q.x);
    lemma_slot(q.z);
    lemma_gap(p.x, q.x, 16, 1048576);
    lemma_gap(p.z, q.z, 24, 1572864);
    let g = cell_gap(column(p.x), row(p.z), column(q.x), row(q.z));
    let r = reach(m);
    if g > r {
        let (dx, dz) = (p.x.raw - q.x.raw, p.z.raw - q.z.raw);
        let d = if dx > 131072 * r {
            dx
        } else if -dx > 131072 * r {
            -dx
        } else if dz > 131072 * r {
            dz
        } else {
            -dz
        };
        assert(d > 131072 * r);
        lemma_ground_distance(p, q, d);
        let e = super::edge_dist(p, seeker.radius, q, s.radius);
        lemma_distances(p, q);
        let w = p.ground_distance(q).raw;
        assert(w >= d - 1);
        assert(false);
    }
}

proof fn lemma_bucket_holds<S: Scalar>(snaps: Seq<UnitSnap<S>>, j: int) -> (k: int)
    requires
        snaps.len() <= u32::MAX,
        0 <= j < snaps.len(),
        snaps[j].kind == UnitKind::Troop,
    ensures
        0 <= k < grid_of(snaps)[cell_of(snaps[j].pos)].len(),
        grid_of(snaps)[cell_of(snaps[j].pos)][k] == j,
        grid_of(snaps).len() == 384,
    decreases snaps.len(),
{
    super::targeting::lemma_grid_of(snaps);
    super::targeting::lemma_grid_of(snaps.drop_last());
    let g = grid_of(snaps.drop_last());
    let last = snaps.last();
    let c = cell_of(snaps[j].pos);
    assert(0 <= column(snaps[j].pos.x) < 16);
    assert(0 <= row(snaps[j].pos.z) < 24);
    assert(0 <= column(last.pos.x) < 16);
    assert(0 <= row(last.pos.z) < 24);
    if j == snaps.len() - 1 {
        let k = g[c].len() as int;
        assert(grid_of(snaps)[c] == g[c].push(j as u32));
        k
    } else {
        assert(snaps.drop_last()[j] == snaps[j]);
        lemma_bucket_holds(snaps.drop_last(), j)
    }
}

/// From ring `r` on: a unit that the search still has to meet is not nearer than what it gives.
proof fn lemma_search(
    best: Option<(Fixed, u32)>,
    snaps: Seq<UnitSnap<Fixed>>,
    seeker: Seeker<Fixed>,
    r: int,
    rings: int,
    j: int,
)
    requires
        snaps.len() <= u32::MAX,
        0 <= r <= rings <= 24,
        0 <= j < snaps.len(),
        snaps[j].kind == UnitKind::Troop,
        sane_pos(seeker.pos),
        sane_pos(snaps[j].pos),
        seeker.accepts(&snaps[j]),
        ({
            let g = cell_gap(
                column(seeker.pos.x),
                row(seeker.pos.z),
                column(snaps[j].pos.x),
                row(snaps[j].pos.z),
            );
            g <= rings && (g < r ==> nearest_of(best, snaps, seeker, j as u32))
        }),
        found(best, snaps, seeker),
    ensures
        nearest_of(search(best, snaps, seeker, grid_of(snaps), r, rings), snaps, seeker, j as u32),
        found(search(best, snaps, seeker, grid_of(snaps), r, rings), snaps, seeker),
    decreases rings - r,
{
    let grid = grid_of(snaps);
    let (cx, cz) = (column(seeker.pos.x), row(seeker.pos.z));
    let q = snaps[j].pos;
    let (x, z) = (column(q.x), row(q.z));
    let g = cell_gap(cx, cz, x, z);
    let cells = ring_cells(cx, cz, r);
    let b = scan_cells(best, snaps, seeker, grid, cells);
    scan_finds_nearest(best, snaps, seeker, grid, cells);
    if g < r {
        super::grid::lemma_no_worse_keeps(b, best, snaps, seeker, j as u32);
    } else if g == r {
        rings_are_exact(cx, cz, r, x, z);
        let c = choose|c: int| 0 <= c < cells.len() && cells[c] == z * 16 + x;
        let k = lemma_bucket_holds(snaps, j);
        assert(cells[c] == cell_of(q));
        assert(nearest_of(b, snaps, seeker, grid[cells[c]][k]));
    }
    if settled(b, r) || r >= rings {
        if g > r {
            lemma_beyond(seeker.pos, q, r);
            lemma_bound(r);
        }
    } else {
        lemma_search(b, snaps, seeker, r + 1, rings, j);
    }
}

/// The grid finds the nearest: what it gives is a troop that the seeker accepts, and no troop
/// that the seeker accepts is nearer, as long as everything lies within reason and no troop is
/// wider than the grid allows. Where the search ends with a cell to the last bit, the widest
/// troops are left out: rounding may put such a one at its very edge outside.
pub proof fn grid_finds_the_nearest(snaps: Seq<UnitSnap<Fixed>>, seeker: Seeker<Fixed>, j: int)
    requires
        snaps.len() <= u32::MAX,
        0 <= j < snaps.len(),
        snaps[j].kind == UnitKind::Troop,
        sane_pos(seeker.pos),
        sane_pos(snaps[j].pos),
        0 <= seeker.range.raw <= FAR,
        0 <= seeker.radius.raw <= FAR,
        0 <= snaps[j].radius.raw,
        snaps[j].radius.raw + margin(seeker.max_center().raw as int) <= monster_radius_max::<
            Fixed,
        >().raw,
        seeker.accepts(&snaps[j]),
    ensures
        nearest_monster_spec(snaps, seeker) matches Some((d2, i)) && seeker.accepts(&snaps[i as int]) && d2
            == seeker.pos.distance_squared(snaps[i as int].pos) && !seeker.pos.distance_squared(
            snaps[j].pos,
        ).less(d2),
{
    lemma_in_range(seeker, snaps[j]);
    let m = seeker.max_center();
    lemma_constants();
    lemma_reach(m);
    lemma_search(None, snaps, seeker, 0, reach(m), j);
}

proof fn lemma_row_gathers(grid: Seq<Seq<u32>>, z: int, lo: int, hi: int, x: int, v: u32)
    requires
        lo <= x < hi,
        grid[z * 16 + x].contains(v),
    ensures
        gather_row(grid, z, lo, hi).contains(v),
    decreases hi - lo,
{
    let before = gather_row(grid, z, lo, hi - 1);
    let last = grid[z * 16 + hi - 1];
    let all = before + last;
    assert(gather_row(grid, z, lo, hi) == all);
    if x == hi - 1 {
        let k = choose|k: int| 0 <= k < last.len() && last[k] == v;
        assert(all[before.len() + k] == v);
    } else {
        lemma_row_gathers(grid, z, lo, hi - 1, x, v);
        let k = choose|k: int| 0 <= k < before.len() && before[k] == v;
        assert(all[k] == v);
    }
}

proof fn lemma_gathers(grid: Seq<Seq<u32>>, z_lo: int, z_hi: int, lo: int, hi: int, x: int, z: int, v: u32)
    requires
        lo <= x < hi,
        z_lo <= z < z_hi,
        grid[z * 16 + x].contains(v),
    ensures
        gather(grid, z_lo, z_hi, lo, hi).contains(v),
    decreases z_hi - z_lo,
{
    let before = gather(grid, z_lo, z_hi - 1, lo, hi);
    let last = gather_row(grid, z_hi - 1, lo, hi);
    let all = before + last;
    assert(gather(grid, z_lo, z_hi, lo, hi) == all);
    if z == z_hi - 1 {
        lemma_row_gathers(grid, z, lo, hi, x, v);
        let k = choose|k: int| 0 <= k < last.len() && last[k] == v;
        assert(all[before.len() + k] == v);
    } else {
        lemma_gathers(grid, z_lo, z_hi - 1, lo, hi, x, z, v);
        let k = choose|k: int| 0 <= k < before.len() && before[k] == v;
        assert(all[k] == v);
    }
}

/// A circle query misses nobody: every troop whose middle lies inside the circle is in the list.
/// Where the circle ends with a cell to the last bit, its very edge is left out: rounding may put
/// what lies there outside.
pub proof fn circle_misses_nobody(snaps: Seq<UnitSnap<Fixed>>, pos: Vec3<Fixed>, radius: Fixed, j: int)
    requires
        snaps.len() <= u32::MAX,
        0 <= j < snaps.len(),
        snaps[j].kind == UnitKind::Troop,
        sane_pos(pos),
        sane_pos(snaps[j].pos),
        1 < radius.raw <= 0x60_0000_0000,
        pos.ground_distance(snaps[j].pos).raw + margin(radius.raw as int) <= radius.raw,
    ensures
        in_circle_spec(grid_of(snaps), pos, radius).contains(j as u32),
{
    let q = snaps[j].pos;
    let (cx, cz) = (column(pos.x), row(pos.z));
    let (x, z) = (column(q.x), row(q.z));
    let r = reach(radius);
    lemma_reach(radius);
    lemma_slot(pos.x);
    lemma_slot(pos.z);
    lemma_slot(q.x);
    lemma_slot(q.z);
    lemma_gap(pos.x, q.x, 16, 1048576);
    lemma_gap(pos.z, q.z, 24, 1572864);
    if cell_gap(cx, cz, x, z) > r {
        let (dx, dz) = (pos.x.raw - q.x.raw, pos.z.raw - q.z.raw);
        let d = if dx > 131072 * r {
            dx
        } else if -dx > 131072 * r {
            -dx
        } else if dz > 131072 * r {
            dz
        } else {
            -dz
        };
        assert(d > 131072 * r);
        lemma_ground_distance(pos, q, d);
        assert(false);
    }
    let k = lemma_bucket_holds(snaps, j);
    let bucket = grid_of(snaps)[cell_of(q)];
    assert(bucket[k] == j as u32);
    assert(bucket.contains(j as u32));
    lemma_gathers(
        grid_of(snaps),
        low(cz, r),
        high(cz, r, ROWS as int) + 1,
        low(cx, r),
        high(cx, r, COLS as int) + 1,
        x,
        z,
        j as u32,
    );
}

} // verus!
