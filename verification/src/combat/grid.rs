//! A uniform grid over the field, for neighbourhood queries.
//!
//! Cells are kept row by row, and each cell lists its units in the order of the snapshot, so
//! that every walk over the grid has one fixed order on all peers. Positions beyond the edge
//! belong to the cell at the edge.

use vstd::prelude::*;

use super::{can_target, edge_dist, UnitSnap};
use crate::components::Faction;
use crate::constants::{grid_cell, grid_min_x, grid_min_z, monster_radius_max, CELLS, COLS, ROWS};
use crate::scalar::Scalar;
use crate::vector::Vec3;

verus! {

/// A cell number kept between 0 and `n - 1`.
pub open spec fn clamp_cell(v: int, n: int) -> int {
    if v < 0 {
        0
    } else if v >= n {
        n - 1
    } else {
        v
    }
}

fn clamp_index(v: i64, n: usize) -> (r: usize)
    requires
        0 < n <= 1000,
    ensures
        r == clamp_cell(v as int, n as int),
        r < n,
{
    if v < 0 {
        0
    } else if v >= n as i64 {
        n - 1
    } else {
        v as usize
    }
}

/// The column of a position.
pub open spec fn column<S: Scalar>(x: S) -> int {
    clamp_cell(x.minus(grid_min_x()).over(grid_cell()).truncated() as int, COLS as int)
}

/// The row of a position.
pub open spec fn row<S: Scalar>(z: S) -> int {
    clamp_cell(z.minus(grid_min_z()).over(grid_cell()).truncated() as int, ROWS as int)
}

/// The cell of a position.
pub open spec fn cell_of<S: Scalar>(pos: Vec3<S>) -> int {
    row(pos.z) * 16 + column(pos.x)
}

/// How many rings of cells a circle reaches: beyond [`ROWS`] there are none.
pub open spec fn reach<S: Scalar>(radius: S) -> int {
    let r = radius.over(grid_cell()).ceiling().truncated();
    if r < 0 {
        0
    } else if r > ROWS {
        ROWS as int
    } else {
        r as int
    }
}

fn rings_of<S: Scalar>(radius: S) -> (r: usize)
    ensures
        r == reach(radius),
        r <= ROWS,
{
    let r: i64 = radius.over(grid_cell()).ceiling().truncated();
    if r < 0 {
        0
    } else if r > ROWS as i64 {
        ROWS
    } else {
        r as usize
    }
}

/// Who is looking, from where and how far.
#[derive(Clone, Copy, Debug)]
pub struct Seeker<S> {
    pub entity: u64,
    pub faction: Faction,
    pub pos: Vec3<S>,
    pub radius: S,
    /// From edge to edge.
    pub range: S,
    pub hits_air: bool,
}

impl<S: Scalar> Seeker<S> {
    /// Whether `s` is an enemy that the seeker can attack and that is in range.
    #[verifier::allow_in_spec]
    pub fn accepts(&self, s: &UnitSnap<S>) -> bool
        returns
            (s.faction != self.faction && s.entity != self.entity && can_target(
                self.hits_air,
                false,
                s,
            ) && edge_dist(self.pos, self.radius, s.pos, s.radius).at_most(self.range)),
    {
        s.faction != self.faction && s.entity != self.entity && can_target(self.hits_air, false, s)
            && edge_dist(self.pos, self.radius, s.pos, s.radius).at_most(self.range)
    }

    /// How far from the seeker the middle of an acceptable troop can lie.
    #[verifier::allow_in_spec]
    pub fn max_center(&self) -> S
        returns
            self.range.plus(self.radius).plus(monster_radius_max()),
    {
        self.range.plus(self.radius).plus(monster_radius_max())
    }
}

/// The nearest so far, with one more candidate considered: only a strictly nearer one wins.
pub open spec fn nearer<S: Scalar>(
    best: Option<(S, u32)>,
    snaps: Seq<UnitSnap<S>>,
    seeker: Seeker<S>,
    i: u32,
) -> Option<(S, u32)> {
    let d2 = seeker.pos.distance_squared(snaps[i as int].pos);
    if seeker.accepts(&snaps[i as int]) && (best.is_none() || d2.less((best->0).0)) {
        Some((d2, i))
    } else {
        best
    }
}

/// The nearest so far, after all units of a bucket.
pub open spec fn scan_bucket<S: Scalar>(
    best: Option<(S, u32)>,
    snaps: Seq<UnitSnap<S>>,
    seeker: Seeker<S>,
    bucket: Seq<u32>,
) -> Option<(S, u32)>
    decreases bucket.len(),
{
    if bucket.len() == 0 {
        best
    } else {
        nearer(scan_bucket(best, snaps, seeker, bucket.drop_last()), snaps, seeker, bucket.last())
    }
}

/// The nearest so far, after all units of several cells in order.
pub open spec fn scan_cells<S: Scalar>(
    best: Option<(S, u32)>,
    snaps: Seq<UnitSnap<S>>,
    seeker: Seeker<S>,
    grid: Seq<Seq<u32>>,
    cells: Seq<int>,
) -> Option<(S, u32)>
    decreases cells.len(),
{
    if cells.len() == 0 {
        best
    } else {
        scan_bucket(
            scan_cells(best, snaps, seeker, grid, cells.drop_last()),
            snaps,
            seeker,
            grid[cells.last()],
        )
    }
}

/// The cells of row `z` from column `lo` up to but not at `hi`.
pub open spec fn row_run(z: int, lo: int, hi: int) -> Seq<int> {
    Seq::new((hi - lo) as nat, |k: int| z * 16 + lo + k)
}

/// The cells of row `z` at distance `r` from the cell in column `cx` and row `cz`.
pub open spec fn ring_row(cx: int, cz: int, r: int, z: int) -> Seq<int> {
    if z == cz - r || z == cz + r {
        row_run(z, low(cx, r), high(cx, r, COLS as int) + 1)
    } else {
        (if cx >= r { seq![z * 16 + cx - r] } else { Seq::<int>::empty() }) + (if cx + r < COLS {
            seq![z * 16 + cx + r]
        } else {
            Seq::<int>::empty()
        })
    }
}

/// `c - r`, but not below zero.
pub open spec fn low(c: int, r: int) -> int {
    if c - r < 0 { 0 } else { c - r }
}

/// `c + r`, but below `n`.
pub open spec fn high(c: int, r: int, n: int) -> int {
    if c + r >= n { n - 1 } else { c + r }
}

/// The cells at distance `r`, in the rows before `end`.
pub open spec fn ring_rows(cx: int, cz: int, r: int, end: int) -> Seq<int>
    decreases end - low(cz, r),
{
    if end <= low(cz, r) {
        Seq::empty()
    } else {
        ring_rows(cx, cz, r, end - 1) + ring_row(cx, cz, r, end - 1)
    }
}

/// The cells whose column or row, whichever is further, is `r` away, row by row.
pub open spec fn ring_cells(cx: int, cz: int, r: int) -> Seq<int> {
    if r == 0 { seq![cz * 16 + cx] } else { ring_rows(cx, cz, r, high(cz, r, ROWS as int) + 1) }
}

/// Whether nothing in the rings beyond `r` can be strictly nearer.
pub open spec fn settled<S: Scalar>(best: Option<(S, u32)>, r: int) -> bool {
    match best {
        Some((d2, _)) => d2.at_most(
            S::ratio(r as i64, 1).times(grid_cell()).times(S::ratio(r as i64, 1).times(grid_cell())),
        ),
        None => false,
    }
}

/// The nearest acceptable troop in the rings from `r` to `rings`, given the nearest before.
pub open spec fn search<S: Scalar>(
    best: Option<(S, u32)>,
    snaps: Seq<UnitSnap<S>>,
    seeker: Seeker<S>,
    grid: Seq<Seq<u32>>,
    r: int,
    rings: int,
) -> Option<(S, u32)>
    decreases rings - r,
{
    let b = scan_cells(
        best,
        snaps,
        seeker,
        grid,
        ring_cells(column(seeker.pos.x), row(seeker.pos.z), r),
    );
    if settled(b, r) || r >= rings {
        b
    } else {
        search(b, snaps, seeker, grid, r + 1, rings)
    }
}

/// The nearest acceptable troop, with the square of its distance: cells are searched ring by
/// ring outwards, until no further ring can hold a nearer one.
pub open spec fn nearest_in_grid<S: Scalar>(
    snaps: Seq<UnitSnap<S>>,
    seeker: Seeker<S>,
    grid: Seq<Seq<u32>>,
    max_center: S,
) -> Option<(S, u32)> {
    search(None, snaps, seeker, grid, 0, reach(max_center))
}

/// The contents of the cells of row `z` from `lo` to `hi`.
pub open spec fn gather_row(grid: Seq<Seq<u32>>, z: int, lo: int, hi: int) -> Seq<u32>
    decreases hi - lo,
{
    if hi <= lo {
        Seq::empty()
    } else {
        gather_row(grid, z, lo, hi - 1) + grid[z * 16 + hi - 1]
    }
}

/// The contents of the cells in rows `z_lo` to `z_hi` and columns `lo` to `hi`, row by row.
pub open spec fn gather(grid: Seq<Seq<u32>>, z_lo: int, z_hi: int, lo: int, hi: int) -> Seq<u32>
    decreases z_hi - z_lo,
{
    if z_hi <= z_lo {
        Seq::empty()
    } else {
        gather(grid, z_lo, z_hi - 1, lo, hi) + gather_row(grid, z_hi - 1, lo, hi)
    }
}

/// The contents of every cell that a circle can touch, row by row.
pub open spec fn in_circle_spec<S: Scalar>(grid: Seq<Seq<u32>>, pos: Vec3<S>, radius: S) -> Seq<u32> {
    let r = reach(radius);
    let (cx, cz) = (column(pos.x), row(pos.z));
    gather(
        grid,
        low(cz, r),
        high(cz, r, ROWS as int) + 1,
        low(cx, r),
        high(cx, r, COLS as int) + 1,
    )
}

/// Every entry of the grid is a place in a snapshot of `n` units.
pub open spec fn entries_below(grid: Seq<Seq<u32>>, n: int) -> bool {
    forall|c: int, k: int|
        0 <= c < grid.len() && 0 <= k < grid[c].len() ==> (#[trigger] grid[c][k]) < n
}

/// The grid: for each cell the places in the snapshot of the units inside.
#[derive(Debug)]
pub struct SpatialGrid {
    buckets: Vec<Vec<u32>>,
}

impl View for SpatialGrid {
    type V = Seq<Seq<u32>>;

    closed spec fn view(&self) -> Seq<Seq<u32>> {
        self.buckets@.map_values(|b: Vec<u32>| b@)
    }
}

impl SpatialGrid {
    /// A grid that holds nothing.
    pub fn new() -> (g: Self)
        ensures
            g@ == Seq::new(CELLS as nat, |c: int| Seq::<u32>::empty()),
    {
        let mut buckets: Vec<Vec<u32>> = Vec::new();
        let mut k: usize = 0;
        while k < CELLS
            invariant
                k <= CELLS,
                buckets@.len() == k,
                forall|c: int| 0 <= c < k ==> (#[trigger] buckets@[c])@ == Seq::<u32>::empty(),
            decreases CELLS - k,
        {
            buckets.push(Vec::new());
            k += 1;
        }
        let g = SpatialGrid { buckets };
        assert(g@ =~= Seq::new(CELLS as nat, |c: int| Seq::<u32>::empty()));
        g
    }

    /// Empties every cell.
    pub fn clear(&mut self)
        ensures
            final(self)@ == Seq::new(old(self)@.len(), |c: int| Seq::<u32>::empty()),
    {
        let n: usize = self.buckets.len();
        let mut k: usize = 0;
        while k < n
            invariant
                k <= n,
                n == self.buckets@.len(),
                n == old(self)@.len(),
                forall|c: int| 0 <= c < k ==> (#[trigger] self.buckets@[c])@ == Seq::<u32>::empty(),
            decreases n - k,
        {
            self.buckets[k].clear();
            k += 1;
        }
        assert(self@ =~= Seq::new(old(self)@.len(), |c: int| Seq::<u32>::empty()));
    }

    /// The column and row of a position.
    fn cell_coord<S: Scalar>(&self, pos: Vec3<S>) -> (r: (usize, usize))
        ensures
            r.0 == column(pos.x),
            r.1 == row(pos.z),
            r.0 < COLS,
            r.1 < ROWS,
    {
        let x: usize = clamp_index(pos.x.minus(grid_min_x()).over(grid_cell()).truncated(), COLS);
        let z: usize = clamp_index(pos.z.minus(grid_min_z()).over(grid_cell()).truncated(), ROWS);
        (x, z)
    }

    /// Adds a unit at the end of the cell of its position.
    pub fn insert<S: Scalar>(&mut self, pos: Vec3<S>, idx: u32)
        requires
            old(self)@.len() == CELLS,
        ensures
            final(self)@ == old(self)@.update(cell_of(pos), old(self)@[cell_of(pos)].push(idx)),
    {
        let (x, z) = self.cell_coord(pos);
        let ghost before = self.buckets@;
        self.buckets[z * COLS + x].push(idx);
        assert(self@ =~= old(self)@.update(cell_of(pos), old(self)@[cell_of(pos)].push(idx)));
    }

    /// Considers every unit of one cell.
    fn scan_cell<S: Scalar>(
        &self,
        snaps: &Vec<UnitSnap<S>>,
        seeker: &Seeker<S>,
        x: usize,
        z: usize,
        best: Option<(S, u32)>,
    ) -> (r: Option<(S, u32)>)
        requires
            self@.len() == CELLS,
            entries_below(self@, snaps@.len() as int),
            x < COLS,
            z < ROWS,
        ensures
            r == scan_bucket(best, snaps@, *seeker, self@[z * 16 + x]),
    {
        let mut best: Option<(S, u32)> = best;
        let ghost start = best;
        let c: usize = z * COLS + x;
        let bucket: &Vec<u32> = &self.buckets[c];
        let ghost b = self@[c as int];
        assert(bucket@ == b);
        let n: usize = bucket.len();
        assert(b.take(0) =~= Seq::<u32>::empty());
        for k in 0..n
            invariant
                n == bucket@.len(),
                bucket@ == b,
                self@.len() == CELLS,
                c < CELLS,
                b == self@[c as int],
                entries_below(self@, snaps@.len() as int),
                best == scan_bucket(start, snaps@, *seeker, b.take(k as int)),
        {
            let i: u32 = bucket[k];
            assert(self@[c as int][k as int] == i);
            assert(b.take(k + 1).drop_last() =~= b.take(k as int));
            let s: &UnitSnap<S> = &snaps[i as usize];
            if seeker.accepts(s) {
                let d2: S = seeker.pos.distance_squared(s.pos);
                let wins: bool = match best {
                    Some((d, _)) => d2.less(d),
                    None => true,
                };
                if wins {
                    best = Some((d2, i));
                }
            }
        }
        assert(b.take(n as int) =~= b);
        best
    }

    /// Considers every unit of one ring.
    fn scan_ring<S: Scalar>(
        &self,
        snaps: &Vec<UnitSnap<S>>,
        seeker: &Seeker<S>,
        cx: usize,
        cz: usize,
        r: usize,
        best: Option<(S, u32)>,
    ) -> (res: Option<(S, u32)>)
        requires
            self@.len() == CELLS,
            entries_below(self@, snaps@.len() as int),
            cx < COLS,
            cz < ROWS,
            r <= ROWS,
        ensures
            res == scan_cells(best, snaps@, *seeker, self@, ring_cells(cx as int, cz as int, r as int)),
    {
        let mut b: Option<(S, u32)> = best;
        let ghost mut seen: Seq<int> = Seq::empty();
        if r == 0 {
            b = self.scan_cell(snaps, seeker, cx, cz, b);
            let ghost cells = ring_cells(cx as int, cz as int, 0);
            assert(cells.drop_last() =~= seen);
            return b;
        }
        let x_lo: usize = if cx >= r { cx - r } else { 0 };
        let x_hi: usize = if cx + r < COLS { cx + r } else { COLS - 1 };
        let z_from: usize = if cz >= r { cz - r } else { 0 };
        let z_to: usize = if cz + r < ROWS { cz + r } else { ROWS - 1 };
        let mut z: usize = z_from;
        while z <= z_to
            invariant
                self@.len() == CELLS,
                entries_below(self@, snaps@.len() as int),
                cx < COLS,
                cz < ROWS,
                1 <= r <= ROWS,
                x_lo == low(cx as int, r as int),
                x_hi == high(cx as int, r as int, COLS as int),
                z_from == low(cz as int, r as int),
                z_to == high(cz as int, r as int, ROWS as int),
                z_from <= z <= z_to + 1,
                z_to < ROWS,
                x_hi < COLS,
                x_lo <= x_hi,
                b == scan_cells(best, snaps@, *seeker, self@, seen),
                seen == ring_rows(cx as int, cz as int, r as int, z as int),
            decreases z_to + 1 - z,
        {
            let ghost before = seen;
            if z + r == cz || z == cz + r {
                let mut x: usize = x_lo;
                assert(before + row_run(z as int, x_lo as int, x_lo as int) =~= before);
                while x <= x_hi
                    invariant
                        self@.len() == CELLS,
                        entries_below(self@, snaps@.len() as int),
                        x_lo <= x <= x_hi + 1,
                        x_hi < COLS,
                        z < ROWS,
                        b == scan_cells(best, snaps@, *seeker, self@, seen),
                        seen == before + row_run(z as int, x_lo as int, x as int),
                    decreases x_hi + 1 - x,
                {
                    b = self.scan_cell(snaps, seeker, x, z, b);
                    proof {
                        let next = seen.push(z * 16 + x);
                        assert(next.drop_last() =~= seen);
                        assert(next =~= before + row_run(z as int, x_lo as int, x + 1));
                        seen = next;
                    }
                    x += 1;
                }
                assert(seen == before + ring_row(cx as int, cz as int, r as int, z as int));
            } else {
                if cx >= r {
                    b = self.scan_cell(snaps, seeker, x_lo, z, b);
                    proof {
                        let next = seen.push(z * 16 + x_lo);
                        assert(next.drop_last() =~= seen);
                        seen = next;
                    }
                }
                if cx + r < COLS {
                    b = self.scan_cell(snaps, seeker, x_hi, z, b);
                    proof {
                        let next = seen.push(z * 16 + x_hi);
                        assert(next.drop_last() =~= seen);
                        seen = next;
                    }
                }
                assert(seen =~= before + ring_row(cx as int, cz as int, r as int, z as int));
            }
            z += 1;
        }
        b
    }

    /// The nearest troop that the seeker accepts among the cells within `max_center`, with the
    /// square of its distance. Of two equally near ones the one met first counts.
    pub fn query_nearest<S: Scalar>(
        &self,
        snaps: &Vec<UnitSnap<S>>,
        seeker: &Seeker<S>,
        max_center: S,
    ) -> (res: Option<(S, u32)>)
        requires
            self@.len() == CELLS,
            entries_below(self@, snaps@.len() as int),
        ensures
            res == nearest_in_grid(snaps@, *seeker, self@, max_center),
            res matches Some((_, i)) ==> i < snaps@.len(),
    {
        let (cx, cz) = self.cell_coord(seeker.pos);
        let rings: usize = rings_of(max_center);
        let mut best: Option<(S, u32)> = None;
        let mut r: usize = 0;
        loop
            invariant_except_break
                nearest_in_grid(snaps@, *seeker, self@, max_center) == search(
                    best,
                    snaps@,
                    *seeker,
                    self@,
                    r as int,
                    rings as int,
                ),
            invariant
                self@.len() == CELLS,
                entries_below(self@, snaps@.len() as int),
                rings == reach(max_center),
                r <= rings <= ROWS,
                cx == column(seeker.pos.x),
                cz == row(seeker.pos.z),
                cx < COLS,
                cz < ROWS,
                best matches Some((_, i)) ==> i < snaps@.len(),
            ensures
                best == nearest_in_grid(snaps@, *seeker, self@, max_center),
                best matches Some((_, i)) ==> i < snaps@.len(),
            decreases rings - r,
        {
            let ghost before = best;
            best = self.scan_ring(snaps, seeker, cx, cz, r, best);
            proof {
                lemma_ring_in_bounds(cx as int, cz as int, r as int);
                lemma_scan_cells_bounded(
                    before,
                    snaps@,
                    *seeker,
                    self@,
                    ring_cells(cx as int, cz as int, r as int),
                );
            }
            let done: bool = match best {
                Some((d2, _)) => {
                    let bound: S = S::ratio(r as i64, 1).times(grid_cell());
                    d2.at_most(bound.times(bound))
                },
                None => false,
            };
            if done || r >= rings {
                break;
            }
            r += 1;
        }
        best
    }

    /// The units in every cell that a circle can touch, row by row; which of them lie in the
    /// circle is for the caller to tell.
    pub fn in_circle<S: Scalar>(&self, pos: Vec3<S>, radius: S) -> (res: Vec<u32>)
        requires
            self@.len() == CELLS,
        ensures
            res@ == in_circle_spec(self@, pos, radius),
    {
        let (cx, cz) = self.cell_coord(pos);
        let r: usize = rings_of(radius);
        let x_lo: usize = if cx >= r { cx - r } else { 0 };
        let x_hi: usize = if cx + r < COLS { cx + r } else { COLS - 1 };
        let z_lo: usize = if cz >= r { cz - r } else { 0 };
        let z_hi: usize = if cz + r < ROWS { cz + r } else { ROWS - 1 };
        let mut res: Vec<u32> = Vec::new();
        let mut z: usize = z_lo;
        while z <= z_hi
            invariant
                self@.len() == CELLS,
                z_lo <= z <= z_hi + 1,
                z_hi < ROWS,
                x_hi < COLS,
                x_lo <= x_hi,
                res@ == gather(self@, z_lo as int, z as int, x_lo as int, x_hi + 1),
            decreases z_hi + 1 - z,
        {
            let ghost before = res@;
            let mut x: usize = x_lo;
            assert(before + gather_row(self@, z as int, x_lo as int, x_lo as int) =~= before);
            while x <= x_hi
                invariant
                    self@.len() == CELLS,
                    x_lo <= x <= x_hi + 1,
                    x_hi < COLS,
                    z < ROWS,
                    res@ == before + gather_row(self@, z as int, x_lo as int, x as int),
                decreases x_hi + 1 - x,
            {
                let c: usize = z * COLS + x;
                let bucket: &Vec<u32> = &self.buckets[c];
                let ghost b = self@[c as int];
                let ghost so_far = res@;
                let n: usize = bucket.len();
                assert(so_far + b.take(0) =~= so_far);
                for k in 0..n
                    invariant
                        n == bucket@.len(),
                        bucket@ == b,
                        res@ == so_far + b.take(k as int),
                {
                    res.push(bucket[k]);
                    assert(b.take(k + 1) =~= b.take(k as int).push(b[k as int]));
                    assert(res@ =~= so_far + b.take(k + 1));
                }
                assert(b.take(n as int) =~= b);
                assert(so_far + b =~= before + (gather_row(self@, z as int, x_lo as int, x as int) + b));
                x += 1;
            }
            z += 1;
        }
        res
    }
}

/// Every ring lies inside the grid.
pub proof fn lemma_ring_in_bounds(cx: int, cz: int, r: int)
    requires
        0 <= cx < COLS,
        0 <= cz < ROWS,
        0 <= r,
    ensures
        forall|k: int|
            0 <= k < ring_cells(cx, cz, r).len() ==> 0 <= #[trigger] ring_cells(cx, cz, r)[k] < CELLS,
{
    if r > 0 {
        lemma_ring_rows_in_bounds(cx, cz, r, high(cz, r, ROWS as int) + 1);
    }
}

proof fn lemma_ring_rows_in_bounds(cx: int, cz: int, r: int, end: int)
    requires
        0 <= cx < COLS,
        0 <= cz < ROWS,
        0 < r,
        end <= ROWS,
    ensures
        forall|k: int|
            0 <= k < ring_rows(cx, cz, r, end).len() ==> 0 <= #[trigger] ring_rows(cx, cz, r, end)[k]
                < CELLS,
    decreases end - low(cz, r),
{
    if end > low(cz, r) {
        lemma_ring_rows_in_bounds(cx, cz, r, end - 1);
        let before = ring_rows(cx, cz, r, end - 1);
        let last = ring_row(cx, cz, r, end - 1);
        assert forall|k: int| 0 <= k < last.len() implies 0 <= #[trigger] last[k] < CELLS by {}
        assert forall|k: int| 0 <= k < ring_rows(cx, cz, r, end).len() implies 0
            <= #[trigger] ring_rows(cx, cz, r, end)[k] < CELLS by {
            if k < before.len() {
                assert(0 <= before[k] < CELLS);
            } else {
                assert(0 <= last[k - before.len()] < CELLS);
            }
        }
    }
}

proof fn lemma_scan_cells_bounded<S: Scalar>(
    best: Option<(S, u32)>,
    snaps: Seq<UnitSnap<S>>,
    seeker: Seeker<S>,
    grid: Seq<Seq<u32>>,
    cells: Seq<int>,
)
    requires
        entries_below(grid, snaps.len() as int),
        best matches Some((_, i)) ==> i < snaps.len(),
        grid.len() == CELLS,
        forall|k: int| 0 <= k < cells.len() ==> 0 <= #[trigger] cells[k] < CELLS,
    ensures
        scan_cells(best, snaps, seeker, grid, cells) matches Some((_, i)) ==> i < snaps.len(),
    decreases cells.len(),
{
    if cells.len() > 0 {
        lemma_scan_cells_bounded(best, snaps, seeker, grid, cells.drop_last());
        let c = cells.last();
        assert(0 <= cells[cells.len() - 1] < CELLS);
        assert forall|k: int| 0 <= k < grid[c].len() implies (#[trigger] grid[c][k]) < snaps.len() by {}
        lemma_scan_bucket_bounded(
            scan_cells(best, snaps, seeker, grid, cells.drop_last()),
            snaps,
            seeker,
            grid[c],
        );
    }
}

proof fn lemma_scan_bucket_bounded<S: Scalar>(
    best: Option<(S, u32)>,
    snaps: Seq<UnitSnap<S>>,
    seeker: Seeker<S>,
    bucket: Seq<u32>,
)
    requires
        best matches Some((_, i)) ==> i < snaps.len(),
        forall|k: int| 0 <= k < bucket.len() ==> (#[trigger] bucket[k]) < snaps.len(),
    ensures
        scan_bucket(best, snaps, seeker, bucket) matches Some((_, i)) ==> i < snaps.len(),
    decreases bucket.len(),
{
    if bucket.len() > 0 {
        lemma_scan_bucket_bounded(best, snaps, seeker, bucket.drop_last());
    }
}

/// What a search has found is acceptable, or was found before, and nothing acceptable that was
/// considered is nearer.
pub open spec fn nearest_of<S: Scalar>(
    best: Option<(S, u32)>,
    snaps: Seq<UnitSnap<S>>,
    seeker: Seeker<S>,
    i: u32,
) -> bool {
    seeker.accepts(&snaps[i as int]) ==> best.is_some() && !seeker.pos.distance_squared(
        snaps[i as int].pos,
    ).less((best->0).0)
}

/// The nearest only gets nearer.
pub open spec fn no_worse<S: Scalar>(after: Option<(S, u32)>, before: Option<(S, u32)>) -> bool {
    before matches Some((b, _)) ==> after matches Some((a, _)) && (a == b || a.less(b))
}

/// What is not nearer than the nearest before is not nearer than the nearest after.
pub proof fn lemma_no_worse_keeps<S: Scalar>(
    after: Option<(S, u32)>,
    before: Option<(S, u32)>,
    snaps: Seq<UnitSnap<S>>,
    seeker: Seeker<S>,
    i: u32,
)
    requires
        no_worse(after, before),
        nearest_of(before, snaps, seeker, i),
    ensures
        nearest_of(after, snaps, seeker, i),
{
    if seeker.accepts(&snaps[i as int]) {
        let d = seeker.pos.distance_squared(snaps[i as int].pos);
        let a = (after->0).0;
        let b = (before->0).0;
        if a != b && d.less(a) {
            S::less_transitive(d, a, b);
        }
    }
}

proof fn lemma_scan_bucket<S: Scalar>(
    best: Option<(S, u32)>,
    snaps: Seq<UnitSnap<S>>,
    seeker: Seeker<S>,
    bucket: Seq<u32>,
)
    ensures
        no_worse(scan_bucket(best, snaps, seeker, bucket), best),
        forall|k: int|
            0 <= k < bucket.len() ==> nearest_of(
                scan_bucket(best, snaps, seeker, bucket),
                snaps,
                seeker,
                #[trigger] bucket[k],
            ),
        scan_bucket(best, snaps, seeker, bucket) == best || found(
            scan_bucket(best, snaps, seeker, bucket),
            snaps,
            seeker,
        ),
    decreases bucket.len(),
{
    if bucket.len() > 0 {
        let rest = bucket.drop_last();
        lemma_scan_bucket(best, snaps, seeker, rest);
        let before = scan_bucket(best, snaps, seeker, rest);
        let i = bucket.last();
        let after = nearer(before, snaps, seeker, i);
        S::less_irreflexive(seeker.pos.distance_squared(snaps[i as int].pos));
        assert(no_worse(after, before));
        assert forall|k: int| 0 <= k < bucket.len() implies nearest_of(
            after,
            snaps,
            seeker,
            #[trigger] bucket[k],
        ) by {
            if k < rest.len() {
                assert(nearest_of(before, snaps, seeker, rest[k]));
                lemma_no_worse_keeps(after, before, snaps, seeker, bucket[k]);
            }
        }
        if let Some((b, _)) = best {
            if let Some((m, _)) = before {
                if let Some((a, _)) = after {
                    if a != m && m != b {
                        S::less_transitive(a, m, b);
                    }
                }
            }
        }
    }
}

/// A search result is one of the acceptable units, with its distance.
pub open spec fn found<S: Scalar>(
    best: Option<(S, u32)>,
    snaps: Seq<UnitSnap<S>>,
    seeker: Seeker<S>,
) -> bool {
    best matches Some((d2, i)) ==> seeker.accepts(&snaps[i as int]) && d2 == seeker.pos.distance_squared(
        snaps[i as int].pos,
    )
}

/// Of all units in the cells that were searched, the result is an acceptable one and none of the
/// acceptable ones is nearer.
pub proof fn scan_finds_nearest<S: Scalar>(
    best: Option<(S, u32)>,
    snaps: Seq<UnitSnap<S>>,
    seeker: Seeker<S>,
    grid: Seq<Seq<u32>>,
    cells: Seq<int>,
)
    ensures
        no_worse(scan_cells(best, snaps, seeker, grid, cells), best),
        forall|c: int, k: int|
            0 <= c < cells.len() && 0 <= k < grid[cells[c]].len() ==> nearest_of(
                scan_cells(best, snaps, seeker, grid, cells),
                snaps,
                seeker,
                #[trigger] grid[cells[c]][k],
            ),
        scan_cells(best, snaps, seeker, grid, cells) == best || found(
            scan_cells(best, snaps, seeker, grid, cells),
            snaps,
            seeker,
        ),
    decreases cells.len(),
{
    if cells.len() > 0 {
        let rest = cells.drop_last();
        scan_finds_nearest(best, snaps, seeker, grid, rest);
        let before = scan_cells(best, snaps, seeker, grid, rest);
        let bucket = grid[cells.last()];
        lemma_scan_bucket(before, snaps, seeker, bucket);
        let after = scan_bucket(before, snaps, seeker, bucket);
        assert forall|c: int, k: int|
            0 <= c < cells.len() && 0 <= k < grid[cells[c]].len() implies nearest_of(
            after,
            snaps,
            seeker,
            #[trigger] grid[cells[c]][k],
        ) by {
            if c < rest.len() {
                assert(rest[c] == cells[c]);
                assert(nearest_of(before, snaps, seeker, grid[rest[c]][k]));
                lemma_no_worse_keeps(after, before, snaps, seeker, grid[cells[c]][k]);
            } else {
                assert(bucket[k] == grid[cells[c]][k]);
            }
        }
        if let Some((b, _)) = best {
            if let Some((m, _)) = before {
                if let Some((a, _)) = after {
                    if a != m && m != b {
                        S::less_transitive(a, m, b);
                    }
                }
            }
        }
    }
}

/// How many cells apart two cells are, by the greater of columns and rows.
pub open spec fn cell_gap(cx: int, cz: int, x: int, z: int) -> int {
    let dx = if x < cx { cx - x } else { x - cx };
    let dz = if z < cz { cz - z } else { z - cz };
    if dx > dz { dx } else { dz }
}

/// A ring holds exactly the cells that far apart.
pub proof fn rings_are_exact(cx: int, cz: int, r: int, x: int, z: int)
    requires
        0 <= cx < COLS,
        0 <= cz < ROWS,
        0 <= r,
        0 <= x < COLS,
        0 <= z < ROWS,
    ensures
        ring_cells(cx, cz, r).contains(z * 16 + x) <==> cell_gap(cx, cz, x, z) == r,
{
    let c = z * 16 + x;
    if r == 0 {
        let ring = ring_cells(cx, cz, 0);
        assert(ring.len() == 1 && ring[0] == cz * 16 + cx);
        if cell_gap(cx, cz, x, z) == 0 {
            assert(ring.contains(c)) by {
                assert(ring[0] == c);
            }
        }
        if ring.contains(c) {
            let k = choose|k: int| 0 <= k < ring.len() && ring[k] == c;
            assert(cz * 16 + cx == z * 16 + x);
        }
    } else {
        lemma_ring_rows_exact(cx, cz, r, high(cz, r, ROWS as int) + 1, x, z);
    }
}

proof fn lemma_ring_row_exact(cx: int, cz: int, r: int, row: int, x: int, z: int)
    requires
        0 <= cx < COLS,
        0 <= cz < ROWS,
        0 < r,
        0 <= x < COLS,
        0 <= z < ROWS,
        low(cz, r) <= row <= high(cz, r, ROWS as int),
    ensures
        ring_row(cx, cz, r, row).contains(z * 16 + x) <==> z == row && cell_gap(cx, cz, x, z) == r,
{
    let c = z * 16 + x;
    let s = ring_row(cx, cz, r, row);
    if row == cz - r || row == cz + r {
        let lo = low(cx, r);
        if z == row && cell_gap(cx, cz, x, z) == r {
            assert(s[x - lo] == c);
        }
        if s.contains(c) {
            let k = choose|k: int| 0 <= k < s.len() && s[k] == c;
            assert(row * 16 + lo + k == z * 16 + x);
        }
    } else {
        if s.contains(c) {
            let k = choose|k: int| 0 <= k < s.len() && s[k] == c;
            assert(s[k] == row * 16 + cx - r || s[k] == row * 16 + cx + r);
        }
        if z == row && cell_gap(cx, cz, x, z) == r {
            if x == cx - r {
                assert(s[0] == c);
            } else {
                assert(x == cx + r);
                assert(s[s.len() - 1] == c);
            }
        }
    }
}

proof fn lemma_ring_rows_exact(cx: int, cz: int, r: int, end: int, x: int, z: int)
    requires
        0 <= cx < COLS,
        0 <= cz < ROWS,
        0 < r,
        0 <= x < COLS,
        0 <= z < ROWS,
        end <= high(cz, r, ROWS as int) + 1,
    ensures
        ring_rows(cx, cz, r, end).contains(z * 16 + x) <==> z < end && cell_gap(cx, cz, x, z) == r,
    decreases end - low(cz, r),
{
    let c = z * 16 + x;
    if end > low(cz, r) {
        lemma_ring_rows_exact(cx, cz, r, end - 1, x, z);
        lemma_ring_row_exact(cx, cz, r, end - 1, x, z);
        let a = ring_rows(cx, cz, r, end - 1);
        let b = ring_row(cx, cz, r, end - 1);
        let s = a + b;
        assert(ring_rows(cx, cz, r, end) == s);
        if s.contains(c) {
            let k = choose|k: int| 0 <= k < s.len() && s[k] == c;
            if k < a.len() {
                assert(a[k] == c);
            } else {
                assert(b[k - a.len()] == c);
            }
        }
        if a.contains(c) {
            let k = choose|k: int| 0 <= k < a.len() && a[k] == c;
            assert(s[k] == c);
        }
        if b.contains(c) {
            let k = choose|k: int| 0 <= k < b.len() && b[k] == c;
            assert(s[a.len() + k] == c);
        }
    } else {
        if cell_gap(cx, cz, x, z) == r {
            assert(z >= low(cz, r));
        }
    }
}

} // verus!
