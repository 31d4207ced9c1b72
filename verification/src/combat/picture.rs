//! What the picture of the field holds: every unit once, found by its name and by its cell.

use vstd::prelude::*;

use super::grid::{
    cell_of, column, gather, gather_row, high, in_circle_spec, low, reach, row,
};
use super::targeting::{grid_of, index_of, lookup, of_kind, snap_of, snapshot, snapshot_is_complete};
use super::UnitSnap;
use crate::components::{Actor, UnitKind};
use crate::constants::CELLS;
use crate::identity::distinct;
use crate::scalar::Scalar;
use crate::vector::Vec3;

verus! {

/// The most units that a picture can number.
pub const MOST_UNITS: u64 = 0x1_0000_0000;

/// Whether no two units of a picture have the same name.
pub open spec fn named_apart<S: Scalar>(snaps: Seq<UnitSnap<S>>) -> bool {
    forall|i: int, j: int|
        0 <= i < j < snaps.len() ==> (#[trigger] snaps[i]).entity != (#[trigger] snaps[j]).entity
}

proof fn lemma_index_names<S: Scalar>(snaps: Seq<UnitSnap<S>>)
    requires
        snaps.len() <= MOST_UNITS,
    ensures
        forall|e: u64| #[trigger]
            index_of(snaps).contains_key(e) ==> index_of(snaps)[e] < snaps.len()
                && snaps[index_of(snaps)[e] as int].entity == e,
        forall|i: int|
            0 <= i < snaps.len() ==> index_of(snaps).contains_key((#[trigger] snaps[i]).entity),
    decreases snaps.len(),
{
    if snaps.len() > 0 {
        let rest = snaps.drop_last();
        lemma_index_names(rest);
        assert forall|e: u64| #[trigger] index_of(snaps).contains_key(e) implies index_of(snaps)[e]
            < snaps.len() && snaps[index_of(snaps)[e] as int].entity == e by {
            if e != snaps.last().entity {
                assert(index_of(rest).contains_key(e));
                assert(rest[index_of(rest)[e] as int].entity == e);
            }
        }
        assert forall|i: int| 0 <= i < snaps.len() implies index_of(snaps).contains_key(
            (#[trigger] snaps[i]).entity,
        ) by {
            if i < rest.len() {
                assert(index_of(rest).contains_key(rest[i].entity));
            }
        }
    }
}

/// The index has the place of every unit under its name, and nothing else.
pub proof fn index_is_exact<S: Scalar>(snaps: Seq<UnitSnap<S>>)
    requires
        snaps.len() <= MOST_UNITS,
        named_apart(snaps),
    ensures
        forall|i: int|
            0 <= i < snaps.len() ==> index_of(snaps).contains_key((#[trigger] snaps[i]).entity)
                && index_of(snaps)[snaps[i].entity] == i,
        forall|e: u64| #[trigger]
            index_of(snaps).contains_key(e) ==> exists|i: int|
                0 <= i < snaps.len() && (#[trigger] snaps[i]).entity == e,
{
    lemma_index_names(snaps);
    assert forall|i: int| 0 <= i < snaps.len() implies index_of(snaps).contains_key(
        (#[trigger] snaps[i]).entity,
    ) && index_of(snaps)[snaps[i].entity] == i by {
        let k = index_of(snaps)[snaps[i].entity] as int;
        assert(snaps[k].entity == snaps[i].entity);
    }
    assert forall|e: u64| #[trigger] index_of(snaps).contains_key(e) implies exists|i: int|
        0 <= i < snaps.len() && (#[trigger] snaps[i]).entity == e by {
        assert(snaps[index_of(snaps)[e] as int].entity == e);
    }
}

/// The grid has the place of every troop in the cell in which it stands, once, and nothing else.
pub proof fn grid_is_exact<S: Scalar>(snaps: Seq<UnitSnap<S>>)
    requires
        snaps.len() <= MOST_UNITS,
    ensures
        grid_of(snaps).len() == CELLS,
        forall|i: int|
            0 <= i < snaps.len() && (#[trigger] snaps[i]).kind == UnitKind::Troop ==> grid_of(
                snaps,
            )[cell_of(snaps[i].pos)].contains(i as u32),
        forall|c: int, k: int|
            0 <= c < CELLS && 0 <= k < grid_of(snaps)[c].len() ==> {
                let i = #[trigger] grid_of(snaps)[c][k];
                i < snaps.len() && snaps[i as int].kind == UnitKind::Troop && cell_of(
                    snaps[i as int].pos,
                ) == c
            },
        forall|c: int, k: int, l: int|
            0 <= c < CELLS && 0 <= k < l < grid_of(snaps)[c].len() ==> (#[trigger] grid_of(snaps)[c][k])
                < (#[trigger] grid_of(snaps)[c][l]),
    decreases snaps.len(),
{
    if snaps.len() > 0 {
        let rest = snaps.drop_last();
        let last = snaps.last();
        let n = rest.len();
        grid_is_exact(rest);
        let g = grid_of(rest);
        let h = grid_of(snaps);
        let c = cell_of(last.pos);
        assert(0 <= column(last.pos.x) < 16);
        assert(0 <= row(last.pos.z) < 24);
        assert(0 <= c < CELLS);
        assert forall|i: int| 0 <= i < snaps.len() && (#[trigger] snaps[i]).kind == UnitKind::Troop implies h[cell_of(
            snaps[i].pos,
        )].contains(i as u32) by {
            let d = cell_of(snaps[i].pos);
            assert(0 <= column(snaps[i].pos.x) < 16);
            assert(0 <= row(snaps[i].pos.z) < 24);
            if i < n {
                assert(rest[i] == snaps[i]);
                assert(g[d].contains(i as u32));
                let k = choose|k: int| 0 <= k < g[d].len() && g[d][k] == i as u32;
                assert(h[d][k] == i as u32);
            } else {
                assert(h[d][g[d].len() as int] == i as u32);
            }
        }
        assert forall|d: int, k: int| 0 <= d < CELLS && 0 <= k < h[d].len() implies {
            let i = #[trigger] h[d][k];
            i < snaps.len() && snaps[i as int].kind == UnitKind::Troop && cell_of(snaps[i as int].pos) == d
        } by {
            if k < g[d].len() {
                let i = g[d][k];
                assert(h[d][k] == i);
                assert(i < n && rest[i as int] == snaps[i as int]);
            }
        }
        assert forall|d: int, k: int, l: int| 0 <= d < CELLS && 0 <= k < l < h[d].len() implies (
        #[trigger] h[d][k]) < (#[trigger] h[d][l]) by {
            assert(g[d][k] == h[d][k]);
            assert(g[d][k] < n);
            if l < g[d].len() {
                assert(g[d][l] == h[d][l]);
                assert(g[d][k] < g[d][l]);
            }
        }
    }
}

/// The place of unit `i` in the picture: after all units of the kinds that come before its own,
/// and after those of its kind that were there before it.
pub open spec fn place<S: Scalar>(units: Seq<Actor<S>>, i: int) -> int {
    let kind = units[i].unit.kind;
    let before = of_kind(units.take(i), kind).len() as int;
    match kind {
        UnitKind::Troop => before,
        UnitKind::Tower => of_kind(units, UnitKind::Troop).len() + before,
        UnitKind::Building => of_kind(units, UnitKind::Troop).len() + of_kind(
            units,
            UnitKind::Tower,
        ).len() + before,
    }
}

proof fn lemma_of_kind_prefix<S: Scalar>(units: Seq<Actor<S>>, i: int, kind: UnitKind)
    requires
        0 <= i <= units.len(),
    ensures
        of_kind(units.take(i), kind).len() <= of_kind(units, kind).len(),
        of_kind(units, kind).take(of_kind(units.take(i), kind).len() as int) == of_kind(units.take(i), kind),
    decreases units.len() - i,
{
    let part = of_kind(units.take(i), kind);
    if i == units.len() {
        assert(units.take(i) =~= units);
        assert(part.take(part.len() as int) =~= part);
    } else {
        lemma_of_kind_prefix(units, i + 1, kind);
        assert(units.take(i + 1).drop_last() =~= units.take(i));
        let next = of_kind(units.take(i + 1), kind);
        let all = of_kind(units, kind);
        assert(next.take(part.len() as int) =~= part);
        assert(all.take(next.len() as int).take(part.len() as int) =~= all.take(part.len() as int));
    }
}

/// Every unit has a place of its own in the picture, and of two of the same kind the earlier one
/// comes first.
pub proof fn places_are_apart<S: Scalar>(units: Seq<Actor<S>>, i: int, j: int)
    requires
        0 <= i < j < units.len(),
    ensures
        0 <= place(units, i) < snapshot(units).len(),
        snapshot(units)[place(units, i)] == snap_of(&units[i]),
        place(units, i) != place(units, j),
        units[i].unit.kind == units[j].unit.kind ==> place(units, i) < place(units, j),
{
    lemma_place(units, i);
    lemma_place(units, j);
    let kind = units[i].unit.kind;
    if kind == units[j].unit.kind {
        let upto = units.take(j);
        lemma_of_kind_prefix(upto, i + 1, kind);
        assert(upto.take(i + 1) =~= units.take(i + 1));
        assert(units.take(i + 1).drop_last() =~= units.take(i));
    }
}

proof fn lemma_place<S: Scalar>(units: Seq<Actor<S>>, i: int)
    requires
        0 <= i < units.len(),
    ensures
        0 <= place(units, i) < snapshot(units).len(),
        snapshot(units)[place(units, i)] == snap_of(&units[i]),
        of_kind(units.take(i), units[i].unit.kind).len() < of_kind(units, units[i].unit.kind).len(),
{
    let kind = units[i].unit.kind;
    lemma_of_kind_prefix(units, i + 1, kind);
    assert(units.take(i + 1).drop_last() =~= units.take(i));
    let all = of_kind(units, kind);
    let next = of_kind(units.take(i + 1), kind);
    let at = next.len() - 1;
    assert(all.take(next.len() as int)[at] == next[at]);
    assert(all[at] == snap_of(&units[i]));
}

proof fn lemma_source<S: Scalar>(units: Seq<Actor<S>>, kind: UnitKind, p: int) -> (i: int)
    requires
        0 <= p < of_kind(units, kind).len(),
    ensures
        0 <= i < units.len(),
        of_kind(units, kind)[p] == snap_of(&units[i]),
    decreases units.len(),
{
    let rest = of_kind(units.drop_last(), kind);
    if p < rest.len() {
        lemma_source(units.drop_last(), kind, p)
    } else {
        units.len() - 1
    }
}

/// By its name every unit on the field is found, as it stands there, and no other name is known.
pub proof fn names_are_found<S: Scalar>(units: Seq<Actor<S>>, next: u64, e: u64)
    requires
        distinct(units, next),
        units.len() <= MOST_UNITS,
    ensures
        forall|i: int|
            0 <= i < units.len() && (#[trigger] units[i]).entity == e ==> lookup(snapshot(units), e) == Some(
                snap_of(&units[i]),
            ),
        (forall|i: int| 0 <= i < units.len() ==> (#[trigger] units[i]).entity != e) ==> lookup(
            snapshot(units),
            e,
        ).is_none(),
{
    let snaps = snapshot(units);
    snapshot_is_complete(units);
    lemma_index_names(snaps);
    if index_of(snaps).contains_key(e) {
        let p = index_of(snaps)[e] as int;
        let troops = of_kind(units, UnitKind::Troop).len();
        let towers = of_kind(units, UnitKind::Tower).len();
        let k = if p < troops {
            lemma_source(units, UnitKind::Troop, p)
        } else if p < troops + towers {
            lemma_source(units, UnitKind::Tower, p - troops)
        } else {
            lemma_source(units, UnitKind::Building, p - troops - towers)
        };
        assert(snaps[p] == snap_of(&units[k]));
        assert(units[k].entity == e);
        assert forall|i: int| 0 <= i < units.len() && (#[trigger] units[i]).entity == e implies i == k by {
            if i != k {
                assert(units[i].entity != units[k].entity);
            }
        }
    } else {
        assert forall|i: int| 0 <= i < units.len() implies (#[trigger] units[i]).entity != e by {
            assert(snaps.contains(snap_of(&units[i])));
            let p = choose|p: int| 0 <= p < snaps.len() && snaps[p] == snap_of(&units[i]);
            assert(index_of(snaps).contains_key(snaps[p].entity));
        }
    }
}

proof fn lemma_of_kind_apart<S: Scalar>(units: Seq<Actor<S>>, next: u64, kind: UnitKind)
    requires
        distinct(units, next),
    ensures
        named_apart(of_kind(units, kind)),
    decreases units.len(),
{
    if units.len() > 0 {
        let rest = units.drop_last();
        assert(distinct(rest, next)) by {
            assert forall|i: int| 0 <= i < rest.len() implies (#[trigger] rest[i]).entity < next by {
                assert(units[i].entity < next);
            }
            assert forall|i: int, j: int| 0 <= i < rest.len() && 0 <= j < rest.len() && i != j implies (
            #[trigger] rest[i]).entity != (#[trigger] rest[j]).entity by {
                assert(units[i].entity != units[j].entity);
            }
        }
        lemma_of_kind_apart(rest, next, kind);
        let before = of_kind(rest, kind);
        let all = of_kind(units, kind);
        assert forall|i: int, j: int| 0 <= i < j < all.len() implies (#[trigger] all[i]).entity != (
        #[trigger] all[j]).entity by {
            if j < before.len() {
                assert(before[i].entity != before[j].entity);
            } else {
                let k = lemma_source(rest, kind, i);
                assert(units[k].entity != units[units.len() - 1].entity);
            }
        }
    }
}

/// The unit behind a place of the picture.
pub proof fn lemma_unit_behind<S: Scalar>(units: Seq<Actor<S>>, p: int) -> (i: int)
    requires
        0 <= p < snapshot(units).len(),
    ensures
        0 <= i < units.len(),
        snapshot(units)[p] == snap_of(&units[i]),
{
    let troops = of_kind(units, UnitKind::Troop).len();
    let towers = of_kind(units, UnitKind::Tower).len();
    if p < troops {
        lemma_source(units, UnitKind::Troop, p)
    } else if p < troops + towers {
        lemma_source(units, UnitKind::Tower, p - troops)
    } else {
        lemma_source(units, UnitKind::Building, p - troops - towers)
    }
}

/// Names that are apart on the field are apart in the picture.
pub proof fn picture_is_named_apart<S: Scalar>(units: Seq<Actor<S>>, next: u64)
    requires
        distinct(units, next),
    ensures
        named_apart(snapshot(units)),
{
    let snaps = snapshot(units);
    let troops = of_kind(units, UnitKind::Troop);
    let towers = of_kind(units, UnitKind::Tower);
    let buildings = of_kind(units, UnitKind::Building);
    lemma_of_kind_apart(units, next, UnitKind::Troop);
    lemma_of_kind_apart(units, next, UnitKind::Tower);
    lemma_of_kind_apart(units, next, UnitKind::Building);
    lemma_kind_of_kind(units, UnitKind::Troop);
    lemma_kind_of_kind(units, UnitKind::Tower);
    lemma_kind_of_kind(units, UnitKind::Building);
    let (t, w) = (troops.len(), towers.len());
    assert forall|i: int, j: int| 0 <= i < j < snaps.len() implies (#[trigger] snaps[i]).entity != (
    #[trigger] snaps[j]).entity by {
        if snaps[i].kind == snaps[j].kind {
            if j < t {
                assert(troops[i].entity != troops[j].entity);
            } else if j < t + w {
                assert(i >= t);
                assert(towers[i - t].entity != towers[j - t].entity);
            } else {
                assert(i >= t + w);
                assert(buildings[i - t - w].entity != buildings[j - t - w].entity);
            }
        } else {
            let a = lemma_unit_behind(units, i);
            let b = lemma_unit_behind(units, j);
            assert(units[a].entity != units[b].entity);
        }
    }
}

proof fn lemma_kind_of_kind<S: Scalar>(units: Seq<Actor<S>>, kind: UnitKind)
    ensures
        forall|i: int| 0 <= i < of_kind(units, kind).len() ==> (#[trigger] of_kind(units, kind)[i]).kind == kind,
    decreases units.len(),
{
    if units.len() > 0 {
        lemma_kind_of_kind(units.drop_last(), kind);
    }
}

/// Whether a list holds places of troops, each once, from the given rows and columns.
pub open spec fn simple_list<S: Scalar>(
    list: Seq<u32>,
    snaps: Seq<UnitSnap<S>>,
    z_lo: int,
    z_hi: int,
    lo: int,
    hi: int,
) -> bool {
    &&& list.no_duplicates()
    &&& forall|k: int|
        0 <= k < list.len() ==> {
            let v = #[trigger] list[k];
            &&& v < snaps.len()
            &&& snaps[v as int].kind == UnitKind::Troop
            &&& z_lo <= row(snaps[v as int].pos.z) < z_hi
            &&& lo <= column(snaps[v as int].pos.x) < hi
        }
}

proof fn lemma_row_simple<S: Scalar>(snaps: Seq<UnitSnap<S>>, z: int, lo: int, hi: int)
    requires
        snaps.len() <= MOST_UNITS,
        0 <= z < 24,
        0 <= lo,
        hi <= 16,
    ensures
        simple_list(gather_row(grid_of(snaps), z, lo, hi), snaps, z, z + 1, lo, hi),
    decreases hi - lo,
{
    if lo < hi {
        let g = grid_of(snaps);
        lemma_row_simple(snaps, z, lo, hi - 1);
        grid_is_exact(snaps);
        let before = gather_row(g, z, lo, hi - 1);
        let c = z * 16 + hi - 1;
        let all = gather_row(g, z, lo, hi);
        assert forall|k: int| 0 <= k < all.len() implies {
            let v = #[trigger] all[k];
            &&& v < snaps.len()
            &&& snaps[v as int].kind == UnitKind::Troop
            &&& z <= row(snaps[v as int].pos.z) < z + 1
            &&& lo <= column(snaps[v as int].pos.x) < hi
        } by {
            if k < before.len() {
                assert(all[k] == before[k]);
            } else {
                let v = g[c][k - before.len()];
                assert(all[k] == v);
                assert(cell_of(snaps[v as int].pos) == c);
                assert(0 <= column(snaps[v as int].pos.x) < 16);
            }
        }
        assert forall|j: int, k: int| 0 <= j < all.len() && 0 <= k < all.len() && j != k implies all[j] != all[k] by {
            if j < k {
                lemma_apart_in_row(snaps, z, lo, hi, j, k);
            } else {
                lemma_apart_in_row(snaps, z, lo, hi, k, j);
            }
        }
    }
}

proof fn lemma_apart_in_row<S: Scalar>(snaps: Seq<UnitSnap<S>>, z: int, lo: int, hi: int, j: int, k: int)
    requires
        snaps.len() <= MOST_UNITS,
        0 <= z < 24,
        0 <= lo < hi <= 16,
        simple_list(gather_row(grid_of(snaps), z, lo, hi - 1), snaps, z, z + 1, lo, hi - 1),
        0 <= j < k < gather_row(grid_of(snaps), z, lo, hi).len(),
    ensures
        gather_row(grid_of(snaps), z, lo, hi)[j] != gather_row(grid_of(snaps), z, lo, hi)[k],
{
    grid_is_exact(snaps);
    let g = grid_of(snaps);
    let before = gather_row(g, z, lo, hi - 1);
    let c = z * 16 + hi - 1;
    let all = gather_row(g, z, lo, hi);
    if k < before.len() {
        assert(before[j] != before[k]);
    } else {
        let v = g[c][k - before.len()];
        assert(all[k] == v);
        assert(cell_of(snaps[v as int].pos) == c);
        assert(0 <= column(snaps[v as int].pos.x) < 16);
        assert(0 <= row(snaps[v as int].pos.z) < 24);
        if j < before.len() {
            assert(all[j] == before[j]);
            assert(column(snaps[before[j] as int].pos.x) < hi - 1);
        } else {
            assert(all[j] == g[c][j - before.len()]);
            assert(g[c][j - before.len()] < g[c][k - before.len()]);
        }
    }
}

proof fn lemma_gather_simple<S: Scalar>(snaps: Seq<UnitSnap<S>>, z_lo: int, z_hi: int, lo: int, hi: int)
    requires
        snaps.len() <= MOST_UNITS,
        0 <= z_lo,
        z_hi <= 24,
        0 <= lo,
        hi <= 16,
    ensures
        simple_list(gather(grid_of(snaps), z_lo, z_hi, lo, hi), snaps, z_lo, z_hi, lo, hi),
    decreases z_hi - z_lo,
{
    if z_lo < z_hi {
        let g = grid_of(snaps);
        lemma_gather_simple(snaps, z_lo, z_hi - 1, lo, hi);
        lemma_row_simple(snaps, z_hi - 1, lo, hi);
        let before = gather(g, z_lo, z_hi - 1, lo, hi);
        let last = gather_row(g, z_hi - 1, lo, hi);
        let all = gather(g, z_lo, z_hi, lo, hi);
        assert(all =~= before + last);
        assert forall|k: int| 0 <= k < all.len() implies {
            let v = #[trigger] all[k];
            &&& v < snaps.len()
            &&& snaps[v as int].kind == UnitKind::Troop
            &&& z_lo <= row(snaps[v as int].pos.z) < z_hi
            &&& lo <= column(snaps[v as int].pos.x) < hi
        } by {
            if k < before.len() {
                assert(all[k] == before[k]);
            } else {
                assert(all[k] == last[k - before.len()]);
            }
        }
        assert forall|j: int, k: int| 0 <= j < all.len() && 0 <= k < all.len() && j != k implies all[j] != all[k] by {
            let (x, y) = if j < k { (j, k) } else { (k, j) };
            if y < before.len() {
                assert(before[x] != before[y]);
            } else if x >= before.len() {
                assert(last[x - before.len()] != last[y - before.len()]);
            } else {
                assert(all[x] == before[x]);
                assert(all[y] == last[y - before.len()]);
                assert(row(snaps[before[x] as int].pos.z) < z_hi - 1);
                assert(row(snaps[last[y - before.len()] as int].pos.z) >= z_hi - 1);
            }
        }
    }
}

/// A circle query lists troops only, and each of them once.
pub proof fn circles_list_once<S: Scalar>(snaps: Seq<UnitSnap<S>>, pos: Vec3<S>, radius: S)
    requires
        snaps.len() <= MOST_UNITS,
    ensures
        in_circle_spec(grid_of(snaps), pos, radius).no_duplicates(),
        forall|k: int|
            0 <= k < in_circle_spec(grid_of(snaps), pos, radius).len() ==> {
                let v = #[trigger] in_circle_spec(grid_of(snaps), pos, radius)[k];
                v < snaps.len() && snaps[v as int].kind == UnitKind::Troop
            },
{
    let r = reach(radius);
    let (cx, cz) = (column(pos.x), row(pos.z));
    lemma_gather_simple(snaps, low(cz, r), high(cz, r, 24) + 1, low(cx, r), high(cx, r, 16) + 1);
}

} // verus!
