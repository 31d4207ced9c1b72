//! The cards in numbers.

use vstd::prelude::*;

use crate::combat::nearest::lemma_quotient;
use crate::constants::{card_spec, king_tower, princess_tower, CardKind};
use crate::fixed::Fixed;
use crate::scalar::Scalar;

verus! {

/// The traits of the troops, in hundredths: reach, sight, speed, radius, mass, seconds from blow to
/// blow, and radius of the splash.
pub open spec fn traits(id: int) -> Seq<int> {
    seq![
        seq![75int, 500, 150, 50, 100, 100, 0],
        seq![45, 200, 200, 30, 30, 100, 0],
        seq![400, 500, 150, 50, 80, 100, 0],
        seq![120, 500, 100, 80, 300, 150, 0],
        seq![45, 200, 250, 30, 40, 110, 0],
        seq![400, 500, 150, 40, 60, 120, 0],
        seq![75, 500, 200, 50, 120, 180, 0],
        seq![70, 500, 150, 45, 100, 140, 0],
        seq![90, 500, 250, 50, 120, 160, 0],
        seq![90, 500, 150, 55, 150, 140, 0],
        seq![350, 450, 150, 35, 50, 190, 150],
        seq![90, 500, 150, 55, 120, 150, 150],
        seq![400, 500, 150, 50, 80, 140, 120],
        seq![45, 300, 200, 30, 30, 100, 0],
        seq![250, 400, 150, 60, 80, 160, 120],
    ][id]
}

/// So many hundredths, rounded down to 65536ths.
pub open spec fn parts(h: int) -> int {
    h * 65536 / 100
}

proof fn lemma_parts()
    ensures
        forall|n: i64| 0 <= n <= 100000 ==> (#[trigger] Fixed::ratio(n, 100)).raw == parts(n as int),
        forall|n: i64| 0 <= n <= 100000 ==> (#[trigger] Fixed::ratio(n, 1)).raw == parts(100 * n),
{
    assert forall|n: i64| 0 <= n <= 100000 implies (#[trigger] Fixed::ratio(n, 1)).raw == parts(100 * n) by {
        lemma_quotient(n * 65536, 1, n * 65536);
        assert(100 * n * 65536 / 100 == n * 65536);
    }
}

/// The troops of the catalogue, in fixed point: how far they reach and see, how fast and how large they
/// are, how often they strike and how wide. Musketeers, archers, bombers, wizards and dragons shoot;
/// those of them but bombers hit air, and so do minions.
pub proof fn troops_are_as_listed(id: u8)
    requires
        id < 15,
    ensures
        card_spec::<Fixed>(id) matches Some(c) && c.kind matches CardKind::Troop(m) && {
            let t = traits(id as int);
            &&& m.attack_range.raw == parts(t[0])
            &&& m.aggro_range.raw == parts(t[1])
            &&& m.speed.raw == parts(t[2])
            &&& m.radius.raw == parts(t[3])
            &&& m.mass.raw == parts(t[4])
            &&& m.attack_interval.raw == parts(t[5])
            &&& m.splash_radius.raw == parts(t[6])
            &&& m.ranged <==> id == 2 || id == 5 || id == 10 || id == 12 || id == 14
            &&& m.hits_air <==> id == 2 || id == 5 || id == 12 || id == 13 || id == 14
            &&& m.charge matches Some(w) ==> w.windup_secs.raw == parts(250) && w.speed_mult.raw == parts(200)
                && w.damage_mult.raw == parts(200)
        },
{
    lemma_parts();
}

/// The spells and the buildings of the catalogue, in fixed point.
pub proof fn spells_and_buildings_are_as_listed(id: u8)
    ensures
        card_spec::<Fixed>(id) matches Some(c) ==> {
            &&& c.kind matches CardKind::Spell(s) ==> {
                &&& s.radius.raw == parts(if id == 15 { 120 } else if id == 16 { 200 } else if id == 17 { 150 } else { 300 })
                &&& s.stun_secs.raw == parts(if id == 15 { 50 } else { 0 })
                &&& s.waves == (if id == 16 { 3u32 } else { 1 })
                &&& s.rage matches Some(r) ==> r.pct.raw == parts(35) && r.secs.raw == parts(600)
            }
            &&& c.kind matches CardKind::Building(b) ==> {
                &&& b.lifetime_secs.raw == parts(3000)
                &&& b.attack matches Some(g) ==> g.damage.raw == parts(9000) && g.range.raw == parts(500) && g.interval.raw
                    == parts(90) && !g.hits_air
                &&& b.spawner matches Some(h) ==> h.interval_secs.raw == parts(400) && h.card_id == 1
            }
        },
{
    lemma_parts();
}

/// The towers: their body, their reach and their health, in fixed point.
pub proof fn towers_are_as_listed()
    ensures
        king_tower::<Fixed>().body_radius.raw == parts(120),
        king_tower::<Fixed>().attack_range.raw == parts(600),
        king_tower::<Fixed>().hp.raw == parts(1000000),
        king_tower::<Fixed>().bar_width.raw == parts(240),
        king_tower::<Fixed>().bar_y.raw == parts(430),
        king_tower::<Fixed>().body_height.raw == parts(250),
        king_tower::<Fixed>().roof_radius.raw == parts(150),
        king_tower::<Fixed>().roof_height.raw == parts(120),
        king_tower::<Fixed>().is_king,
        princess_tower::<Fixed>().body_radius.raw == parts(100),
        princess_tower::<Fixed>().attack_range.raw == parts(600),
        princess_tower::<Fixed>().hp.raw == parts(600000),
        princess_tower::<Fixed>().bar_width.raw == parts(200),
        princess_tower::<Fixed>().bar_y.raw == parts(380),
        princess_tower::<Fixed>().body_height.raw == parts(220),
        princess_tower::<Fixed>().roof_radius.raw == parts(125),
        princess_tower::<Fixed>().roof_height.raw == parts(100),
        !princess_tower::<Fixed>().is_king,
{
    lemma_parts();
}

} // verus!
