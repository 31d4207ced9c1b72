//! What is shown, and what clicks mean, in single precision.

use cr_arena::arena::opening;
use cr_arena::cards::{tower_snaps, TowerSnap};
use cr_arena::components::{Elixir, Faction, GameCommand, Health};
use cr_arena::constants::card;
use cr_arena::deploy_zone::{zone, ZoneKind};
use cr_arena::hud::{
    bar, elixir_bar, multiplier_label, new_casts, pop_size, ring, shown_elixir, slot_look, spark, tint,
    SlotLook, Spark, Tint,
};
use cr_arena::input::{gather_input, spell_range, Seating};
use cr_arena::match_flow::{MatchPhase, MatchTimer, SimState};
use cr_arena::scalar::Scalar;
use cr_arena::vector::Vec3;

/// Single precision as the numbers of the simulation.
#[derive(Clone, Copy, PartialEq, PartialOrd, Debug)]
struct Real(f32);

impl Scalar for Real {
    fn ratio_spec(num: i64, den: i64) -> Self {
        Self::ratio(num, den)
    }
    fn ratio(num: i64, den: i64) -> Self {
        Real(num as f32 / den as f32)
    }
    fn infinity_spec() -> Self {
        Self::infinity()
    }
    fn infinity() -> Self {
        Real(f32::INFINITY)
    }
    fn plus_spec(self, other: Self) -> Self {
        self.plus(other)
    }
    fn plus(self, other: Self) -> Self {
        Real(self.0 + other.0)
    }
    fn minus_spec(self, other: Self) -> Self {
        self.minus(other)
    }
    fn minus(self, other: Self) -> Self {
        Real(self.0 - other.0)
    }
    fn times_spec(self, other: Self) -> Self {
        self.times(other)
    }
    fn times(self, other: Self) -> Self {
        Real(self.0 * other.0)
    }
    fn over_spec(self, other: Self) -> Self {
        self.over(other)
    }
    fn over(self, other: Self) -> Self {
        Real(self.0 / other.0)
    }
    fn root_spec(self) -> Self {
        self.root()
    }
    fn root(self) -> Self {
        Real(self.0.sqrt())
    }
    fn magnitude_spec(self) -> Self {
        self.magnitude()
    }
    fn magnitude(self) -> Self {
        Real(self.0.abs())
    }
    fn sign_spec(self) -> Self {
        self.sign()
    }
    fn sign(self) -> Self {
        Real(self.0.signum())
    }
    fn negated_spec(self) -> Self {
        self.negated()
    }
    fn negated(self) -> Self {
        Real(-self.0)
    }
    fn least_spec(self, other: Self) -> Self {
        self.least(other)
    }
    fn least(self, other: Self) -> Self {
        Real(self.0.min(other.0))
    }
    fn most_spec(self, other: Self) -> Self {
        self.most(other)
    }
    fn most(self, other: Self) -> Self {
        Real(self.0.max(other.0))
    }
    fn ceiling_spec(self) -> Self {
        self.ceiling()
    }
    fn ceiling(self) -> Self {
        Real(self.0.ceil())
    }
    fn fraction_spec(self) -> Self {
        self.fraction()
    }
    fn fraction(self) -> Self {
        Real(self.0.fract())
    }
    fn truncated_spec(self) -> i64 {
        self.truncated()
    }
    fn truncated(self) -> i64 {
        self.0 as i64
    }
    fn nanos_spec(self) -> u64 {
        self.nanos()
    }
    fn nanos(self) -> u64 {
        if self.0 > 0.0 {
            match std::time::Duration::try_from_secs_f32(self.0) {
                Ok(d) => u64::try_from(d.as_nanos()).unwrap_or(u64::MAX),
                Err(_) => u64::MAX,
            }
        } else {
            0
        }
    }
    fn bits_spec(self) -> u32 {
        self.bits()
    }
    fn bits(self) -> u32 {
        self.0.to_bits()
    }
    fn less_spec(self, other: Self) -> bool {
        self.less(other)
    }
    fn less(self, other: Self) -> bool {
        self.0 < other.0
    }
    fn at_most_spec(self, other: Self) -> bool {
        self.at_most(other)
    }
    fn at_most(self, other: Self) -> bool {
        self.0 <= other.0
    }
    fn same_spec(self, other: Self) -> bool {
        self.same(other)
    }
    fn same(self, other: Self) -> bool {
        self.0 == other.0
    }
    fn less_irreflexive(_a: Self) {}
    fn less_transitive(_a: Self, _b: Self, _c: Self) {}
    fn less_excludes_at_most(_a: Self, _b: Self) {}
    fn least_bounded(_a: Self, _b: Self) {}
    fn whole_less(_a: i64, _b: i64) {}
    fn whole_negated(_a: i64) {}
    fn unit_factor(_num: i64, _den: i64) {}
    fn at_most_reflexive(_a: Self) {}
    fn at_most_transitive(_a: Self, _b: Self, _c: Self) {}
    fn less_carries(_a: Self, _b: Self, _c: Self) {}
    fn minus_monotone(_a: Self, _b: Self, _c: Self, _d: Self) {}
    fn minus_shrinks(_a: Self, _d: Self) {}
    fn times_monotone(_k: Self, _a: Self, _b: Self) {}
}

fn v(x: f32, y: f32, z: f32) -> Vec3<Real> {
    Vec3 { x: Real(x), y: Real(y), z: Real(z) }
}

fn parts(c: Option<GameCommand<Real>>) -> Option<(Faction, u8, f32, f32)> {
    c.map(|c| match c {
        GameCommand::Deploy { faction, card, x, z } => (faction, card, x.0, z.0),
    })
}

#[test]
fn clicks_alone_are_for_the_half_they_hit() {
    let w = opening::<Real>(42, SimState::Solo);
    assert_eq!(
        parts(gather_input(&w, Seating::Alone, 0, v(99.0, 0.0, -99.0))),
        Some((Faction::Player, w.decks.player[0], 8.0, -14.0))
    );
    assert_eq!(
        parts(gather_input(&w, Seating::Alone, 9, v(1.0, 0.0, 0.0))),
        Some((Faction::Enemy, w.decks.enemy[3], 1.0, 0.0))
    );
}

#[test]
fn clicks_online_keep_the_rules() {
    let mut w = opening::<Real>(42, SimState::Playing);
    w.decks.player[0] = 0;
    w.decks.enemy[0] = 0;
    assert_eq!(
        parts(gather_input(&w, Seating::Online(0), 0, v(1.0, 0.0, -5.0))),
        Some((Faction::Player, 0, 1.0, -5.0))
    );
    assert!(gather_input(&w, Seating::Online(0), 0, v(1.0, 0.0, 5.0)).is_none());
    assert!(gather_input(&w, Seating::Online(1), 0, v(1.0, 0.0, 5.0)).is_some());
    assert!(gather_input(&w, Seating::Online(255), 0, v(1.0, 0.0, 5.0)).is_none());
    assert!(gather_input(&w, Seating::AgainstBot, 0, v(1.0, 0.0, 5.0)).is_none());
    w.state = SimState::CatchingUp;
    assert!(gather_input(&w, Seating::Online(0), 0, v(1.0, 0.0, -5.0)).is_none());
}

#[test]
fn spells_show_their_reach() {
    let mut w = opening::<Real>(42, SimState::Solo);
    w.decks.player[0] = 17;
    w.decks.player[1] = 0;
    let (p, r) = spell_range(&w, Seating::AgainstBot, 0, v(20.0, 0.0, 3.0)).unwrap();
    assert_eq!((p.x, p.z, r), (Real(8.0), Real(3.0), Real(1.5)));
    assert!(spell_range(&w, Seating::AgainstBot, 1, v(0.0, 0.0, 3.0)).is_none());
}

#[test]
fn zones_open_with_fallen_towers() {
    let w = opening::<Real>(42, SimState::Playing);
    let towers = tower_snaps(&w.units);
    let z = zone(ZoneKind::ExpandLeft, true, Some(Faction::Player), &towers).unwrap();
    assert!(!z.visible);
    let left: Vec<TowerSnap<Real>> = towers
        .iter()
        .filter(|t| !(t.faction == Faction::Enemy && t.pos.x.0 < 0.0))
        .cloned()
        .collect();
    let z = zone(ZoneKind::ExpandLeft, true, Some(Faction::Player), &left).unwrap();
    assert!(z.visible);
    assert_eq!((z.x, z.z, z.width, z.depth), (Real(-4.0), Real(4.875), Real(8.0), Real(7.25)));
    let z = zone(ZoneKind::OwnHalf, true, Some(Faction::Player), &left).unwrap();
    assert_eq!((z.z, z.depth), (Real(-7.625), Real(12.75)));
    assert!(zone(ZoneKind::OwnHalf, true, None, &left).is_none());
    let z = zone(ZoneKind::EnemyBlocked, false, None, &left).unwrap();
    assert_eq!((z.z, z.width, z.depth), (Real(0.0), Real(18.0), Real(2.5)));
}

#[test]
fn bars_and_labels() {
    let e = Elixir { player: Real(7.6), enemy: Real(2.0) };
    assert_eq!(shown_elixir(&e, Some(Faction::Enemy)), Real(2.0));
    assert_eq!(shown_elixir(&e, None), Real(7.6));
    assert_eq!(elixir_bar(Real(7.5)), (Real(75.0), 7));
    assert_eq!(multiplier_label(&MatchTimer::new()), None);
    assert_eq!(
        multiplier_label(&MatchTimer { phase: MatchPhase::Drain, ticks_left: 0 }),
        Some(3)
    );
    let b = bar(&Health { current: Real(50.0), max: Real(200.0) }, Real(2.0));
    assert_eq!((b.visible, b.scale, b.shift), (true, Real(0.25), Real(-0.75)));
    assert!(!bar(&Health::new(Real(5.0)), Real(2.0)).visible);
}

#[test]
fn card_slots() {
    let giant = card::<Real>(3).unwrap();
    assert_eq!(slot_look(1, 1, Real(0.0), &giant), SlotLook::Selected);
    assert_eq!(slot_look(0, 1, Real(4.9), &giant), SlotLook::TooDear);
    assert_eq!(slot_look(0, 1, Real(5.0), &giant), SlotLook::Ready);
    assert_eq!(tint(Real(0.3)), Tint::Pale);
    assert_eq!(tint(Real(0.5)), Tint::Plain);
    assert_eq!(tint(Real(0.8)), Tint::Dark);
}

#[test]
fn spells_are_noticed_once() {
    let cast = |card: u8| GameCommand::Deploy {
        faction: Faction::Player,
        card,
        x: Real(1.0),
        z: Real(2.0),
    };
    let mut log = vec![(0, cast(0)), (1, cast(15)), (1, cast(77))];
    let mut cursor = 0;
    let c = new_casts(&log, &mut cursor);
    assert_eq!((c.len(), cursor), (1, 3));
    assert_eq!((c[0].card, c[0].x), (15, Real(1.0)));
    assert!((c[0].end_radius.0 - 1.6).abs() < 1e-6);
    assert!(new_casts(&log, &mut cursor).is_empty());
    log.truncate(1);
    assert!(new_casts(&log, &mut cursor).is_empty());
    assert_eq!(cursor, 1);
}

#[test]
fn effects() {
    assert_eq!(pop_size(Real(0.0)), Real(40.0));
    assert_eq!(pop_size(Real(9.0)), Real(80.0));
    let (r, alpha, over) = ring(Real(0.25), Real(0.5), Real(2.0));
    assert_eq!((r, alpha, over), (Real(1.0), Real(0.45), false));
    assert!(ring(Real(0.5), Real(0.5), Real(2.0)).2);
    let s = Spark { x: Real(0.0), y: Real(0.0), vx: Real(10.0), vy: Real(0.0), life: Real(1.0) };
    let t = spark(&s, Real(0.5)).unwrap();
    assert_eq!((t.vx, t.vy, t.life), (Real(7.0), Real(104.0), Real(0.5)));
    assert_eq!((t.x, t.y), (Real(3.5), Real(52.0)));
    assert!(spark(&t, Real(0.5)).is_none());
}
