//! Cards in play: where they may go, what they cost, what they do.

use vstd::prelude::*;

use crate::buffs::{
    applied, channels_spec, first_named, status_model, status_models, statuses_wf,
    stun_blocks_everything, ActiveBuff, BuffModel, Buffs,
};
use crate::components::{
    Actor, CCFlags, Deploying, Faction, Op, SpellVolley, StackPolicy, StatKind, StatMod, UnitKind,
};
use crate::constants::{
    arena_half_depth, arena_half_width, building_radius, card, card_spec, princess_z,
    river_half_width, CardKind, CardSpec, RageSpec, SpellSpec, CARD_COUNT, HAND_SIZE,
    SPELL_WAVE_FIRST_TICKS, SPELL_WAVE_INTERVAL_TICKS,
};
use crate::decks::{cycled, cycling_is_permutation, hand_position, hand_position_from};
use crate::scalar::{hundredths, one, whole, zero, Scalar};
use crate::vector::Vec3;
use crate::world::{ghosts_wf, World, WorldModel};

verus! {

/// A standing tower.
#[derive(Clone, Copy, Debug)]
pub struct TowerSnap<S> {
    pub faction: Faction,
    pub is_king: bool,
    pub pos: Vec3<S>,
}

/// The sign of the half of the field that belongs to a side.
#[verifier::allow_in_spec]
pub fn own_sign<S: Scalar>(faction: Faction) -> S
    returns
        (match faction {
            Faction::Player => one::<S>().negated(),
            Faction::Enemy => one::<S>(),
        }),
{
    match faction {
        Faction::Player => one::<S>().negated(),
        Faction::Enemy => one(),
    }
}

/// Whether `t` is a princess tower of the opponent on that flank.
#[verifier::allow_in_spec]
pub fn guards<S: Scalar>(t: &TowerSnap<S>, faction: Faction, left: bool) -> bool
    returns
        (t.faction != faction && !t.is_king && t.pos.x.less(zero()) == left),
{
    t.faction != faction && !t.is_king && t.pos.x.less(zero()) == left
}

/// Whether the opponent still has a princess tower on that flank.
pub open spec fn guarded<S: Scalar>(towers: Seq<TowerSnap<S>>, faction: Faction, left: bool) -> bool {
    exists|i: int| 0 <= i < towers.len() && guards(&#[trigger] towers[i], faction, left)
}

fn is_guarded<S: Scalar>(towers: &Vec<TowerSnap<S>>, faction: Faction, left: bool) -> (r: bool)
    ensures
        r == guarded(towers@, faction, left),
{
    let n: usize = towers.len();
    let mut i: usize = 0;
    while i < n
        invariant
            n == towers@.len(),
            i <= n,
            forall|j: int| 0 <= j < i ==> !guards(&#[trigger] towers@[j], faction, left),
        decreases n - i,
    {
        if guards(&towers[i], faction, left) {
            assert(guards(&towers@[i as int], faction, left));
            return true;
        }
        i += 1;
    }
    false
}

/// Whether troops may be put at a point: never in the river; anywhere in the own half; in the
/// other half up to the line of the princess towers, on a flank whose tower has fallen.
pub open spec fn deploy_allowed_spec<S: Scalar>(
    faction: Faction,
    pos: Vec3<S>,
    towers: Seq<TowerSnap<S>>,
) -> bool {
    &&& !pos.z.magnitude().less(river_half_width())
    &&& {
        ||| pos.z.sign().same(own_sign(faction))
        ||| !princess_z::<S>().less(pos.z.magnitude()) && !guarded(towers, faction, pos.x.less(zero()))
    }
}

/// Whether troops may be put at a point.
pub fn deploy_allowed<S: Scalar>(faction: Faction, pos: Vec3<S>, towers: &Vec<TowerSnap<S>>) -> (r: bool)
    ensures
        r == deploy_allowed_spec(faction, pos, towers@),
{
    if pos.z.magnitude().less(river_half_width()) {
        return false;
    }
    if pos.z.sign().same(own_sign(faction)) {
        return true;
    }
    if princess_z::<S>().less(pos.z.magnitude()) {
        return false;
    }
    !is_guarded(towers, faction, pos.x.less(zero()))
}

/// Whether a card may be played at a point: spells anywhere on the field, buildings in the own
/// half off the river, troops as [`deploy_allowed`] says.
pub open spec fn deploy_zone_ok_spec<S: Scalar>(
    spec: CardSpec<S>,
    faction: Faction,
    pos: Vec3<S>,
    towers: Seq<TowerSnap<S>>,
) -> bool {
    match spec.kind {
        CardKind::Spell(_) => pos.x.magnitude().at_most(arena_half_width())
            && pos.z.magnitude().at_most(arena_half_depth()),
        CardKind::Building(_) => pos.z.sign().same(own_sign(faction))
            && river_half_width::<S>().at_most(pos.z.magnitude()) && pos.z.magnitude().at_most(
            arena_half_depth(),
        ),
        CardKind::Troop(_) => deploy_allowed_spec(faction, pos, towers),
    }
}

/// Whether a card may be played at a point.
pub fn deploy_zone_ok<S: Scalar>(
    spec: &CardSpec<S>,
    faction: Faction,
    pos: Vec3<S>,
    towers: &Vec<TowerSnap<S>>,
) -> (r: bool)
    ensures
        r == deploy_zone_ok_spec(*spec, faction, pos, towers@),
{
    match spec.kind {
        CardKind::Spell(_) => pos.x.magnitude().at_most(arena_half_width())
            && pos.z.magnitude().at_most(arena_half_depth()),
        CardKind::Building(_) => pos.z.sign().same(own_sign(faction))
            && river_half_width::<S>().at_most(pos.z.magnitude()) && pos.z.magnitude().at_most(
            arena_half_depth(),
        ),
        CardKind::Troop(_) => deploy_allowed(faction, pos, towers),
    }
}

/// The towers that stand.
pub open spec fn tower_snaps_spec<S: Scalar>(units: Seq<Actor<S>>) -> Seq<TowerSnap<S>>
    decreases units.len(),
{
    if units.len() == 0 {
        Seq::empty()
    } else {
        let rest = tower_snaps_spec(units.drop_last());
        let a = units.last();
        if a.unit.kind == UnitKind::Tower {
            rest.push(TowerSnap { faction: a.unit.faction, is_king: a.king, pos: a.pos })
        } else {
            rest
        }
    }
}

/// The towers that stand.
pub fn tower_snaps<S: Scalar>(units: &Vec<Actor<S>>) -> (r: Vec<TowerSnap<S>>)
    ensures
        r@ == tower_snaps_spec(units@),
{
    let mut r: Vec<TowerSnap<S>> = Vec::new();
    let n: usize = units.len();
    assert(units@.take(0) =~= Seq::<Actor<S>>::empty());
    for i in 0..n
        invariant
            n == units@.len(),
            r@ == tower_snaps_spec(units@.take(i as int)),
    {
        assert(units@.take(i + 1).drop_last() =~= units@.take(i as int));
        let a: &Actor<S> = &units[i];
        if a.unit.kind == UnitKind::Tower {
            r.push(TowerSnap { faction: a.unit.faction, is_king: a.king, pos: a.pos });
        }
    }
    assert(units@.take(n as int) =~= units@);
    r
}

/// Where the `k`th unit of a troop card stands relative to the point it is played at.
#[verifier::allow_in_spec]
pub fn offset<S: Scalar>(k: u32) -> Vec3<S>
    returns
        (if k % 3 == 0 {
            Vec3::<S>::origin()
        } else if k % 3 == 1 {
            Vec3 { x: hundredths::<S>(60).negated(), y: zero::<S>(), z: hundredths::<S>(50).negated() }
        } else {
            Vec3 { x: hundredths::<S>(60), y: zero::<S>(), z: hundredths::<S>(50).negated() }
        }),
{
    if k % 3 == 0 {
        Vec3::origin()
    } else if k % 3 == 1 {
        Vec3 { x: hundredths::<S>(60).negated(), y: zero(), z: hundredths::<S>(50).negated() }
    } else {
        Vec3 { x: hundredths(60), y: zero(), z: hundredths::<S>(50).negated() }
    }
}

/// The radius of what a card brings.
#[verifier::allow_in_spec]
pub fn body_radius<S: Scalar>(spec: &CardSpec<S>) -> S
    returns
        (match spec.kind {
            CardKind::Troop(m) => m.radius,
            _ => building_radius::<S>(),
        }),
{
    match spec.kind {
        CardKind::Troop(m) => m.radius,
        _ => building_radius(),
    }
}

/// A card on its way.
#[verifier::allow_in_spec]
pub fn ghost_at<S: Scalar>(faction: Faction, spec: &CardSpec<S>, pos: Vec3<S>) -> Deploying<S>
    returns
        (Deploying {
            card: spec.id,
            faction,
            ticks_left: spec.deploy_ticks,
            pos: pos.raised(whole::<S>(2).times(body_radius(spec))),
        }),
{
    Deploying {
        card: spec.id,
        faction,
        ticks_left: spec.deploy_ticks,
        pos: pos.raised(whole::<S>(2).times(body_radius(spec))),
    }
}

/// The units of a troop card on their way.
pub open spec fn squad<S: Scalar>(faction: Faction, spec: CardSpec<S>, pos: Vec3<S>) -> Seq<Deploying<S>> {
    Seq::new(
        spec.count as nat,
        |k: int| ghost_at(faction, &spec, pos.plus(offset(k as u32))),
    )
}

/// Rage: both speeds go up.
pub open spec fn rage_model<S: Scalar>(r: RageSpec<S>) -> BuffModel<S> {
    BuffModel {
        name: "Rage"@,
        secs: r.secs,
        stacks: 1,
        policy: StackPolicy::Refresh,
        flags: CCFlags::none(),
        effects: seq![
            StatMod { stat: StatKind::MoveSpeed, op: Op::Pct, value: r.pct },
            StatMod { stat: StatKind::AttackSpeed, op: Op::Pct, value: r.pct },
        ],
    }
}

fn rage_buff<S: Scalar>(r: &RageSpec<S>) -> (b: ActiveBuff<S>)
    ensures
        b@ == rage_model(*r),
{
    let mut effects: Vec<StatMod<S>> = Vec::new();
    effects.push(StatMod { stat: StatKind::MoveSpeed, op: Op::Pct, value: r.pct });
    effects.push(StatMod { stat: StatKind::AttackSpeed, op: Op::Pct, value: r.pct });
    let b = ActiveBuff {
        name: "Rage",
        secs: r.secs,
        stacks: 1,
        policy: StackPolicy::Refresh,
        flags: CCFlags::none(),
        effects,
    };
    assert(b@.effects =~= rage_model(*r).effects);
    b
}

/// A stun.
pub open spec fn stun_model<S: Scalar>(secs: S) -> BuffModel<S> {
    BuffModel {
        name: "Stun"@,
        secs,
        stacks: 1,
        policy: StackPolicy::Longer,
        flags: CCFlags::stun(),
        effects: Seq::empty(),
    }
}

fn stun_buff<S: Scalar>(secs: S) -> (b: ActiveBuff<S>)
    ensures
        b@ == stun_model(secs),
{
    let b = ActiveBuff {
        name: "Stun",
        secs,
        stacks: 1,
        policy: StackPolicy::Longer,
        flags: CCFlags::stun(),
        effects: Vec::new(),
    };
    assert(b@.effects =~= Seq::<StatMod<S>>::empty());
    b
}

/// The buffs of a unit after one more is applied.
pub open spec fn afflicted<S: Scalar>(status: Option<Seq<BuffModel<S>>>, new: BuffModel<S>) -> Option<
    Seq<BuffModel<S>>,
> {
    match status {
        Some(list) => Some(applied(list, new)),
        None => Some(seq![new]),
    }
}

fn afflict<S: Scalar>(buffs: &mut Vec<Option<Buffs<S>>>, i: usize, new: ActiveBuff<S>)
    requires
        i < old(buffs)@.len(),
        old(buffs)@[i as int] matches Some(b) ==> b.wf(),
    ensures
        final(buffs)@.len() == old(buffs)@.len(),
        forall|j: int| 0 <= j < old(buffs)@.len() && j != i ==> final(buffs)@[j] == old(buffs)@[j],
        status_model(final(buffs)@[i as int]) == afflicted(status_model(old(buffs)@[i as int]), new@),
        final(buffs)@[i as int] matches Some(b) ==> b.wf(),
{
    let mut held: Option<Buffs<S>> = None;
    core::mem::swap(&mut buffs[i], &mut held);
    let after: Buffs<S> = match held {
        Some(b) => {
            let mut b: Buffs<S> = b;
            b.apply(new);
            b
        },
        None => Buffs::new(new),
    };
    buffs[i] = Some(after);
}

/// Whether a spell takes hold of a unit: towers are immune.
#[verifier::allow_in_spec]
pub fn in_spell<S: Scalar>(a: &Actor<S>, pos: Vec3<S>, radius: S) -> bool
    returns
        (a.unit.kind != UnitKind::Tower && !radius.less(a.pos.ground_distance(pos))),
{
    a.unit.kind != UnitKind::Tower && !radius.less(a.pos.ground_distance(pos))
}

/// A unit after a spell: enemies are hurt.
#[verifier::allow_in_spec]
pub fn spelled<S: Scalar>(a: Actor<S>, spell: &SpellSpec<S>, faction: Faction, pos: Vec3<S>) -> Actor<S>
    returns
        (if in_spell(&a, pos, spell.radius) && a.unit.faction != faction {
            a.hurt(spell.damage)
        } else {
            a
        }),
{
    if in_spell(&a, pos, spell.radius) && a.unit.faction != faction {
        a.hurt(spell.damage)
    } else {
        a
    }
}

/// The buffs of a unit after a spell: friendly troops rage, enemy troops are stunned.
pub open spec fn spelled_status<S: Scalar>(
    a: Actor<S>,
    status: Option<Seq<BuffModel<S>>>,
    spell: SpellSpec<S>,
    faction: Faction,
    pos: Vec3<S>,
) -> Option<Seq<BuffModel<S>>> {
    if !in_spell(&a, pos, spell.radius) || a.unit.kind != UnitKind::Troop {
        status
    } else if a.unit.faction == faction {
        match spell.rage {
            Some(r) => afflicted(status, rage_model(r)),
            None => status,
        }
    } else if zero::<S>().less(spell.stun_secs) {
        afflicted(status, stun_model(spell.stun_secs))
    } else {
        status
    }
}

/// The world after a spell that takes effect at once.
pub open spec fn cast<S: Scalar>(
    m: WorldModel<S>,
    spell: SpellSpec<S>,
    faction: Faction,
    pos: Vec3<S>,
) -> WorldModel<S> {
    WorldModel {
        units: m.units.map_values(|a: Actor<S>| spelled(a, &spell, faction, pos)),
        statuses: Seq::new(
            m.units.len(),
            |i: int| spelled_status(m.units[i], m.statuses[i], spell, faction, pos),
        ),
        ..m
    }
}

/// A spell whose damage comes in waves: each wave does an equal part.
#[verifier::allow_in_spec]
pub fn volley<S: Scalar>(spell: &SpellSpec<S>, faction: Faction, pos: Vec3<S>) -> SpellVolley<S>
    returns
        (SpellVolley {
            faction,
            damage: spell.damage.over(whole::<S>(spell.waves as i64)),
            radius: spell.radius,
            x: pos.x,
            z: pos.z,
            waves_left: spell.waves,
            next_in: SPELL_WAVE_FIRST_TICKS,
            interval: SPELL_WAVE_INTERVAL_TICKS,
        }),
{
    SpellVolley {
        faction,
        damage: spell.damage.over(whole(spell.waves as i64)),
        radius: spell.radius,
        x: pos.x,
        z: pos.z,
        waves_left: spell.waves,
        next_in: SPELL_WAVE_FIRST_TICKS,
        interval: SPELL_WAVE_INTERVAL_TICKS,
    }
}

/// The world after a card that was paid for takes its course.
pub open spec fn unfold<S: Scalar>(
    m: WorldModel<S>,
    spec: CardSpec<S>,
    faction: Faction,
    pos: Vec3<S>,
) -> WorldModel<S> {
    match spec.kind {
        CardKind::Troop(_) => WorldModel { ghosts: m.ghosts + squad(faction, spec, pos), ..m },
        CardKind::Building(_) => WorldModel { ghosts: m.ghosts.push(ghost_at(faction, &spec, pos)), ..m },
        CardKind::Spell(spell) => if spell.waves > 1 {
            WorldModel { volleys: m.volleys.push(volley(&spell, faction, pos)), ..m }
        } else {
            cast(m, spell, faction, pos)
        },
    }
}

/// The place in hand and the card, if a side can play it at a point: the card exists, the
/// point is allowed, the card is in hand and there is elixir enough.
pub open spec fn playable<S: Scalar>(
    m: WorldModel<S>,
    faction: Faction,
    card_id: u8,
    pos: Vec3<S>,
    towers: Seq<TowerSnap<S>>,
) -> Option<(int, CardSpec<S>)> {
    match (card_spec::<S>(card_id), hand_position(m.decks.queue(faction), card_id)) {
        (Some(spec), Some(i)) => if deploy_zone_ok_spec(spec, faction, pos, towers)
            && !m.elixir.of(faction).less(spec.cost) {
            Some((i, spec))
        } else {
            None
        },
        _ => None,
    }
}

/// The world after a side plays a card at a point: unchanged, if it cannot.
pub open spec fn play_card_spec<S: Scalar>(
    m: WorldModel<S>,
    faction: Faction,
    card_id: u8,
    pos: Vec3<S>,
    towers: Seq<TowerSnap<S>>,
) -> WorldModel<S> {
    match playable(m, faction, card_id, pos, towers) {
        None => m,
        Some((i, spec)) => unfold(
            WorldModel {
                elixir: m.elixir.with(faction, m.elixir.of(faction).minus(spec.cost)),
                decks: m.decks.with(faction, cycled(m.decks.queue(faction), i)),
                ..m
            },
            spec,
            faction,
            pos,
        ),
    }
}

fn cast_spell<S: Scalar>(
    units: &mut Vec<Actor<S>>,
    buffs: &mut Vec<Option<Buffs<S>>>,
    spell: &SpellSpec<S>,
    faction: Faction,
    pos: Vec3<S>,
)
    requires
        old(units)@.len() == old(buffs)@.len(),
        statuses_wf(old(buffs)@),
    ensures
        final(units)@ == old(units)@.map_values(|a: Actor<S>| spelled(a, spell, faction, pos)),
        status_models(final(buffs)@) == Seq::new(
            old(units)@.len(),
            |i: int|
                spelled_status(
                    old(units)@[i],
                    status_models(old(buffs)@)[i],
                    *spell,
                    faction,
                    pos,
                ),
        ),
        final(buffs)@.len() == final(units)@.len(),
        statuses_wf(final(buffs)@),
{
    let n: usize = units.len();
    let ghost us = units@;
    let ghost bs = buffs@;
    let ghost st = status_models(bs);
    for i in 0..n
        invariant
            n == us.len(),
            n == bs.len(),
            n == units@.len(),
            n == buffs@.len(),
            st == status_models(bs),
            statuses_wf(bs),
            forall|j: int| i <= j < n ==> units@[j] == us[j],
            forall|j: int| i <= j < n ==> buffs@[j] == bs[j],
            forall|j: int| 0 <= j < i ==> units@[j] == spelled(us[j], spell, faction, pos),
            forall|j: int|
                0 <= j < i ==> status_model(#[trigger] buffs@[j]) == spelled_status(
                    us[j],
                    st[j],
                    *spell,
                    faction,
                    pos,
                ),
            forall|j: int| 0 <= j < i ==> ((#[trigger] buffs@[j]) matches Some(b) ==> b.wf()),
    {
        assert(bs[i as int] matches Some(b) ==> b.wf());
        assert(st[i as int] == status_model(bs[i as int]));
        let ghost held = buffs@;
        let a: Actor<S> = units[i];
        units[i] = spelled(a, spell, faction, pos);
        if in_spell(&a, pos, spell.radius) && a.unit.kind == UnitKind::Troop {
            if a.unit.faction == faction {
                if let Some(r) = &spell.rage {
                    afflict(buffs, i, rage_buff(r));
                }
            } else if zero::<S>().less(spell.stun_secs) {
                afflict(buffs, i, stun_buff(spell.stun_secs));
            }
        }
        assert forall|j: int| 0 <= j < i implies buffs@[j] == held[j] by {}
    }
    assert(units@ =~= us.map_values(|a: Actor<S>| spelled(a, spell, faction, pos)));
    assert(status_models(buffs@) =~= Seq::new(
        us.len(),
        |i: int| spelled_status(us[i], st[i], *spell, faction, pos),
    ));
}

proof fn lemma_decks_wf<S: Scalar>(m: WorldModel<S>, faction: Faction, i: int)
    requires
        m.decks.wf(),
        0 <= i < m.decks.queue(faction).len(),
    ensures
        m.decks.with(faction, cycled(m.decks.queue(faction), i)).wf(),
{
    let q = m.decks.queue(faction);
    let c = cycled(q, i);
    assert forall|j: int| 0 <= j < c.len() implies (#[trigger] c[j]) < CARD_COUNT by {
        if j < i {
            assert(c[j] == q[j]);
        } else if j < q.len() - 1 {
            assert(c[j] == q[j + 1]);
        } else {
            assert(c[j] == q[i]);
        }
    }
}

/// Plays a card for a side at a point, if it can be played, and tells whether it could.
pub fn play_card<S: Scalar>(
    world: &mut World<S>,
    faction: Faction,
    card_id: u8,
    pos: Vec3<S>,
    towers: &Vec<TowerSnap<S>>,
) -> (played: bool)
    requires
        old(world).wf(),
    ensures
        final(world).wf(),
        final(world)@ == play_card_spec(old(world)@, faction, card_id, pos, towers@),
        played == playable(old(world)@, faction, card_id, pos, towers@).is_some(),
{
    let ghost m = world@;
    let spec: CardSpec<S> = match card(card_id) {
        Some(spec) => spec,
        None => {
            return false;
        },
    };
    if !deploy_zone_ok(&spec, faction, pos, towers) {
        return false;
    }
    let at: usize = match world.decks.find(faction, card_id) {
        Some(i) => i,
        None => {
            return false;
        },
    };
    let pool: S = world.elixir.of(faction);
    if pool.less(spec.cost) {
        return false;
    }
    world.elixir = world.elixir.with(faction, pool.minus(spec.cost));
    proof {
        lemma_decks_wf(m, faction, at as int);
    }
    world.decks.cycle(faction, at);
    match spec.kind {
        CardKind::Troop(_) => {
            let ghost before = world.ghosts@;
            let ghost all = squad(faction, spec, pos);
            let n: u32 = spec.count;
            assert(before + all.take(0) =~= before);
            let ghost held = *world;
            for k in 0..n
                invariant
                    n == spec.count,
                    all == squad(faction, spec, pos),
                    world.ghosts@ == before + all.take(k as int),
                    *world == (World { ghosts: world.ghosts, ..held }),
            {
                world.ghosts.push(ghost_at(faction, &spec, pos.plus(offset(k))));
                assert(all.take(k + 1) =~= all.take(k as int).push(all[k as int]));
                assert(world.ghosts@ =~= before + all.take(k + 1));
            }
            assert(all.take(n as int) =~= all);
            assert(ghosts_wf(world.ghosts@)) by {
                assert forall|i: int| 0 <= i < world.ghosts@.len() implies (
                #[trigger] world.ghosts@[i]).ticks_left >= 1 by {
                    if i < before.len() {
                        assert(world.ghosts@[i] == before[i]);
                    } else {
                        assert(world.ghosts@[i] == all[i - before.len()]);
                    }
                }
            }
        },
        CardKind::Building(_) => {
            world.ghosts.push(ghost_at(faction, &spec, pos));
        },
        CardKind::Spell(spell) => {
            if spell.waves > 1 {
                world.volleys.push(volley(&spell, faction, pos));
            } else {
                cast_spell(&mut world.units, &mut world.buffs, &spell, faction, pos);
            }
        },
    }
    assert(world@ == play_card_spec(m, faction, card_id, pos, towers@));
    true
}

/// Nothing but a spell goes into the river.
pub proof fn river_stays_clear<S: Scalar>(
    spec: CardSpec<S>,
    faction: Faction,
    pos: Vec3<S>,
    towers: Seq<TowerSnap<S>>,
)
    requires
        !(spec.kind is Spell),
        pos.z.magnitude().less(river_half_width()),
    ensures
        !deploy_zone_ok_spec(spec, faction, pos, towers),
{
    S::less_excludes_at_most(pos.z.magnitude(), river_half_width());
}

/// Troops may go anywhere in the own half but the river, whatever stands.
pub proof fn own_half_is_open<S: Scalar>(faction: Faction, pos: Vec3<S>, towers: Seq<TowerSnap<S>>)
    requires
        pos.z.sign().same(own_sign(faction)),
        !pos.z.magnitude().less(river_half_width()),
    ensures
        deploy_allowed_spec(faction, pos, towers),
{
}

/// Behind the line of the princess towers the other half is never open, nor is it on a flank
/// whose tower stands.
pub proof fn other_half_is_guarded<S: Scalar>(faction: Faction, pos: Vec3<S>, towers: Seq<TowerSnap<S>>)
    requires
        !pos.z.sign().same(own_sign(faction)),
        princess_z::<S>().less(pos.z.magnitude()) || guarded(towers, faction, pos.x.less(zero())),
    ensures
        !deploy_allowed_spec(faction, pos, towers),
{
}

/// The fall of a tower never closes anything.
pub proof fn fallen_towers_open<S: Scalar>(
    spec: CardSpec<S>,
    faction: Faction,
    pos: Vec3<S>,
    before: Seq<TowerSnap<S>>,
    after: Seq<TowerSnap<S>>,
)
    requires
        forall|i: int| 0 <= i < after.len() ==> before.contains(#[trigger] after[i]),
        deploy_zone_ok_spec(spec, faction, pos, before),
    ensures
        deploy_zone_ok_spec(spec, faction, pos, after),
{
    let left = pos.x.less(zero());
    if guarded(after, faction, left) {
        let i = choose|i: int| 0 <= i < after.len() && guards(&#[trigger] after[i], faction, left);
        assert(before.contains(after[i]));
        let j = choose|j: int| 0 <= j < before.len() && before[j] == after[i];
        assert(guards(&before[j], faction, left));
    }
}

/// A card that cannot be played changes nothing.
pub proof fn idle_plays<S: Scalar>(
    m: WorldModel<S>,
    faction: Faction,
    card_id: u8,
    pos: Vec3<S>,
    towers: Seq<TowerSnap<S>>,
)
    requires
        ({
            ||| card_spec::<S>(card_id).is_none()
            ||| hand_position(m.decks.queue(faction), card_id).is_none()
            ||| card_spec::<S>(card_id) matches Some(spec) && (m.elixir.of(faction).less(spec.cost)
                || !deploy_zone_ok_spec(spec, faction, pos, towers))
        }),
    ensures
        play_card_spec(m, faction, card_id, pos, towers) == m,
{
}

/// A card that is played costs its price and goes to the end of its deck; the opponent's elixir
/// and deck stay.
pub proof fn plays_are_paid<S: Scalar>(
    m: WorldModel<S>,
    faction: Faction,
    card_id: u8,
    pos: Vec3<S>,
    towers: Seq<TowerSnap<S>>,
)
    requires
        playable(m, faction, card_id, pos, towers).is_some(),
        m.decks.wf(),
    ensures
        ({
            let (i, spec) = playable(m, faction, card_id, pos, towers)->0;
            let n = play_card_spec(m, faction, card_id, pos, towers);
            &&& spec.id == card_id
            &&& n.elixir.of(faction) == m.elixir.of(faction).minus(spec.cost)
            &&& n.elixir.of(faction.other()) == m.elixir.of(faction.other())
            &&& n.decks.queue(faction.other()) == m.decks.queue(faction.other())
            &&& n.decks.queue(faction).last() == card_id
            &&& n.decks.queue(faction).to_multiset() == m.decks.queue(faction).to_multiset()
        }),
{
    let (i, spec) = playable(m, faction, card_id, pos, towers)->0;
    lemma_hand_position(m.decks.queue(faction), card_id, 0);
    cycling_is_permutation(m.decks.queue(faction), i);
}

proof fn lemma_hand_position(queue: Seq<u8>, c: u8, from: int)
    requires
        0 <= from,
    ensures
        hand_position_from(queue, c, from) matches Some(i) ==> from <= i
            < HAND_SIZE && queue[i] == c,
    decreases HAND_SIZE - from,
{
    if from < HAND_SIZE {
        lemma_hand_position(queue, c, from + 1);
    }
}

/// Spells leave towers alone, hurt no friend, and never move anything.
pub proof fn spells_spare_towers_and_friends<S: Scalar>(
    a: Actor<S>,
    status: Option<Seq<BuffModel<S>>>,
    spell: SpellSpec<S>,
    faction: Faction,
    pos: Vec3<S>,
)
    ensures
        a.unit.kind == UnitKind::Tower ==> spelled(a, &spell, faction, pos) == a && spelled_status(
            a,
            status,
            spell,
            faction,
            pos,
        ) == status,
        a.unit.faction == faction ==> spelled(a, &spell, faction, pos) == a,
        spelled(a, &spell, faction, pos) == (Actor {
            health: spelled(a, &spell, faction, pos).health,
            ..a
        }),
{
}

/// An enemy troop within a stunning spell can do nothing, whatever buffs it had, as long as its
/// other stuns are stuns as well.
pub proof fn stunned_by_spell<S: Scalar>(
    a: Actor<S>,
    status: Option<Seq<BuffModel<S>>>,
    spell: SpellSpec<S>,
    faction: Faction,
    pos: Vec3<S>,
)
    requires
        in_spell(&a, pos, spell.radius),
        a.unit.kind == UnitKind::Troop,
        a.unit.faction != faction,
        zero::<S>().less(spell.stun_secs),
        status matches Some(list) ==> forall|i: int|
            0 <= i < list.len() && (#[trigger] list[i]).name == "Stun"@ ==> list[i].flags == CCFlags::stun(),
    ensures
        ({
            let c = channels_spec(spelled_status(a, status, spell, faction, pos));
            c.cannot_move && c.cannot_attack && c.cannot_seek && c.cannot_cast
        }),
{
    let new = stun_model(spell.stun_secs);
    match status {
        None => {
            stun_blocks_everything(seq![new], 0);
        },
        Some(list) => {
            let after = applied(list, new);
            if exists|i: int| first_named(list, new.name, i) {
                let i = choose|i: int| first_named(list, new.name, i);
                assert(list[i].name == "Stun"@);
                stun_blocks_everything(after, i);
            } else {
                stun_blocks_everything(after, list.len() as int);
            }
        },
    }
}

} // verus!
