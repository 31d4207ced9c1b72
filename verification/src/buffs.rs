//! Buffs: modifiers and control flags with a time limit, and the container that merges them.

use vstd::prelude::*;

use crate::components::{
    cc_channels, CCFlags, Channels, StackPolicy, StatFold, StatKind, StatMod,
};
use crate::scalar::{zero, Scalar};

verus! {

/// One buff at work.
#[derive(Debug)]
pub struct ActiveBuff<S> {
    /// Buffs of one name are of one kind.
    pub name: &'static str,
    /// Seconds left.
    pub secs: S,
    /// Layers; above one only under [`StackPolicy::Stack`].
    pub stacks: u8,
    pub policy: StackPolicy,
    pub flags: CCFlags,
    pub effects: Vec<StatMod<S>>,
}

/// A buff as a mathematical value.
pub ghost struct BuffModel<S> {
    pub name: Seq<char>,
    pub secs: S,
    pub stacks: u8,
    pub policy: StackPolicy,
    pub flags: CCFlags,
    pub effects: Seq<StatMod<S>>,
}

impl<S: Scalar> View for ActiveBuff<S> {
    type V = BuffModel<S>;

    open spec fn view(&self) -> BuffModel<S> {
        BuffModel {
            name: self.name@,
            secs: self.secs,
            stacks: self.stacks,
            policy: self.policy,
            flags: self.flags,
            effects: self.effects@,
        }
    }
}

/// A list of buffs as mathematical values.
pub open spec fn buff_models<S: Scalar>(list: Seq<ActiveBuff<S>>) -> Seq<BuffModel<S>> {
    list.map_values(|b: ActiveBuff<S>| b@)
}

/// The control flags of all buffs together.
pub open spec fn cc_union<S: Scalar>(list: Seq<BuffModel<S>>) -> CCFlags
    decreases list.len(),
{
    if list.len() == 0 {
        CCFlags::none()
    } else {
        cc_union(list.drop_last()).with(list.last().flags)
    }
}

/// How many times the modifiers of a buff count.
pub open spec fn weight<S: Scalar>(b: BuffModel<S>) -> u8 {
    if b.policy is Stack { b.stacks } else { 1 }
}

/// Sums with the modifiers of one buff added in order.
pub open spec fn fold_effects<S: Scalar>(f: StatFold<S>, effects: Seq<StatMod<S>>, n: u8) -> StatFold<S>
    decreases effects.len(),
{
    if effects.len() == 0 {
        f
    } else {
        fold_effects(f, effects.drop_last(), n).modified(effects.last(), n)
    }
}

/// The sums over all buffs.
pub open spec fn fold_buffs<S: Scalar>(list: Seq<BuffModel<S>>) -> StatFold<S>
    decreases list.len(),
{
    if list.len() == 0 {
        StatFold::neutral()
    } else {
        fold_effects(fold_buffs(list.drop_last()), list.last().effects, weight(list.last()))
    }
}

/// `i` is the first buff called `name`.
pub open spec fn first_named<S: Scalar>(list: Seq<BuffModel<S>>, name: Seq<char>, i: int) -> bool {
    &&& 0 <= i < list.len()
    &&& list[i].name == name
    &&& forall|j: int| 0 <= j < i ==> (#[trigger] list[j]).name != name
}

/// What `old` becomes when `new` of the same name comes, unless the two run side by side.
pub open spec fn merged<S: Scalar>(old: BuffModel<S>, new: BuffModel<S>) -> BuffModel<S> {
    match new.policy {
        StackPolicy::Refresh => BuffModel { secs: new.secs, effects: new.effects, ..old },
        StackPolicy::Longer => if old.secs.less(new.secs) {
            BuffModel { secs: new.secs, ..old }
        } else {
            old
        },
        StackPolicy::Stack(n) => BuffModel {
            stacks: if old.stacks + 1 < n { (old.stacks + 1) as u8 } else { n },
            secs: new.secs,
            ..old
        },
        StackPolicy::Independent => old,
    }
}

/// A list of buffs after `new` is applied to it.
pub open spec fn applied<S: Scalar>(list: Seq<BuffModel<S>>, new: BuffModel<S>) -> Seq<BuffModel<S>> {
    if new.policy is Independent || !(exists|i: int| first_named(list, new.name, i)) {
        list.push(new)
    } else {
        let i = choose|i: int| first_named(list, new.name, i);
        list.update(i, merged(list[i], new))
    }
}

/// A list of buffs after `dt` seconds: those that ran out are gone.
pub open spec fn ticked<S: Scalar>(list: Seq<BuffModel<S>>, dt: S) -> Seq<BuffModel<S>>
    decreases list.len(),
{
    if list.len() == 0 {
        Seq::empty()
    } else {
        let rest = ticked(list.drop_last(), dt);
        let b = BuffModel { secs: list.last().secs.minus(dt), ..list.last() };
        if zero::<S>().less(b.secs) { rest.push(b) } else { rest }
    }
}

/// Whether two texts are equal.
fn same_text(a: &str, b: &str) -> (r: bool)
    ensures
        r == (a@ == b@),
{
    let n: usize = a.unicode_len();
    if n != b.unicode_len() {
        return false;
    }
    let mut i: usize = 0;
    while i < n
        invariant
            n == a@.len(),
            n == b@.len(),
            i <= n,
            forall|j: int| 0 <= j < i ==> a@[j] == b@[j],
        decreases n - i,
    {
        if a.get_char(i) != b.get_char(i) {
            assert(a@[i as int] != b@[i as int]);
            return false;
        }
        i += 1;
    }
    assert(a@ =~= b@);
    true
}

/// The buffs of one unit, with what follows from them kept at hand.
#[derive(Debug)]
pub struct Buffs<S> {
    list: Vec<ActiveBuff<S>>,
    cc: CCFlags,
    stats: StatFold<S>,
}

impl<S: Scalar> View for Buffs<S> {
    type V = Seq<BuffModel<S>>;

    closed spec fn view(&self) -> Seq<BuffModel<S>> {
        buff_models(self.list@)
    }
}

impl<S: Scalar> Buffs<S> {
    /// The flags and sums at hand are those of the list.
    pub closed spec fn wf(&self) -> bool {
        &&& self.cc == cc_union(self@)
        &&& self.stats == fold_buffs(self@)
    }

    /// A container without buffs.
    pub fn empty() -> (r: Self)
        ensures
            r.wf(),
            r@ == Seq::<BuffModel<S>>::empty(),
    {
        let r = Buffs { list: Vec::new(), cc: CCFlags::none(), stats: StatFold::neutral() };
        assert(r@ =~= Seq::<BuffModel<S>>::empty());
        r
    }

    /// A container of one buff.
    pub fn new(buff: ActiveBuff<S>) -> (r: Self)
        ensures
            r.wf(),
            r@ == seq![buff@],
    {
        let mut r = Buffs::empty();
        r.list.push(buff);
        r.recompute();
        assert(r@ =~= seq![buff@]);
        r
    }

    /// The buffs in the order in which they came.
    pub fn list(&self) -> (r: &Vec<ActiveBuff<S>>)
        ensures
            buff_models(r@) == self@,
    {
        &self.list
    }

    /// Brings flags and sums up to date with the list.
    fn recompute(&mut self)
        ensures
            final(self).wf(),
            final(self).list@ == old(self).list@,
    {
        let mut cc: CCFlags = CCFlags::none();
        let mut stats: StatFold<S> = StatFold::neutral();
        let n: usize = self.list.len();
        let ghost all = self@;
        assert(all.take(0) =~= Seq::<BuffModel<S>>::empty());
        for i in 0..n
            invariant
                n == self.list@.len(),
                all == self@,
                self.list@ == old(self).list@,
                cc == cc_union(all.take(i as int)),
                stats == fold_buffs(all.take(i as int)),
        {
            let b = &self.list[i];
            let times: u8 = match b.policy {
                StackPolicy::Stack(_) => b.stacks,
                _ => 1,
            };
            let ghost before = all.take(i as int);
            let ghost now = all.take(i + 1);
            assert(now.drop_last() =~= before);
            assert(now.last() == b@);
            let m: usize = b.effects.len();
            assert(b.effects@.take(0) =~= Seq::<StatMod<S>>::empty());
            for k in 0..m
                invariant
                    m == b.effects@.len(),
                    times == weight(b@),
                    stats == fold_effects(fold_buffs(before), b.effects@.take(k as int), times),
            {
                assert(b.effects@.take(k + 1).drop_last() =~= b.effects@.take(k as int));
                stats = stats.modified(b.effects[k], times);
            }
            assert(b.effects@.take(m as int) =~= b.effects@);
            cc = cc.with(b.flags);
        }
        assert(all.take(n as int) =~= all);
        self.cc = cc;
        self.stats = stats;
    }

    /// Applies a buff: merged with the first of its name as its policy says, or added.
    pub fn apply(&mut self, incoming: ActiveBuff<S>)
        ensures
            final(self).wf(),
            final(self)@ == applied(old(self)@, incoming@),
    {
        let ghost before = self@;
        let ghost new = incoming@;
        let n: usize = self.list.len();
        let mut at: usize = 0;
        while at < n
            invariant
                n == self.list@.len(),
                before == self@,
                new == incoming@,
                at <= n,
                forall|j: int| 0 <= j < at ==> (#[trigger] before[j]).name != new.name,
            ensures
                n == self.list@.len(),
                before == self@,
                new == incoming@,
                at <= n,
                forall|j: int| 0 <= j < at ==> (#[trigger] before[j]).name != new.name,
                at < n ==> first_named(before, new.name, at as int),
            decreases n - at,
        {
            assert(before[at as int] == self.list[at as int]@);
            if same_text(self.list[at].name, incoming.name) {
                break;
            }
            at += 1;
        }
        proof {
            if at < n {
                let i = choose|i: int| first_named(before, new.name, i);
                assert(first_named(before, new.name, at as int));
                assert(i == at);
            }
        }
        if at < n {
            match incoming.policy {
                StackPolicy::Refresh => {
                    let b = &mut self.list[at];
                    b.secs = incoming.secs;
                    b.effects = incoming.effects;
                },
                StackPolicy::Longer => {
                    let b = &mut self.list[at];
                    if b.secs.less(incoming.secs) {
                        b.secs = incoming.secs;
                    }
                },
                StackPolicy::Stack(limit) => {
                    let b = &mut self.list[at];
                    b.stacks = if b.stacks < 255 && b.stacks + 1 < limit {
                        b.stacks + 1
                    } else {
                        limit
                    };
                    b.secs = incoming.secs;
                },
                StackPolicy::Independent => {
                    self.list.push(incoming);
                },
            }
        } else {
            self.list.push(incoming);
        }
        assert(self@ =~= applied(before, new));
        self.recompute();
    }

    /// Lets `dt` seconds pass; true when no buff is left.
    pub fn tick(&mut self, dt: S) -> (r: bool)
        ensures
            final(self).wf(),
            final(self)@ == ticked(old(self)@, dt),
            r == (ticked(old(self)@, dt).len() == 0),
    {
        let ghost before = self@;
        let mut i: usize = 0;
        let ghost mut k: int = 0;
        assert(before.take(0) =~= Seq::<BuffModel<S>>::empty());
        assert(self@.take(0) =~= Seq::<BuffModel<S>>::empty());
        while i < self.list.len()
            invariant
                0 <= k <= before.len(),
                i <= self.list@.len(),
                self.list@.len() - i == before.len() - k,
                self@.take(i as int) == ticked(before.take(k), dt),
                forall|j: int| i <= j < self.list@.len() ==> #[trigger] self.list@[j]@ == before[j - i + k],
            decreases self.list@.len() - i,
        {
            let ghost now = self.list@;
            let ghost kept = ticked(before.take(k), dt);
            assert(before.take(k + 1).drop_last() =~= before.take(k));
            assert(before.take(k + 1).last() == before[k]);
            assert(now[i as int]@ == before[i - i + k]);
            let secs: S = self.list[i].secs.minus(dt);
            if zero::<S>().less(secs) {
                let b = &mut self.list[i];
                b.secs = secs;
                i += 1;
                proof {
                    assert(self@.take(i as int) =~= kept.push(
                        BuffModel { secs: before[k].secs.minus(dt), ..before[k] },
                    )) by {
                        assert(buff_models(now).take(i - 1) == kept);
                        assert forall|j: int| 0 <= j < i - 1 implies self@[j] == kept[j] by {
                            assert(buff_models(now).take(i - 1)[j] == now[j]@);
                        }
                        assert(kept.len() == i - 1);
                    }
                    k = k + 1;
                }
            } else {
                let _gone = self.list.remove(i);
                proof {
                    assert(self@.take(i as int) =~= kept) by {
                        assert(buff_models(now).take(i as int) == kept);
                        assert forall|j: int| 0 <= j < i implies self@[j] == kept[j] by {
                            assert(buff_models(now).take(i as int)[j] == now[j]@);
                        }
                    }
                    k = k + 1;
                    assert forall|j: int| i <= j < self.list@.len() implies
                        #[trigger] self.list@[j]@ == before[j - i + k] by {
                        assert(self.list@[j] == now[j + 1]);
                        assert(now[j + 1]@ == before[j + 1 - i + (k - 1)]);
                    }
                }
            }
        }
        assert(before.take(k) =~= before);
        assert(self@.take(i as int) =~= self@);
        self.recompute();
        self.list.len() == 0
    }

    /// Whether a control flag is set by some buff.
    pub fn has_cc(&self, flag: CCFlags) -> (r: bool)
        requires
            self.wf(),
        ensures
            r == cc_union(self@).contains(flag),
    {
        self.cc.contains(flag)
    }

    /// What the buffs keep the unit from doing.
    pub fn channels(&self) -> (r: Channels)
        requires
            self.wf(),
        ensures
            r == cc_channels(cc_union(self@)),
    {
        cc_channels(self.cc)
    }

    /// The attribute that a base value becomes under the buffs.
    pub fn stat(&self, base: S, kind: StatKind) -> (r: S)
        requires
            self.wf(),
        ensures
            r == fold_buffs(self@).slot(kind).resolve(base),
    {
        self.stats.slot(kind).resolve(base)
    }
}

/// The flags of every buff are in force.
pub proof fn flags_take_effect<S: Scalar>(list: Seq<BuffModel<S>>, i: int)
    requires
        0 <= i < list.len(),
    ensures
        cc_union(list).contains(list[i].flags),
    decreases list.len(),
{
    let rest: u8 = cc_union(list.drop_last()).0;
    let last: u8 = list.last().flags.0;
    if i == list.len() - 1 {
        assert((rest | last) & last == last) by (bit_vector);
    } else {
        flags_take_effect(list.drop_last(), i);
        let f: u8 = list[i].flags.0;
        assert(rest & f == f ==> (rest | last) & f == f) by (bit_vector);
    }
}

/// A stun among the buffs keeps a unit from everything.
pub proof fn stun_blocks_everything<S: Scalar>(list: Seq<BuffModel<S>>, i: int)
    requires
        0 <= i < list.len(),
        list[i].flags == CCFlags::stun(),
    ensures
        ({
            let c = cc_channels(cc_union(list));
            c.cannot_move && c.cannot_attack && c.cannot_seek && c.cannot_cast
        }),
{
    flags_take_effect(list, i);
}

/// A second stun never shortens the first.
pub proof fn longer_never_shortens<S: Scalar>(old: BuffModel<S>, new: BuffModel<S>)
    requires
        new.policy is Longer,
    ensures
        !merged(old, new).secs.less(old.secs),
        !merged(old, new).secs.less(new.secs),
{
    S::less_irreflexive(old.secs);
    S::less_irreflexive(new.secs);
    if old.secs.less(new.secs) && new.secs.less(old.secs) {
        S::less_transitive(old.secs, new.secs, old.secs);
    }
}

/// Layers never exceed their limit.
pub proof fn layers_are_limited<S: Scalar>(old: BuffModel<S>, new: BuffModel<S>, n: u8)
    requires
        new.policy == StackPolicy::Stack(n),
    ensures
        merged(old, new).stacks <= n,
        old.stacks < n ==> merged(old, new).stacks == old.stacks + 1,
{
}

/// A buff that does not stand by itself leaves one buff of its name where there was one,
/// and the others untouched.
pub proof fn same_name_merges<S: Scalar>(list: Seq<BuffModel<S>>, new: BuffModel<S>, i: int)
    requires
        first_named(list, new.name, i),
        !(new.policy is Independent),
    ensures
        applied(list, new).len() == list.len(),
        applied(list, new)[i] == merged(list[i], new),
        forall|j: int| 0 <= j < list.len() && j != i ==> applied(list, new)[j] == list[j],
{
    let k = choose|k: int| first_named(list, new.name, k);
    assert(first_named(list, new.name, k));
    assert(k == i);
}

/// Refreshing twice gives the time and the modifiers of the later one: effects do not add up.
pub proof fn refresh_does_not_add_up<S: Scalar>(old: BuffModel<S>, a: BuffModel<S>, b: BuffModel<S>)
    requires
        a.policy is Refresh,
        b.policy is Refresh,
    ensures
        merged(merged(old, a), b) == merged(old, b),
{
}

/// Time only runs out: what is left after a tick was there before, with as much time less.
pub proof fn tick_keeps_order<S: Scalar>(list: Seq<BuffModel<S>>, dt: S)
    ensures
        ticked(list, dt).len() <= list.len(),
        forall|b: BuffModel<S>| #[trigger] ticked(list, dt).contains(b) ==> zero::<S>().less(b.secs),
        (forall|i: int| 0 <= i < list.len() ==> zero::<S>().less((#[trigger] list[i]).secs.minus(dt)))
            ==> ticked(list, dt) == list.map_values(
            |b: BuffModel<S>| BuffModel { secs: b.secs.minus(dt), ..b },
        ),
    decreases list.len(),
{
    if list.len() > 0 {
        let rest = list.drop_last();
        tick_keeps_order(rest, dt);
        let b = BuffModel { secs: list.last().secs.minus(dt), ..list.last() };
        assert forall|c: BuffModel<S>| #[trigger] ticked(list, dt).contains(c) implies zero::<S>().less(
            c.secs,
        ) by {
            let k = choose|k: int|
                0 <= k < ticked(list, dt).len() && ticked(list, dt)[k] == c;
            if k < ticked(rest, dt).len() {
                assert(ticked(rest, dt)[k] == c);
                assert(ticked(rest, dt).contains(c));
            }
        }
        if forall|i: int| 0 <= i < list.len() ==> zero::<S>().less((#[trigger] list[i]).secs.minus(dt)) {
            assert forall|i: int| 0 <= i < rest.len() implies zero::<S>().less(
                (#[trigger] rest[i]).secs.minus(dt),
            ) by {
                assert(rest[i] == list[i]);
            }
            assert(list.last() == list[list.len() - 1]);
            assert(ticked(list, dt) =~= list.map_values(
                |b: BuffModel<S>| BuffModel { secs: b.secs.minus(dt), ..b },
            ));
        }
    } else {
        assert(ticked(list, dt) =~= list.map_values(
            |b: BuffModel<S>| BuffModel { secs: b.secs.minus(dt), ..b },
        ));
    }
}

/// Buffs of a unit that may have none, as mathematical values.
pub open spec fn status_model<S: Scalar>(b: Option<Buffs<S>>) -> Option<Seq<BuffModel<S>>> {
    match b {
        Some(b) => Some(b@),
        None => None,
    }
}

/// The buffs of all units, as mathematical values.
pub open spec fn status_models<S: Scalar>(all: Seq<Option<Buffs<S>>>) -> Seq<Option<Seq<BuffModel<S>>>> {
    all.map_values(|b: Option<Buffs<S>>| status_model(b))
}

/// Every container is up to date.
pub open spec fn statuses_wf<S: Scalar>(all: Seq<Option<Buffs<S>>>) -> bool {
    forall|i: int| 0 <= i < all.len() ==> ((#[trigger] all[i]) matches Some(b) ==> b.wf())
}

/// What its buffs keep a unit from doing.
pub open spec fn channels_spec<S: Scalar>(b: Option<Seq<BuffModel<S>>>) -> Channels {
    match b {
        Some(list) => cc_channels(cc_union(list)),
        None => Channels {
            cannot_move: false,
            cannot_attack: false,
            cannot_seek: false,
            cannot_cast: false,
        },
    }
}

/// What its buffs keep a unit from doing: nothing, without buffs.
pub fn channels_of<S: Scalar>(b: &Option<Buffs<S>>) -> (r: Channels)
    requires
        b matches Some(x) ==> x.wf(),
    ensures
        r == channels_spec(status_model(*b)),
{
    match b {
        Some(b) => b.channels(),
        None => Channels {
            cannot_move: false,
            cannot_attack: false,
            cannot_seek: false,
            cannot_cast: false,
        },
    }
}

/// The attribute that a base value becomes.
pub open spec fn stat_spec<S: Scalar>(b: Option<Seq<BuffModel<S>>>, base: S, kind: StatKind) -> S {
    match b {
        Some(list) => fold_buffs(list).slot(kind).resolve(base),
        None => base,
    }
}

/// The attribute that a base value becomes: itself, without buffs.
pub fn stat_of<S: Scalar>(b: &Option<Buffs<S>>, base: S, kind: StatKind) -> (r: S)
    requires
        b matches Some(x) ==> x.wf(),
    ensures
        r == stat_spec(status_model(*b), base, kind),
{
    match b {
        Some(b) => b.stat(base, kind),
        None => base,
    }
}

} // verus!
