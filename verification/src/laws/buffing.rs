//! How buffs merge, add up and run out.

use vstd::prelude::*;

use crate::buffs::{
    applied, cc_union, first_named, flags_take_effect, fold_buffs, fold_effects, ticked, BuffModel,
};
use crate::combat::status::{aged, shaken};
use crate::components::{Actor, CCFlags, Charge, StackPolicy, StatMod};
use crate::scalar::{zero, Scalar};

verus! {

/// A buff of a new name, or one that stands by itself, is added behind the others.
pub proof fn new_buffs_are_added<S: Scalar>(list: Seq<BuffModel<S>>, new: BuffModel<S>)
    requires
        new.policy is Independent || forall|i: int| 0 <= i < list.len() ==> (#[trigger] list[i]).name != new.name,
    ensures
        applied(list, new) == list.push(new),
{
}

/// What becomes of a buff when another of its name comes. To refresh it is to start its time anew,
/// with the modifiers of the new one; of two that keep the longer time the longer counts; layers
/// come on top of each other up to the limit, and the time starts anew. Its name, its flags and its
/// policy stay as they were.
pub proof fn buffs_of_a_name_merge<S: Scalar>(list: Seq<BuffModel<S>>, new: BuffModel<S>, i: int)
    requires
        first_named(list, new.name, i),
        !(new.policy is Independent),
    ensures
        ({
            let (old, b) = (list[i], applied(list, new)[i]);
            &&& applied(list, new).len() == list.len()
            &&& forall|j: int| 0 <= j < list.len() && j != i ==> (#[trigger] applied(list, new)[j]) == list[j]
            &&& b.name == old.name && b.flags == old.flags && b.policy == old.policy
            &&& new.policy is Refresh ==> b.secs == new.secs && b.effects == new.effects && b.stacks == old.stacks
            &&& new.policy is Longer ==> b.secs == (if old.secs.less(new.secs) { new.secs } else { old.secs })
                && b.effects == old.effects && b.stacks == old.stacks
            &&& new.policy matches StackPolicy::Stack(n) ==> {
                &&& b.secs == new.secs
                &&& b.effects == old.effects
                &&& old.stacks < n ==> b.stacks == old.stacks + 1
                &&& old.stacks >= n ==> b.stacks == n
            }
        }),
{
    let k = choose|k: int| first_named(list, new.name, k);
    assert(first_named(list, new.name, i));
    if k < i {
        assert(list[k].name != new.name);
    } else if i < k {
        assert(list[i].name != new.name);
    }
}

/// Time runs for every buff alike: each loses as much as has passed, and is gone when nothing is
/// left; nothing else of it changes, and the others do not matter.
pub proof fn buffs_run_out<S: Scalar>(list: Seq<BuffModel<S>>, b: BuffModel<S>, dt: S)
    ensures
        ticked(Seq::<BuffModel<S>>::empty(), dt) == Seq::<BuffModel<S>>::empty(),
        zero::<S>().less(b.secs.minus(dt)) ==> ticked(list.push(b), dt) == ticked(list, dt).push(
            BuffModel { secs: b.secs.minus(dt), ..b },
        ),
        !zero::<S>().less(b.secs.minus(dt)) ==> ticked(list.push(b), dt) == ticked(list, dt),
{
    assert(list.push(b).drop_last() =~= list);
}

/// Every buff counts: the modifiers of the last come on top of those of the others, as many times
/// as it has layers if it has any, and once otherwise; its flags are in force together with theirs.
pub proof fn buffs_add_up<S: Scalar>(list: Seq<BuffModel<S>>, b: BuffModel<S>, e: StatMod<S>)
    requires
        b.effects == seq![e],
    ensures
        ({
            let n = if b.policy is Stack { b.stacks } else { 1u8 };
            &&& fold_buffs(list.push(b)) == fold_buffs(list).modified(e, n)
            &&& cc_union(list.push(b)).contains(b.flags)
            &&& cc_union(list.push(b)).contains(cc_union(list))
        }),
{
    assert(list.push(b).drop_last() =~= list);
    assert(b.effects.drop_last() =~= Seq::empty());
    reveal_with_fuel(fold_effects, 2);
    let (x, y) = (cc_union(list).0, b.flags.0);
    assert((x | y) & x == x && (x | y) & y == y) by (bit_vector);
}

/// In a tick the buffs of a unit are a thirtieth of a second older; with the last of them the unit
/// has none. A charge is lost to a stun, and to nothing else.
pub proof fn ticks_age_buffs<S: Scalar>(a: Actor<S>, list: Seq<BuffModel<S>>, i: int)
    requires
        0 <= i < list.len(),
    ensures
        aged(None::<Seq<BuffModel<S>>>).is_none(),
        ticked(list, S::ratio(1, 30)).len() == 0 ==> aged(Some(list)).is_none(),
        ticked(list, S::ratio(1, 30)).len() > 0 ==> aged(Some(list)) == Some(ticked(list, S::ratio(1, 30))),
        list[i].flags == CCFlags::stun() ==> (a.charge matches Some(c) ==> shaken(a, Some(list)) == (Actor {
            charge: Some(Charge { progress: zero(), ..c }),
            ..a
        })),
        shaken(a, None) == a,
        (forall|k: int| 0 <= k < list.len() ==> (#[trigger] list[k]).flags == CCFlags::none()) ==> shaken(
            a,
            Some(list),
        ) == a,
{
    flags_take_effect(list, i);
    if forall|k: int| 0 <= k < list.len() ==> (#[trigger] list[k]).flags == CCFlags::none() {
        lemma_no_flags(list);
        let (x, y) = (CCFlags::none().0, CCFlags::stun().0);
        assert(x == 0 && y != 0);
        assert(0u8 & y == 0u8) by (bit_vector);
    }
}

proof fn lemma_no_flags<S: Scalar>(list: Seq<BuffModel<S>>)
    requires
        forall|k: int| 0 <= k < list.len() ==> (#[trigger] list[k]).flags == CCFlags::none(),
    ensures
        cc_union(list) == CCFlags::none(),
    decreases list.len(),
{
    if list.len() > 0 {
        let rest = list.drop_last();
        assert forall|k: int| 0 <= k < rest.len() implies (#[trigger] rest[k]).flags == CCFlags::none() by {
            assert(list[k].flags == CCFlags::none());
        }
        lemma_no_flags(rest);
        assert(list[list.len() - 1].flags == CCFlags::none());
        assert(0u8 | 0u8 == 0u8) by (bit_vector);
    }
}

} // verus!
