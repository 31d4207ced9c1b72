//! The passage of time for buffs.

use vstd::prelude::*;

use crate::buffs::{
    cc_union, status_model, status_models, statuses_wf, tick_keeps_order, ticked, BuffModel, Buffs,
};
use crate::components::{Actor, CCFlags};
use crate::constants::tick_dt;
use crate::scalar::{zero, Scalar};

verus! {

/// Buffs one tick later; without any left there is no container either.
pub open spec fn aged<S: Scalar>(status: Option<Seq<BuffModel<S>>>) -> Option<Seq<BuffModel<S>>> {
    match status {
        Some(list) => if ticked(list, tick_dt()).len() == 0 {
            None
        } else {
            Some(ticked(list, tick_dt()))
        },
        None => None,
    }
}

/// A unit under its buffs: a stun ends its charge.
pub open spec fn shaken<S: Scalar>(a: Actor<S>, status: Option<Seq<BuffModel<S>>>) -> Actor<S> {
    match (status, a.charge) {
        (Some(list), Some(c)) if cc_union(list).contains(CCFlags::stun()) => Actor {
            charge: Some(c.cleared()),
            ..a
        },
        _ => a,
    }
}

/// All units under their buffs.
pub open spec fn shaken_all<S: Scalar>(
    units: Seq<Actor<S>>,
    statuses: Seq<Option<Seq<BuffModel<S>>>>,
) -> Seq<Actor<S>> {
    Seq::new(units.len(), |i: int| shaken(units[i], statuses[i]))
}

/// All buffs one tick later.
pub open spec fn aged_all<S: Scalar>(statuses: Seq<Option<Seq<BuffModel<S>>>>) -> Seq<
    Option<Seq<BuffModel<S>>>,
> {
    statuses.map_values(|s: Option<Seq<BuffModel<S>>>| aged(s))
}

fn age<S: Scalar>(buffs: Option<Buffs<S>>) -> (r: Option<Buffs<S>>)
    requires
        buffs matches Some(b) ==> b.wf(),
    ensures
        r matches Some(b) ==> b.wf(),
        status_model(r) == aged(status_model(buffs)),
{
    match buffs {
        Some(b) => {
            let mut b: Buffs<S> = b;
            if b.tick(tick_dt()) {
                None
            } else {
                Some(b)
            }
        },
        None => None,
    }
}

/// Lets one tick pass for all buffs; stunned units lose their charge.
pub fn status_effects<S: Scalar>(units: &mut Vec<Actor<S>>, buffs: &mut Vec<Option<Buffs<S>>>)
    requires
        old(buffs)@.len() == old(units)@.len(),
        statuses_wf(old(buffs)@),
    ensures
        final(units)@ == shaken_all(old(units)@, status_models(old(buffs)@)),
        status_models(final(buffs)@) == aged_all(status_models(old(buffs)@)),
        final(buffs)@.len() == final(units)@.len(),
        statuses_wf(final(buffs)@),
{
    let n: usize = units.len();
    let ghost us = units@;
    let ghost bs = buffs@;
    let ghost st = status_models(bs);
    for i in 0..n
        invariant
            n == us.len(),
            n == bs.len(),
            n == units@.len(),
            n == buffs@.len(),
            st == status_models(bs),
            statuses_wf(bs),
            forall|j: int| i <= j < n ==> units@[j] == us[j],
            forall|j: int| i <= j < n ==> buffs@[j] == bs[j],
            forall|j: int| 0 <= j < i ==> units@[j] == shaken(us[j], st[j]),
            forall|j: int| 0 <= j < i ==> status_model(#[trigger] buffs@[j]) == aged(st[j]),
            forall|j: int| 0 <= j < i ==> ((#[trigger] buffs@[j]) matches Some(b) ==> b.wf()),
    {
        assert(bs[i as int] matches Some(b) ==> b.wf());
        assert(st[i as int] == status_model(bs[i as int]));
        let stunned: bool = match &buffs[i] {
            Some(b) => b.has_cc(CCFlags::stun()),
            None => false,
        };
        if stunned {
            let a: Actor<S> = units[i];
            if let Some(c) = a.charge {
                units[i] = Actor { charge: Some(c.cleared()), ..a };
            }
        }
        let mut none: Option<Buffs<S>> = None;
        core::mem::swap(&mut buffs[i], &mut none);
        let later: Option<Buffs<S>> = age(none);
        buffs[i] = later;
    }
    assert(units@ =~= shaken_all(us, st));
    assert(status_models(buffs@) =~= aged_all(st));
}

/// A unit whose buffs all have more than a tick left keeps them, with a tick less each.
pub proof fn lasting_buffs_stay<S: Scalar>(list: Seq<BuffModel<S>>)
    requires
        list.len() > 0,
        forall|i: int|
            0 <= i < list.len() ==> zero::<S>().less(
                (#[trigger] list[i]).secs.minus(tick_dt()),
            ),
    ensures
        aged(Some(list)) == Some(
            list.map_values(|b: BuffModel<S>| BuffModel { secs: b.secs.minus(tick_dt()), ..b }),
        ),
{
    tick_keeps_order(list, tick_dt());
}

} // verus!
