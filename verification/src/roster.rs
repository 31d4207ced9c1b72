//! Removal of units, together with their buffs.

use vstd::prelude::*;

use crate::buffs::{status_model, status_models, statuses_wf, Buffs};
use crate::components::Actor;
use crate::scalar::Scalar;

verus! {

/// The items that are not marked.
pub open spec fn survivors<T>(items: Seq<T>, doomed: Seq<bool>) -> Seq<T>
    decreases items.len(),
{
    if items.len() == 0 {
        Seq::empty()
    } else {
        let rest = survivors(items.drop_last(), doomed.drop_last());
        if doomed.last() { rest } else { rest.push(items.last()) }
    }
}

/// Removes the marked items and keeps the order of the others.
pub fn remove_doomed<T>(items: &mut Vec<T>, doomed: &Vec<bool>)
    requires
        doomed@.len() == old(items)@.len(),
    ensures
        final(items)@ == survivors(old(items)@, doomed@),
{
    let ghost before = items@;
    let n: usize = doomed.len();
    let mut at: usize = 0;
    let mut k: usize = 0;
    assert(before.take(0) =~= Seq::<T>::empty());
    assert(items@.take(0) =~= Seq::<T>::empty());
    while k < n
        invariant
            n == doomed@.len(),
            n == before.len(),
            k <= n,
            at <= k,
            items@.len() - at == n - k,
            items@.take(at as int) == survivors(before.take(k as int), doomed@.take(k as int)),
            items@.skip(at as int) == before.skip(k as int),
        decreases n - k,
    {
        let ghost now = items@;
        assert(before.take(k + 1).drop_last() =~= before.take(k as int));
        assert(doomed@.take(k + 1).drop_last() =~= doomed@.take(k as int));
        assert(now.skip(at as int)[0] == before.skip(k as int)[0]);
        if doomed[k] {
            let _gone = items.remove(at);
            assert(items@.take(at as int) =~= now.take(at as int));
            assert(items@.skip(at as int) =~= now.skip(at as int).skip(1));
        } else {
            at += 1;
            assert(items@.take(at as int) =~= now.take(at - 1).push(before[k as int]));
            assert(items@.skip(at as int) =~= now.skip(at - 1).skip(1));
        }
        assert(before.skip(k + 1) =~= before.skip(k as int).skip(1));
        k += 1;
    }
    assert(before.take(n as int) =~= before);
    assert(doomed@.take(n as int) =~= doomed@);
    assert(items@.take(at as int) =~= items@);
}

/// Removing commutes with taking the mathematical value of buffs.
pub proof fn lemma_survivors_status<S: Scalar>(all: Seq<Option<Buffs<S>>>, doomed: Seq<bool>)
    requires
        all.len() == doomed.len(),
    ensures
        status_models(survivors(all, doomed)) == survivors(status_models(all), doomed),
        statuses_wf(all) ==> statuses_wf(survivors(all, doomed)),
    decreases all.len(),
{
    if all.len() > 0 {
        lemma_survivors_status(all.drop_last(), doomed.drop_last());
        assert(status_models(all).drop_last() =~= status_models(all.drop_last()));
        assert(status_models(all).last() == status_model(all.last()));
        let rest = survivors(all.drop_last(), doomed.drop_last());
        assert(status_models(rest.push(all.last())) =~= status_models(rest).push(
            status_model(all.last()),
        ));
        if statuses_wf(all) {
            assert forall|i: int| 0 <= i < all.drop_last().len() implies ((
            #[trigger] all.drop_last()[i]) matches Some(b) ==> b.wf()) by {
                assert(all[i] matches Some(b) ==> b.wf());
            }
            assert(all[all.len() - 1] matches Some(b) ==> b.wf());
        }
    } else {
        assert(status_models(survivors(all, doomed)) =~= survivors(status_models(all), doomed));
    }
}

/// Equally long lists stay equally long.
pub proof fn lemma_survivors_len<T, U>(a: Seq<T>, b: Seq<U>, doomed: Seq<bool>)
    requires
        a.len() == b.len(),
    ensures
        survivors(a, doomed).len() == survivors(b, doomed).len(),
        survivors(a, doomed).len() <= a.len(),
    decreases a.len(),
{
    if a.len() > 0 {
        lemma_survivors_len(a.drop_last(), b.drop_last(), doomed.drop_last());
    }
}

/// What survives was there, and was not marked.
pub proof fn lemma_survivor_origin<T>(items: Seq<T>, doomed: Seq<bool>, k: int) -> (j: int)
    requires
        items.len() == doomed.len(),
        0 <= k < survivors(items, doomed).len(),
    ensures
        0 <= j < items.len(),
        !doomed[j],
        survivors(items, doomed)[k] == items[j],
    decreases items.len(),
{
    let rest = survivors(items.drop_last(), doomed.drop_last());
    if k < rest.len() {
        lemma_survivor_origin(items.drop_last(), doomed.drop_last(), k)
    } else {
        items.len() - 1
    }
}

/// Whatever is not marked survives.
pub proof fn lemma_unmarked_survives<T>(items: Seq<T>, doomed: Seq<bool>, j: int) -> (k: int)
    requires
        items.len() == doomed.len(),
        0 <= j < items.len(),
        !doomed[j],
    ensures
        0 <= k < survivors(items, doomed).len(),
        survivors(items, doomed)[k] == items[j],
    decreases items.len(),
{
    if j == items.len() - 1 {
        survivors(items, doomed).len() - 1
    } else {
        lemma_unmarked_survives(items.drop_last(), doomed.drop_last(), j)
    }
}

/// Removes the marked units with their buffs.
pub fn despawn<S: Scalar>(
    units: &mut Vec<Actor<S>>,
    buffs: &mut Vec<Option<Buffs<S>>>,
    doomed: &Vec<bool>,
)
    requires
        doomed@.len() == old(units)@.len(),
        old(buffs)@.len() == old(units)@.len(),
        statuses_wf(old(buffs)@),
    ensures
        final(units)@ == survivors(old(units)@, doomed@),
        status_models(final(buffs)@) == survivors(status_models(old(buffs)@), doomed@),
        final(buffs)@.len() == final(units)@.len(),
        statuses_wf(final(buffs)@),
{
    proof {
        lemma_survivors_status(buffs@, doomed@);
        lemma_survivors_len(units@, buffs@, doomed@);
    }
    remove_doomed(units, doomed);
    remove_doomed(buffs, doomed);
}

} // verus!
