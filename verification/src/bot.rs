//! A computer opponent: a small network scores every action, and the best legal one is played.

use vstd::prelude::*;

use crate::components::{Faction, GameCommand};
use crate::decks::{Decks, DecksModel};
use crate::net::takes_input;
use crate::match_flow::SimState;
use crate::scalar::Scalar;
use crate::sim_env::{hand_card, hand_card_spec, idx_to_action, NOOP_ACTION, OBS_SIZE, STEP_TICKS};

verus! {

/// A weighted sum on top of a bias, over as many terms as both sides have.
pub open spec fn weighted<S: Scalar>(bias: S, row: Seq<S>, x: Seq<S>, n: int) -> S
    decreases n,
{
    if n <= 0 {
        bias
    } else {
        weighted(bias, row, x, n - 1).plus(row[n - 1].times(x[n - 1]))
    }
}

/// How many terms two lists have in common.
pub open spec fn common<A, B>(a: Seq<A>, b: Seq<B>) -> int {
    if a.len() < b.len() { a.len() as int } else { b.len() as int }
}

/// One output of a layer.
pub fn neuron<S: Scalar>(bias: S, row: &Vec<S>, x: &Vec<S>) -> (r: S)
    ensures
        r == weighted(bias, row@, x@, common(row@, x@)),
{
    let n: usize = if row.len() < x.len() { row.len() } else { x.len() };
    let mut sum: S = bias;
    for i in 0..n
        invariant
            n <= row@.len(),
            n <= x@.len(),
            sum == weighted(bias, row@, x@, i as int),
    {
        sum = sum.plus(row[i].times(x[i]));
    }
    sum
}

/// A layer: as many outputs as there are rows with a bias.
pub fn linear<S: Scalar>(w: &Vec<Vec<S>>, b: &Vec<S>, x: &Vec<S>) -> (y: Vec<S>)
    ensures
        y@ == Seq::new(
            common(w@, b@) as nat,
            |i: int| weighted(b@[i], w@[i]@, x@, common(w@[i]@, x@)),
        ),
{
    let n: usize = if w.len() < b.len() { w.len() } else { b.len() };
    let mut y: Vec<S> = Vec::new();
    for i in 0..n
        invariant
            n <= w@.len(),
            n <= b@.len(),
            y@.len() == i,
            forall|j: int| 0 <= j < i ==> y@[j] == weighted(b@[j], w@[j]@, x@, common(w@[j]@, x@)),
    {
        y.push(neuron(b[i], &w[i], x));
    }
    assert(y@ =~= Seq::new(
        common(w@, b@) as nat,
        |i: int| weighted(b@[i], w@[i]@, x@, common(w@[i]@, x@)),
    ));
    y
}

/// Whether an action may be chosen.
pub open spec fn permitted(mask: Seq<bool>, i: int) -> bool {
    i < mask.len() && mask[i]
}

/// The best permitted action among the first `n`: of equally good ones the first.
pub open spec fn best_upto<S: Scalar>(logits: Seq<S>, mask: Seq<bool>, n: int) -> Option<int>
    decreases n,
{
    if n <= 0 {
        None
    } else {
        let best = best_upto(logits, mask, n - 1);
        let l = logits[n - 1];
        if permitted(mask, n - 1) && (match best {
            Some(b) => logits[b].less(l),
            None => S::infinity().negated().less(l),
        }) {
            Some(n - 1)
        } else {
            best
        }
    }
}

/// The action that the scores speak for: doing nothing, if no permitted one is above all bounds.
pub open spec fn best_action_spec<S: Scalar>(logits: Seq<S>, mask: Seq<bool>) -> int {
    match best_upto(logits, mask, logits.len() as int) {
        Some(i) => i,
        None => NOOP_ACTION as int,
    }
}

/// The action that the scores speak for.
pub fn best_action<S: Scalar>(logits: &Vec<S>, mask: &Vec<bool>) -> (r: usize)
    ensures
        r == best_action_spec(logits@, mask@),
{
    let n: usize = logits.len();
    let mut best: Option<usize> = None;
    let mut best_v: S = S::infinity().negated();
    for i in 0..n
        invariant
            n == logits@.len(),
            match best {
                Some(b) => best_upto(logits@, mask@, i as int) == Some(b as int) && b < i && best_v
                    == logits@[b as int],
                None => best_upto(logits@, mask@, i as int).is_none() && best_v
                    == S::infinity().negated(),
            },
    {
        if i < mask.len() && mask[i] && best_v.less(logits[i]) {
            best_v = logits[i];
            best = Some(i);
        }
    }
    match best {
        Some(i) => i,
        None => NOOP_ACTION,
    }
}

proof fn lemma_best_permitted<S: Scalar>(logits: Seq<S>, mask: Seq<bool>, n: int)
    ensures
        best_upto(logits, mask, n) matches Some(b) ==> 0 <= b < n && permitted(mask, b),
        best_upto(logits, mask, n) matches Some(b) ==> forall|i: int|
            0 <= i < n && #[trigger] permitted(mask, i) ==> !logits[b].less(logits[i]),
    decreases n,
{
    if n > 0 {
        lemma_best_permitted(logits, mask, n - 1);
        let best = best_upto(logits, mask, n - 1);
        let l = logits[n - 1];
        S::less_irreflexive(l);
        if let Some(b) = best_upto(logits, mask, n) {
            assert forall|i: int| 0 <= i < n && #[trigger] permitted(mask, i) implies !logits[b].less(
                logits[i],
            ) by {
                if b == n - 1 && i < n - 1 {
                    if let Some(c) = best {
                        if l.less(logits[i]) {
                            S::less_transitive(logits[c], l, logits[i]);
                        }
                    } else {
                        lemma_none_permitted(logits, mask, n - 1, i);
                        if l.less(logits[i]) {
                            S::less_transitive(S::infinity().negated(), l, logits[i]);
                        }
                    }
                }
            }
        }
    }
}

proof fn lemma_none_permitted<S: Scalar>(logits: Seq<S>, mask: Seq<bool>, n: int, i: int)
    requires
        best_upto(logits, mask, n).is_none(),
        0 <= i < n,
        permitted(mask, i),
    ensures
        !S::infinity().negated().less(logits[i]),
    decreases n,
{
    if i < n - 1 {
        lemma_none_permitted(logits, mask, n - 1, i);
    }
}

/// The choice is always permitted, as long as doing nothing is, and nothing permitted scores
/// higher than an action that was chosen for its score.
pub proof fn choice_is_permitted<S: Scalar>(logits: Seq<S>, mask: Seq<bool>)
    requires
        permitted(mask, NOOP_ACTION as int),
    ensures
        permitted(mask, best_action_spec(logits, mask)),
        best_upto(logits, mask, logits.len() as int) matches Some(b) ==> forall|i: int|
            0 <= i < logits.len() && #[trigger] permitted(mask, i) ==> !logits[b].less(logits[i]),
{
    lemma_best_permitted(logits, mask, logits.len() as int);
}

/// Whether the first layer of a network fits the observations; one made for others would only
/// play nonsense.
pub fn fits<S: Scalar>(w0: &Vec<Vec<S>>) -> (r: bool)
    ensures
        r == (w0@.len() > 0 && w0@[0]@.len() == OBS_SIZE),
{
    w0.len() > 0 && w0[0].len() == OBS_SIZE
}

/// Whether it is time to think: once in every step of a running match.
pub fn due(state: SimState, tick: u32, last_tick: &mut u32) -> (r: bool)
    ensures
        r == (takes_input(state) && tick % STEP_TICKS == 0 && *old(last_tick) != tick),
        *final(last_tick) == (if takes_input(state) && tick % STEP_TICKS == 0 { tick } else { *old(last_tick) }),
{
    if !takes_input(state) {
        return false;
    }
    if tick % STEP_TICKS != 0 {
        return false;
    }
    if *last_tick == tick {
        return false;
    }
    *last_tick = tick;
    true
}

/// The command of an action, if it plays a card.
pub open spec fn command_of_spec<S: Scalar>(decks: DecksModel, faction: Faction, action: usize) -> Option<
    GameCommand<S>,
> {
    match idx_to_action::<S>(faction, action) {
        Some(a) => match hand_card_spec(decks, faction, a.slot as int) {
            Some(c) => Some(GameCommand::Deploy { faction, card: c, x: a.x, z: a.z }),
            None => None,
        },
        None => None,
    }
}

/// The command of an action, if it plays a card.
pub fn command_of<S: Scalar>(decks: &Decks, faction: Faction, action: usize) -> (r: Option<GameCommand<S>>)
    ensures
        r == command_of_spec::<S>(decks@, faction, action),
{
    match idx_to_action::<S>(faction, action) {
        Some(a) => match hand_card(decks, faction, a.slot) {
            Some(c) => Some(GameCommand::Deploy { faction, card: c, x: a.x, z: a.z }),
            None => None,
        },
        None => None,
    }
}

} // verus!
