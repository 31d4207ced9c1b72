//! How the cards of a match are drawn and shuffled.

use vstd::prelude::*;

use crate::decks::{
    dealt, drawn, hand_position, hand_position_from, pick_spec, prand_spec, shuffle_seed,
    shuffled_down_to, shuffled_order_spec, swapped,
};

verus! {

/// The random numbers: the seed times 2654435761, without what exceeds 32 bits, with the bits of
/// 0x9E3779B9 turned over, and of that the rest by a thousand.
pub proof fn random_numbers_are_agreed(seed: u32, k: int)
    requires
        0 < k <= 64,
    ensures
        ({
            let x = ((seed * 2654435761) % 0x1_0000_0000) as u32;
            &&& prand_spec(seed) == (x ^ 0x9E37_79B9u32) % 1000
            &&& 0 <= pick_spec(seed, k) < k
            &&& pick_spec(seed, k) == prand_spec(seed) * k / 1000
        }),
{
    let r = prand_spec(seed) as int;
    assert(0 <= r * k / 1000 < k) by (nonlinear_arith)
        requires
            0 <= r < 1000,
            0 < k,
    ;
    vstd::arithmetic::div_mod::lemma_small_mod((r * k / 1000) as nat, k as nat);
}

/// Where the seeds of single draws and exchanges come from: each is the seed and a multiple of its
/// number.
pub open spec fn seed_of(seed: u32, i: int, step: int) -> u32 {
    ((seed + i * step) % 0x1_0000_0000) as u32
}

/// A draw takes one of the cards that are left, by the number of its own seed, and puts it behind those
/// that are drawn already; the one that was there takes its place.
pub proof fn draws_take_one_each(seed: u32, k: int)
    requires
        0 <= k < 8,
    ensures
        ({
            let (before, after) = (drawn(seed, k), drawn(seed, k + 1));
            let j = k + prand_spec(seed_of(seed, k, 40503)) * (21 - k) / 1000;
            &&& drawn(seed, 0) == Seq::new(21, |i: int| i as u8)
            &&& after == before.update(k, before[j]).update(j, before[k])
        }),
{
    random_numbers_are_agreed(seed_of(seed, k, 40503), 21 - k);
    let i = k as u32;
    assert(i.wrapping_mul(0x9E37u32) == k * 40503);
    assert(seed.wrapping_add(i.wrapping_mul(0x9E37u32)) == seed_of(seed, k, 40503));
}

/// Two cards are shuffled by one exchange, at the seed and thirty-one: the second stays behind the first
/// if the number says so, and comes before it otherwise.
pub proof fn pairs_are_shuffled_by_seed(a: u8, b: u8, seed: u32)
    ensures
        shuffled_order_spec(seq![a, b], seed) == (if prand_spec(seed_of(seed, 1, 31)) < 500 {
            seq![b, a]
        } else {
            seq![a, b]
        }),
{
    reveal_with_fuel(shuffled_down_to, 3);
    let s = seed_of(seed, 1, 31);
    random_numbers_are_agreed(s, 2);
    assert(1u32.wrapping_mul(31) == 31);
    assert(shuffle_seed(seed, 1) == s);
    let p = pick_spec(s, 2);
    assert(p == 0 || p == 1);
    if p == 0 {
        assert(swapped(seq![a, b], 1, 0) =~= seq![b, a]);
    } else {
        assert(swapped(seq![a, b], 1, 1) =~= seq![a, b]);
    }
}

/// Both sides have the eight cards of the seed; blue's are shuffled by the seed itself, red's by the seed
/// and 0x9E3779B9.
pub proof fn sides_are_dealt_apart(seed: u32)
    ensures
        dealt(seed).player == shuffled_order_spec(drawn(seed, 8).take(8), seed),
        dealt(seed).enemy == shuffled_order_spec(drawn(seed, 8).take(8), seed_of(seed, 1, 0x9E37_79B9)),
{
    assert(seed.wrapping_add(0x9E37_79B9u32) == seed_of(seed, 1, 0x9E37_79B9));
}

/// The place of a card in hand is the first of the four where it is.
pub proof fn hands_are_the_first_four(queue: Seq<u8>, card: u8, i: int)
    requires
        0 <= i < 4,
        queue[i] == card,
    ensures
        hand_position(queue, card) matches Some(k) && 0 <= k <= i && queue[k] == card,
{
    reveal_with_fuel(hand_position_from, 5);
}

} // verus!
