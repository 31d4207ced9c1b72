//! Decks: eight cards drawn from all by a seed, the same for both sides, each side in its own
//! order. The first four are the hand; a card that is played goes to the end.

use vstd::prelude::*;
use vstd::seq_lib::{to_multiset_build, to_multiset_remove, to_multiset_update};

use crate::components::Faction;
use crate::constants::{CARD_COUNT, DECK_SIZE, HAND_SIZE};

verus! {

/// A number below 1000 that a seed stands for, the same on every machine.
pub open spec fn prand_spec(seed: u32) -> u32 {
    (seed.wrapping_mul(2654435761u32) ^ 0x9E37_79B9u32) % 1000u32
}

/// A number below 1000 that a seed stands for, the same on every machine.
pub fn prand(seed: u32) -> (r: u32)
    ensures
        r == prand_spec(seed),
        r < 1000,
{
    (seed.wrapping_mul(2654435761u32) ^ 0x9E37_79B9u32) % 1000u32
}

/// A choice among `k` that a seed stands for.
pub open spec fn pick_spec(seed: u32, k: int) -> int {
    (prand_spec(seed) * k / 1000) % k
}

fn pick(seed: u32, k: usize) -> (r: usize)
    requires
        0 < k <= 64,
    ensures
        r == pick_spec(seed, k as int),
        r < k,
{
    let m: usize = prand(seed) as usize;
    assert(0 <= m * k <= 1000 * 64) by (nonlinear_arith)
        requires
            m < 1000,
            k <= 64,
    ;
    (m * k / 1000) % k
}

/// A list with two places exchanged.
pub open spec fn swapped(s: Seq<u8>, i: int, j: int) -> Seq<u8> {
    s.update(i, s[j]).update(j, s[i])
}

fn swap(v: &mut Vec<u8>, i: usize, j: usize)
    requires
        i < old(v)@.len(),
        j < old(v)@.len(),
    ensures
        final(v)@ == swapped(old(v)@, i as int, j as int),
{
    let a: u8 = v[i];
    let b: u8 = v[j];
    v[i] = b;
    v[j] = a;
}

/// The seed of the `i`th draw.
pub open spec fn draw_seed(seed: u32, i: int) -> u32 {
    seed.wrapping_add((i as u32).wrapping_mul(0x9E37u32))
}

/// All cards, after the first `k` draws.
pub open spec fn drawn(seed: u32, k: int) -> Seq<u8>
    decreases k,
{
    if k <= 0 {
        Seq::new(CARD_COUNT as nat, |i: int| i as u8)
    } else {
        let i = k - 1;
        swapped(drawn(seed, i), i, i + pick_spec(draw_seed(seed, i), CARD_COUNT - i))
    }
}

/// The cards of a match.
pub open spec fn deck_pool_spec(seed: u32) -> Seq<u8> {
    drawn(seed, DECK_SIZE as int).take(DECK_SIZE as int)
}

/// The seed of the `i`th exchange of a shuffle.
pub open spec fn shuffle_seed(seed: u32, i: int) -> u32 {
    seed.wrapping_add((i as u32).wrapping_mul(31))
}

/// A list after the exchanges of its last place down to place `i + 1`.
pub open spec fn shuffled_down_to(pool: Seq<u8>, seed: u32, i: int) -> Seq<u8>
    decreases pool.len() - i,
{
    if i >= pool.len() - 1 {
        pool
    } else {
        let before = shuffled_down_to(pool, seed, i + 1);
        swapped(before, i + 1, pick_spec(shuffle_seed(seed, i + 1), i + 2))
    }
}

/// A list in the order that a seed stands for.
pub open spec fn shuffled_order_spec(pool: Seq<u8>, seed: u32) -> Seq<u8> {
    shuffled_down_to(pool, seed, 0)
}

/// The cards of a match: the first eight places after eight draws.
pub fn deck_pool(seed: u32) -> (r: Vec<u8>)
    ensures
        r@ == deck_pool_spec(seed),
        r@.len() == DECK_SIZE,
{
    let mut all: Vec<u8> = Vec::new();
    let mut c: usize = 0;
    while c < CARD_COUNT
        invariant
            c <= CARD_COUNT,
            all@.len() == c,
            forall|i: int| 0 <= i < c ==> all@[i] == i,
        decreases CARD_COUNT - c,
    {
        all.push(c as u8);
        c += 1;
    }
    assert(all@ =~= drawn(seed, 0));
    for i in 0..DECK_SIZE
        invariant
            all@ == drawn(seed, i as int),
            all@.len() == CARD_COUNT,
    {
        let j: usize = i + pick(seed.wrapping_add((i as u32).wrapping_mul(0x9E37u32)), CARD_COUNT - i);
        swap(&mut all, i, j);
    }
    let mut pool: Vec<u8> = Vec::new();
    for i in 0..DECK_SIZE
        invariant
            all@ == drawn(seed, DECK_SIZE as int),
            all@.len() == CARD_COUNT,
            pool@ == all@.take(i as int),
    {
        pool.push(all[i]);
        assert(pool@ =~= all@.take(i + 1));
    }
    pool
}

/// A list in the order that a seed stands for.
pub fn shuffled_order(pool: &Vec<u8>, seed: u32) -> (r: Vec<u8>)
    requires
        pool@.len() <= 64,
    ensures
        r@ == shuffled_order_spec(pool@, seed),
        r@.len() == pool@.len(),
{
    let mut deck: Vec<u8> = Vec::new();
    let n: usize = pool.len();
    for i in 0..n
        invariant
            n == pool@.len(),
            deck@ == pool@.take(i as int),
    {
        deck.push(pool[i]);
        assert(deck@ =~= pool@.take(i + 1));
    }
    assert(deck@ =~= pool@);
    if n > 1 {
        let mut i: usize = n - 1;
        while i > 0
            invariant
                n == pool@.len(),
                n <= 64,
                i < n,
                deck@.len() == n,
                deck@ == shuffled_down_to(pool@, seed, i as int),
            decreases i,
        {
            let j: usize = pick(seed.wrapping_add((i as u32).wrapping_mul(31)), i + 1);
            swap(&mut deck, i, j);
            i -= 1;
        }
    }
    deck
}

/// A shuffled pool of its own.
pub fn shuffled_deck(seed: u32) -> (r: Vec<u8>)
    ensures
        r@ == shuffled_order_spec(deck_pool_spec(seed), seed),
        r@.len() == DECK_SIZE,
{
    let pool: Vec<u8> = deck_pool(seed);
    shuffled_order(&pool, seed)
}

/// The decks of both sides, from the hand to the last card.
#[derive(Debug)]
pub struct Decks {
    pub player: Vec<u8>,
    pub enemy: Vec<u8>,
}

/// Decks as mathematical values.
pub ghost struct DecksModel {
    pub player: Seq<u8>,
    pub enemy: Seq<u8>,
}

impl DecksModel {
    /// The deck of one side.
    pub open spec fn queue(self, faction: Faction) -> Seq<u8> {
        match faction {
            Faction::Player => self.player,
            Faction::Enemy => self.enemy,
        }
    }

    /// The decks with one replaced.
    pub open spec fn with(self, faction: Faction, queue: Seq<u8>) -> DecksModel {
        match faction {
            Faction::Player => DecksModel { player: queue, ..self },
            Faction::Enemy => DecksModel { enemy: queue, ..self },
        }
    }

    /// There are cards enough for a hand and one to come, and all of them exist.
    pub open spec fn wf(self) -> bool {
        &&& self.player.len() > HAND_SIZE
        &&& self.enemy.len() > HAND_SIZE
        &&& forall|i: int| 0 <= i < self.player.len() ==> (#[trigger] self.player[i]) < CARD_COUNT
        &&& forall|i: int| 0 <= i < self.enemy.len() ==> (#[trigger] self.enemy[i]) < CARD_COUNT
    }
}

/// The place in hand of a card, counted from `from`.
pub open spec fn hand_position_from(queue: Seq<u8>, card: u8, from: int) -> Option<int>
    decreases HAND_SIZE - from,
{
    if from >= HAND_SIZE {
        None
    } else if queue[from] == card {
        Some(from)
    } else {
        hand_position_from(queue, card, from + 1)
    }
}

/// The place in hand of a card.
pub open spec fn hand_position(queue: Seq<u8>, card: u8) -> Option<int> {
    hand_position_from(queue, card, 0)
}

/// A deck after the card at `i` was played: it goes to the end, the others move up.
pub open spec fn cycled(queue: Seq<u8>, i: int) -> Seq<u8> {
    queue.remove(i).push(queue[i])
}

/// Decks drawn and shuffled by a seed.
pub open spec fn dealt(seed: u32) -> DecksModel {
    DecksModel {
        player: shuffled_order_spec(deck_pool_spec(seed), seed),
        enemy: shuffled_order_spec(deck_pool_spec(seed), seed.wrapping_add(0x9E37_79B9u32)),
    }
}

impl View for Decks {
    type V = DecksModel;

    open spec fn view(&self) -> DecksModel {
        DecksModel { player: self.player@, enemy: self.enemy@ }
    }
}

impl Decks {
    /// Decks of the standard seed.
    pub fn shuffled() -> (r: Decks)
        ensures
            r@ == dealt(42),
            r@.wf(),
    {
        Decks::shuffled_with(42)
    }

    /// Decks drawn and shuffled by a seed: one pool for both sides, an order for each.
    pub fn shuffled_with(seed: u32) -> (r: Decks)
        ensures
            r@ == dealt(seed),
            r@.wf(),
    {
        let pool: Vec<u8> = deck_pool(seed);
        let player: Vec<u8> = shuffled_order(&pool, seed);
        let enemy: Vec<u8> = shuffled_order(&pool, seed.wrapping_add(0x9E37_79B9u32));
        let r = Decks { player, enemy };
        proof {
            decks_are_fair(seed);
            assert(dealt(seed).player.len() == DECK_SIZE);
        }
        r
    }

    /// The deck of one side.
    pub fn queue(&self, faction: Faction) -> (r: &Vec<u8>)
        ensures
            r@ == self@.queue(faction),
    {
        match faction {
            Faction::Player => &self.player,
            Faction::Enemy => &self.enemy,
        }
    }

    /// Where a card is in hand.
    pub fn find(&self, faction: Faction, card: u8) -> (r: Option<usize>)
        requires
            self@.queue(faction).len() >= HAND_SIZE,
        ensures
            match r {
                Some(i) => hand_position(self@.queue(faction), card) == Some(i as int) && i < HAND_SIZE
                    && self@.queue(faction)[i as int] == card,
                None => hand_position(self@.queue(faction), card).is_none(),
            },
    {
        let queue: &Vec<u8> = self.queue(faction);
        let mut i: usize = 0;
        while i < HAND_SIZE
            invariant
                queue@ == self@.queue(faction),
                queue@.len() >= HAND_SIZE,
                i <= HAND_SIZE,
                hand_position(queue@, card) == hand_position_from(queue@, card, i as int),
            decreases HAND_SIZE - i,
        {
            if queue[i] == card {
                return Some(i);
            }
            i += 1;
        }
        None
    }

    /// Moves the card at `i` to the end of its deck.
    pub fn cycle(&mut self, faction: Faction, i: usize)
        requires
            i < old(self)@.queue(faction).len(),
        ensures
            final(self)@ == old(self)@.with(faction, cycled(old(self)@.queue(faction), i as int)),
    {
        match faction {
            Faction::Player => {
                let c: u8 = self.player.remove(i);
                self.player.push(c);
            },
            Faction::Enemy => {
                let c: u8 = self.enemy.remove(i);
                self.enemy.push(c);
            },
        }
    }
}

proof fn lemma_swapped_multiset(s: Seq<u8>, i: int, j: int)
    requires
        0 <= i < s.len(),
        0 <= j < s.len(),
    ensures
        swapped(s, i, j).to_multiset() == s.to_multiset(),
        swapped(s, i, j).len() == s.len(),
{
    broadcast use vstd::multiset::group_multiset_axioms;

    s.to_multiset_ensures();
    to_multiset_update(s, i, s[j]);
    to_multiset_update(s.update(i, s[j]), j, s[i]);
    let m = s.to_multiset();
    assert(s.contains(s[i]));
    assert(s.contains(s[j]));
    if i == j {
        assert(swapped(s, i, j) =~= s);
    } else {
        s.update(i, s[j]).to_multiset_ensures();
        assert(s.update(i, s[j])[j] == s[j]);
        assert(swapped(s, i, j).to_multiset() =~= m);
    }
}

proof fn lemma_drawn(seed: u32, k: int)
    requires
        0 <= k <= DECK_SIZE,
    ensures
        drawn(seed, k).len() == CARD_COUNT,
        drawn(seed, k).no_duplicates(),
        forall|i: int| 0 <= i < CARD_COUNT ==> (#[trigger] drawn(seed, k)[i]) < CARD_COUNT,
    decreases k,
{
    if k > 0 {
        lemma_drawn(seed, k - 1);
    }
}

proof fn lemma_shuffled(pool: Seq<u8>, seed: u32, i: int)
    requires
        0 <= i,
    ensures
        shuffled_down_to(pool, seed, i).to_multiset() == pool.to_multiset(),
        shuffled_down_to(pool, seed, i).len() == pool.len(),
    decreases pool.len() - i,
{
    if i < pool.len() - 1 {
        lemma_shuffled(pool, seed, i + 1);
        lemma_swapped_multiset(
            shuffled_down_to(pool, seed, i + 1),
            i + 1,
            pick_spec(shuffle_seed(seed, i + 1), i + 2),
        );
    }
}

/// A shuffle only reorders.
pub proof fn shuffle_is_permutation(pool: Seq<u8>, seed: u32)
    ensures
        shuffled_order_spec(pool, seed).to_multiset() == pool.to_multiset(),
{
    lemma_shuffled(pool, seed, 0);
}

/// Eight different cards that exist are in play, and both sides have the same ones.
pub proof fn decks_are_fair(seed: u32)
    ensures
        deck_pool_spec(seed).len() == DECK_SIZE,
        deck_pool_spec(seed).no_duplicates(),
        dealt(seed).player.to_multiset() == dealt(seed).enemy.to_multiset(),
        dealt(seed).player.to_multiset() == deck_pool_spec(seed).to_multiset(),
        dealt(seed).player.no_duplicates(),
        dealt(seed).enemy.no_duplicates(),
        dealt(seed).player.len() == DECK_SIZE,
        dealt(seed).enemy.len() == DECK_SIZE,
        dealt(seed).wf(),
{
    let pool = deck_pool_spec(seed);
    lemma_drawn(seed, DECK_SIZE as int);
    lemma_shuffled(pool, seed, 0);
    lemma_shuffled(pool, seed.wrapping_add(0x9E37_79B9u32), 0);
    pool.lemma_multiset_has_no_duplicates();
    let p = dealt(seed).player;
    let e = dealt(seed).enemy;
    p.lemma_multiset_has_no_duplicates_conv();
    e.lemma_multiset_has_no_duplicates_conv();
    pool.to_multiset_ensures();
    p.to_multiset_ensures();
    e.to_multiset_ensures();
    assert forall|i: int| 0 <= i < p.len() implies (#[trigger] p[i]) < CARD_COUNT by {
        assert(p.contains(p[i]));
        assert(pool.to_multiset().count(p[i]) > 0);
        assert(pool.contains(p[i]));
    }
    assert forall|i: int| 0 <= i < e.len() implies (#[trigger] e[i]) < CARD_COUNT by {
        assert(e.contains(e[i]));
        assert(pool.to_multiset().count(e[i]) > 0);
        assert(pool.contains(e[i]));
    }
}

/// Playing a card only reorders the deck: the card goes to the end.
pub proof fn cycling_is_permutation(queue: Seq<u8>, i: int)
    requires
        0 <= i < queue.len(),
    ensures
        cycled(queue, i).to_multiset() == queue.to_multiset(),
        cycled(queue, i).len() == queue.len(),
        cycled(queue, i).last() == queue[i],
        forall|j: int| 0 <= j < i ==> cycled(queue, i)[j] == queue[j],
        forall|j: int| i <= j < queue.len() - 1 ==> cycled(queue, i)[j] == queue[j + 1],
{
    broadcast use vstd::multiset::group_multiset_axioms;

    to_multiset_remove(queue, i);
    to_multiset_build(queue.remove(i), queue[i]);
    queue.to_multiset_ensures();
    assert(queue.contains(queue[i]));
    assert(cycled(queue, i).to_multiset() =~= queue.to_multiset());
}

/// A played card is not in hand again before as many others were played as wait behind it: it
/// leaves the hand, and the next one in line enters.
pub proof fn played_card_leaves_hand(queue: Seq<u8>, i: int)
    requires
        0 <= i < HAND_SIZE,
        queue.len() > HAND_SIZE,
        queue.no_duplicates(),
    ensures
        hand_position(cycled(queue, i), queue[i]).is_none(),
        cycled(queue, i)[HAND_SIZE - 1] == queue[HAND_SIZE as int],
{
    reveal_with_fuel(hand_position_from, 5);
    let q = cycled(queue, i);
    assert forall|j: int| 0 <= j < HAND_SIZE implies #[trigger] q[j] != queue[i] by {
        if j < i {
            assert(q[j] == queue[j]);
        } else {
            assert(q[j] == queue[j + 1]);
        }
    }
    assert(q[0] != queue[i] && q[1] != queue[i] && q[2] != queue[i] && q[3] != queue[i]);
}

} // verus!
