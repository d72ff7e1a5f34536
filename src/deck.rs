//! The seeded Fisher–Yates shuffle: for `i` from 51 down to 1 the seed is
//! replaced by its Keccak-256 hash, whose first four bytes read as a
//! little-endian `u32` pick `j = u32 % (i + 1)`, and positions `i` and `j`
//! are swapped.
use vstd::prelude::*;
use crate::hash::{keccak, keccak256};

verus! {

/// The first four bytes of `b` as a little-endian integer.
pub open spec fn le_u32(b: Seq<u8>) -> nat {
    (b[0] + b[1] * 0x100 + b[2] * 0x10000 + b[3] * 0x1000000) as nat
}

/// `deck` with positions `i` and `j` exchanged.
pub open spec fn swapped(deck: Seq<u8>, i: int, j: int) -> Seq<u8> {
    deck.update(i, deck[j]).update(j, deck[i])
}

/// The shuffle's steps from position `i` down to 1, starting from `seed`.
pub open spec fn shuffle_from(deck: Seq<u8>, seed: Seq<u8>, i: int) -> Seq<u8>
    decreases i,
{
    if i <= 0 {
        deck
    } else {
        let s = keccak256(seed);
        let j = le_u32(s) % (i + 1) as nat;
        shuffle_from(swapped(deck, i, j as int), s, i - 1)
    }
}

/// The ordered deck `0, 1, ..., 51`.
pub open spec fn ordered_deck() -> Seq<u8> {
    Seq::new(52, |k: int| k as u8)
}

/// The deck that a seed shuffles to.
pub open spec fn shuffled_deck(seed: Seq<u8>) -> Seq<u8> {
    shuffle_from(ordered_deck(), seed, 51)
}

/// Each of the 52 cards stands exactly once.
pub open spec fn is_permutation(deck: Seq<u8>) -> bool {
    &&& deck.len() == 52
    &&& forall|k: int| 0 <= k < 52 ==> #[trigger] deck[k] < 52
    &&& forall|a: int, b: int| 0 <= a < b < 52 ==> deck[a] != deck[b]
}

proof fn lemma_swap_keeps_permutation(deck: Seq<u8>, i: int, j: int)
    requires
        is_permutation(deck),
        0 <= i < 52,
        0 <= j < 52,
    ensures
        is_permutation(swapped(deck, i, j)),
{
    let d = swapped(deck, i, j);
    assert forall|a: int, b: int| 0 <= a < b < 52 implies d[a] != d[b] by {
        let pa = if a == j { i } else if a == i { j } else { a };
        let pb = if b == j { i } else if b == i { j } else { b };
        assert(d[a] == deck[pa]);
        assert(d[b] == deck[pb]);
        if pa < pb {
            assert(deck[pa] != deck[pb]);
        } else {
            assert(deck[pb] != deck[pa]);
        }
    }
    assert forall|k: int| 0 <= k < 52 implies #[trigger] d[k] < 52 by {
        let pk = if k == j { i } else if k == i { j } else { k };
        assert(d[k] == deck[pk]);
    }
}

proof fn lemma_shuffle_permutation(deck: Seq<u8>, seed: Seq<u8>, i: int)
    requires
        is_permutation(deck),
        i < 52,
    ensures
        is_permutation(shuffle_from(deck, seed, i)),
    decreases i,
{
    if i > 0 {
        let s = keccak256(seed);
        let j = le_u32(s) % (i + 1) as nat;
        lemma_swap_keeps_permutation(deck, i, j as int);
        lemma_shuffle_permutation(swapped(deck, i, j as int), s, i - 1);
    }
}

/// The seeded shuffle always yields a permutation of the 52 cards, and the
/// same seed always yields the same one.
pub proof fn lemma_shuffle_is_permutation(seed: Seq<u8>)
    ensures
        is_permutation(shuffled_deck(seed)),
        forall|other: Seq<u8>| other == seed ==> shuffled_deck(other) == shuffled_deck(seed),
{
    assert(is_permutation(ordered_deck()));
    lemma_shuffle_permutation(ordered_deck(), seed, 51);
}

/// The deck that `combined_seed` shuffles to.
pub fn initialize_deck(combined_seed: [u8; 32]) -> (deck: [u8; 52])
    ensures
        deck@ == shuffled_deck(combined_seed@),
        is_permutation(deck@),
{
    let mut deck: [u8; 52] = [0u8; 52];
    let mut k: usize = 0;
    while k < 52
        invariant
            k <= 52,
            forall|m: int| 0 <= m < k ==> #[trigger] deck@[m] == m as u8,
        decreases 52 - k,
    {
        deck[k] = k as u8;
        k = k + 1;
    }
    assert(deck@ =~= ordered_deck());
    let mut seed: [u8; 32] = combined_seed;
    let mut i: usize = 51;
    while i > 0
        invariant
            i <= 51,
            deck@.len() == 52,
            shuffle_from(deck@, seed@, i as int) == shuffled_deck(combined_seed@),
        decreases i,
    {
        seed = keccak(&seed);
        let x: u64 = seed[0] as u64 + seed[1] as u64 * 0x100 + seed[2] as u64 * 0x10000 + seed[3] as u64
            * 0x1000000;
        let j = (x % (i as u64 + 1)) as usize;
        let a = deck[i];
        let b = deck[j];
        deck[i] = b;
        deck[j] = a;
        i = i - 1;
    }
    proof {
        lemma_shuffle_is_permutation(combined_seed@);
    }
    deck
}

/// The card at `next_card_index`, after which the index moves on.
pub fn deal_card(deck: &[u8; 52], next_card_index: &mut u8) -> (card: u8)
    requires
        *old(next_card_index) < 52,
    ensures
        card == deck@[*old(next_card_index) as int],
        *final(next_card_index) == *old(next_card_index) + 1,
{
    let card = deck[*next_card_index as usize];
    *next_card_index = *next_card_index + 1;
    card
}

/// Bytewise exclusive or.
pub open spec fn xor_bytes(a: Seq<u8>, b: Seq<u8>) -> Seq<u8> {
    Seq::new(a.len(), |i: int| a[i] ^ b[i])
}

/// Whether a revealed secret is the one its commitment (its Keccak-256
/// hash) bound the player to.
pub fn secret_matches(secret: &[u8; 32], commitment: &[u8; 32]) -> (r: bool)
    ensures
        r == (keccak256(secret@) == commitment@),
{
    let h = keccak(secret);
    let mut i: usize = 0;
    while i < 32
        invariant
            i <= 32,
            h@ == keccak256(secret@),
            forall|m: int| 0 <= m < i ==> h@[m] == commitment@[m],
        decreases 32 - i,
    {
        if h[i] != commitment[i] {
            assert(h@[i as int] != commitment@[i as int]);
            return false;
        }
        i = i + 1;
    }
    assert(h@ =~= commitment@);
    true
}

/// The shuffle seed that two revealed secrets give: the Keccak-256 hash of
/// their bytewise exclusive or.
pub fn combine_secrets(secret1: &[u8; 32], secret2: &[u8; 32]) -> (seed: [u8; 32])
    ensures
        seed@ == keccak256(xor_bytes(secret1@, secret2@)),
{
    let mut combined: [u8; 32] = [0u8; 32];
    let mut i: usize = 0;
    while i < 32
        invariant
            i <= 32,
            forall|m: int| 0 <= m < i ==> #[trigger] combined@[m] == secret1@[m] ^ secret2@[m],
        decreases 32 - i,
    {
        combined[i] = secret1[i] ^ secret2[i];
        i = i + 1;
    }
    assert(combined@ =~= xor_bytes(secret1@, secret2@));
    keccak(&combined)
}

} // verus!
