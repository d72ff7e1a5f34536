//! Five-card hand evaluation and best-five-of-seven selection.
//!
//! A score is `category << 20` followed by up to five 4-bit tiebreak fields
//! (rank values 2..=14), most significant first, so that comparing scores as
//! integers compares hands.
use vstd::prelude::*;
use crate::cards::{Card, rank_of, suit_of};

verus! {

/// How many entries of `s` equal `r`.
pub open spec fn count_of(s: Seq<u8>, r: int) -> nat
    decreases s.len(),
{
    if s.len() == 0 {
        0
    } else {
        count_of(s.drop_last(), r) + if s.last() as int == r { 1nat } else { 0nat }
    }
}

/// How many entries of `s` lie in `lo..=12`.
pub open spec fn count_from(s: Seq<u8>, lo: int) -> nat
    decreases s.len(),
{
    if s.len() == 0 {
        0
    } else {
        count_from(s.drop_last(), lo) + if lo <= s.last() <= 12 { 1nat } else { 0nat }
    }
}

/// The ranks in `lo..=12` that occur exactly `n` times in `s`, highest first.
pub open spec fn ranks_with_count_from(s: Seq<u8>, n: nat, lo: int) -> Seq<u8>
    decreases 13 - lo,
{
    if lo > 12 {
        Seq::empty()
    } else {
        let rest = ranks_with_count_from(s, n, lo + 1);
        if count_of(s, lo) == n {
            rest.push(lo as u8)
        } else {
            rest
        }
    }
}

/// The ranks that occur exactly `n` times in `s`, highest first.
pub open spec fn ranks_with_count(s: Seq<u8>, n: nat) -> Seq<u8> {
    ranks_with_count_from(s, n, 0)
}

/// The entries of `s` in `lo..=12`, highest first.
pub open spec fn sorted_from(s: Seq<u8>, lo: int) -> Seq<u8>
    decreases 13 - lo,
{
    if lo > 12 {
        Seq::empty()
    } else {
        sorted_from(s, lo + 1) + Seq::new(count_of(s, lo), |_i: int| lo as u8)
    }
}

/// The values in `lo..=255` that occur exactly `n` times in `s`, highest
/// first.
pub open spec fn values_with_count_from(s: Seq<u8>, n: nat, lo: int) -> Seq<u8>
    decreases 256 - lo,
{
    if lo > 255 {
        Seq::empty()
    } else {
        let rest = values_with_count_from(s, n, lo + 1);
        if count_of(s, lo) == n {
            rest.push(lo as u8)
        } else {
            rest
        }
    }
}

/// `(value, count)` for each value of `s` that occurs `n` or more times:
/// larger counts first, and higher values first within a count.
pub open spec fn groups_from(s: Seq<u8>, n: int) -> Seq<(u8, usize)>
    decreases s.len() + 1 - n,
{
    if n > s.len() || n < 1 {
        Seq::empty()
    } else {
        groups_from(s, n + 1) + values_with_count_from(s, n as nat, 0).map_values(
            |r: u8| (r, n as usize),
        )
    }
}

/// The `i`-th entry of `s` if there is one, else 0.
pub open spec fn nth(s: Seq<u8>, i: int) -> int {
    if 0 <= i < s.len() {
        s[i] as int
    } else {
        0
    }
}

/// The ranks (0..=12) of a hand's cards.
pub open spec fn hand_ranks(cards: Seq<u8>) -> Seq<u8> {
    cards.map_values(|c: u8| rank_of(c) as u8)
}

pub open spec fn is_flush(cards: Seq<u8>) -> bool {
    forall|i: int| 0 <= i < cards.len() ==> suit_of(#[trigger] cards[i]) == suit_of(cards[0])
}

/// Ranks of A-5-4-3-2, highest first.
pub open spec fn is_wheel(sr: Seq<u8>) -> bool {
    sr.len() == 5 && sr[0] == 12 && sr[1] == 3 && sr[2] == 2 && sr[3] == 1 && sr[4] == 0
}

/// Five ranks, highest first, that form a straight.
pub open spec fn is_straight(sr: Seq<u8>) -> bool {
    ||| (sr[0] == sr[1] + 1 && sr[1] == sr[2] + 1 && sr[2] == sr[3] + 1 && sr[3] == sr[4] + 1)
    ||| is_wheel(sr)
}

/// Rank value of a straight's top card; the wheel counts as five-high.
pub open spec fn straight_high(sr: Seq<u8>) -> int {
    if is_wheel(sr) {
        5
    } else {
        sr[0] + 2
    }
}

/// The rank values of five ranks, highest first, in five nibbles.
pub open spec fn spread(sr: Seq<u8>) -> int {
    (nth(sr, 0) + 2) * 0x10000 + (nth(sr, 1) + 2) * 0x1000 + (nth(sr, 2) + 2) * 0x100 + (nth(sr, 3)
        + 2) * 0x10 + (nth(sr, 4) + 2)
}

pub open spec fn category_base(cat: int) -> int {
    cat * 0x100000
}

/// The score of a five-card hand.
pub open spec fn hand_score(cards: Seq<u8>) -> int {
    let ranks = hand_ranks(cards);
    let sr = sorted_from(ranks, 0);
    let quads = ranks_with_count(ranks, 4);
    let trips = ranks_with_count(ranks, 3);
    let pairs = ranks_with_count(ranks, 2);
    let singles = ranks_with_count(ranks, 1);
    if is_straight(sr) && is_flush(cards) {
        if sr[0] == 12 && sr[1] == 11 {
            category_base(9) + 14 * 0x10000
        } else {
            category_base(8) + straight_high(sr) * 0x10000
        }
    } else if quads.len() > 0 {
        category_base(7) + (quads[0] + 2) * 0x10000 + (nth(singles, 0) + 2) * 0x1000
    } else if trips.len() > 0 && pairs.len() > 0 {
        category_base(6) + (trips[0] + 2) * 0x10000 + (pairs[0] + 2) * 0x1000
    } else if is_flush(cards) {
        category_base(5) + spread(sr)
    } else if is_straight(sr) {
        category_base(4) + straight_high(sr) * 0x10000
    } else if trips.len() > 0 {
        category_base(3) + (trips[0] + 2) * 0x10000 + (nth(singles, 0) + 2) * 0x1000 + (nth(
            singles,
            1,
        ) + 2) * 0x100
    } else if pairs.len() == 2 {
        category_base(2) + (pairs[0] + 2) * 0x10000 + (pairs[1] + 2) * 0x1000 + (nth(singles, 0)
            + 2) * 0x100
    } else if pairs.len() == 1 {
        category_base(1) + (pairs[0] + 2) * 0x10000 + (nth(singles, 0) + 2) * 0x1000 + (nth(
            singles,
            1,
        ) + 2) * 0x100 + (nth(singles, 2) + 2) * 0x10
    } else {
        category_base(0) + spread(sr)
    }
}

/// The category of a five-card hand, as the top nibble of its score holds it.
pub open spec fn hand_category(cards: Seq<u8>) -> int {
    hand_score(cards) / 0x100000
}

/// The poker category of a five-card hand, weakest 0 (high card) to
/// strongest 9 (royal flush).
pub open spec fn canonical_category(cards: Seq<u8>) -> int {
    let ranks = hand_ranks(cards);
    let sr = sorted_from(ranks, 0);
    let straight = is_straight(sr);
    let flush = is_flush(cards);
    if straight && flush && sr[0] == 12 && sr[1] == 11 {
        9
    } else if straight && flush {
        8
    } else if ranks_with_count(ranks, 4).len() > 0 {
        7
    } else if ranks_with_count(ranks, 3).len() > 0 && ranks_with_count(ranks, 2).len() > 0 {
        6
    } else if flush {
        5
    } else if straight {
        4
    } else if ranks_with_count(ranks, 3).len() > 0 {
        3
    } else if ranks_with_count(ranks, 2).len() == 2 {
        2
    } else if ranks_with_count(ranks, 2).len() == 1 {
        1
    } else {
        0
    }
}

proof fn lemma_nth_bounded(s: Seq<u8>, i: int)
    requires
        forall|k: int| 0 <= k < s.len() ==> #[trigger] s[k] <= 12,
    ensures
        0 <= nth(s, i) <= 12,
{
    if 0 <= i < s.len() {
        assert(s[i] <= 12);
    }
}

/// A score's top nibble is the hand's category, below it lie the
/// tiebreaks; so a hand of a higher category always scores higher.
pub proof fn lemma_score_category(cards: Seq<u8>)
    requires
        cards.len() == 5,
    ensures
        hand_category(cards) == canonical_category(cards),
        category_base(canonical_category(cards)) <= hand_score(cards) < category_base(
            canonical_category(cards) + 1,
        ),
{
    let ranks = hand_ranks(cards);
    let sr = sorted_from(ranks, 0);
    lemma_hand_ranks(cards);
    lemma_sorted_shape(ranks, 0);
    lemma_ranks_with_count_bounded(ranks, 4, 0);
    lemma_ranks_with_count_bounded(ranks, 3, 0);
    lemma_ranks_with_count_bounded(ranks, 2, 0);
    lemma_ranks_with_count_bounded(ranks, 1, 0);
    let singles = ranks_with_count(ranks, 1);
    let pairs = ranks_with_count(ranks, 2);
    let trips = ranks_with_count(ranks, 3);
    let quads = ranks_with_count(ranks, 4);
    lemma_nth_bounded(singles, 0);
    lemma_nth_bounded(singles, 1);
    lemma_nth_bounded(singles, 2);
    lemma_nth_bounded(sr, 0);
    lemma_nth_bounded(sr, 1);
    lemma_nth_bounded(sr, 2);
    lemma_nth_bounded(sr, 3);
    lemma_nth_bounded(sr, 4);
    if sr.len() > 0 {
        assert(sr[0] <= 12);
    }
    if pairs.len() > 1 {
        assert(pairs[1] <= 12);
    }
    if pairs.len() > 0 {
        assert(pairs[0] <= 12);
    }
    if trips.len() > 0 {
        assert(trips[0] <= 12);
    }
    if quads.len() > 0 {
        assert(quads[0] <= 12);
    }
    assert(0 <= spread(sr) < 0x100000);
    assert(2 <= straight_high(sr) <= 14);
    let c = canonical_category(cards);
    let t = hand_score(cards) - category_base(c);
    assert(0 <= t < 0x100000);
    vstd::arithmetic::div_mod::lemma_fundamental_div_mod_converse(hand_score(cards), 0x100000, c, t);
}

/// Cards counted by multiplicity: the ranks in `lo..=12` that occur `n`
/// times, weighted by `n`, over `n` from 1 to 5.
pub open spec fn weighted_groups(s: Seq<u8>, lo: int) -> int {
    ranks_with_count_from(s, 1, lo).len() as int + 2 * ranks_with_count_from(s, 2, lo).len() + 3
        * ranks_with_count_from(s, 3, lo).len() + 4 * ranks_with_count_from(s, 4, lo).len() + 5
        * ranks_with_count_from(s, 5, lo).len()
}

proof fn lemma_groups_partition(s: Seq<u8>, lo: int)
    requires
        0 <= lo <= 13,
        s.len() <= 5,
    ensures
        weighted_groups(s, lo) == count_from(s, lo),
    decreases 13 - lo,
{
    if lo <= 12 {
        lemma_groups_partition(s, lo + 1);
        lemma_count_split(s, lo);
        lemma_count_bounded(s, lo);
    } else {
        lemma_count_none_above(s);
    }
}

/// In a five-card hand every kicker that a score reads exists: four of a
/// kind leaves one single, three of a kind without a pair two, two pairs
/// one and one pair three.
pub proof fn lemma_kickers_present(cards: Seq<u8>)
    requires
        cards.len() == 5,
    ensures
        ({
            let ranks = hand_ranks(cards);
            let singles = ranks_with_count(ranks, 1);
            let pairs = ranks_with_count(ranks, 2);
            let trips = ranks_with_count(ranks, 3);
            let quads = ranks_with_count(ranks, 4);
            &&& quads.len() > 0 ==> singles.len() == 1
            &&& quads.len() == 0 && trips.len() > 0 && pairs.len() == 0 ==> singles.len() == 2
            &&& pairs.len() == 2 ==> singles.len() == 1
            &&& quads.len() == 0 && trips.len() == 0 && pairs.len() == 1 ==> singles.len() == 3
        }),
{
    let ranks = hand_ranks(cards);
    lemma_hand_ranks(cards);
    lemma_count_all(ranks);
    lemma_groups_partition(ranks, 0);
}

/// Of two hands in different categories, the one in the higher category
/// scores higher.
pub proof fn lemma_category_decides(a: Seq<u8>, b: Seq<u8>)
    requires
        a.len() == 5,
        b.len() == 5,
        canonical_category(a) > canonical_category(b),
    ensures
        hand_score(a) > hand_score(b),
{
    lemma_score_category(a);
    lemma_score_category(b);
}

pub open spec fn counts_match(s: Seq<u8>, counts: Seq<u8>) -> bool {
    &&& counts.len() == 13
    &&& forall|r: int| 0 <= r < 13 ==> #[trigger] counts[r] == count_of(s, r)
}

pub open spec fn all_ranks(s: Seq<u8>) -> bool {
    forall|i: int| 0 <= i < s.len() ==> #[trigger] s[i] < 13
}

proof fn lemma_count_split(s: Seq<u8>, lo: int)
    requires
        0 <= lo <= 12,
    ensures
        count_from(s, lo) == count_from(s, lo + 1) + count_of(s, lo),
    decreases s.len(),
{
    if s.len() > 0 {
        lemma_count_split(s.drop_last(), lo);
    }
}

proof fn lemma_count_all(s: Seq<u8>)
    requires
        all_ranks(s),
    ensures
        count_from(s, 0) == s.len(),
    decreases s.len(),
{
    if s.len() > 0 {
        assert(all_ranks(s.drop_last()));
        lemma_count_all(s.drop_last());
    }
}

proof fn lemma_count_bounded(s: Seq<u8>, r: int)
    ensures
        count_of(s, r) <= s.len(),
    decreases s.len(),
{
    if s.len() > 0 {
        lemma_count_bounded(s.drop_last(), r);
    }
}

proof fn lemma_sorted_shape(s: Seq<u8>, lo: int)
    requires
        0 <= lo <= 13,
    ensures
        sorted_from(s, lo).len() == count_from(s, lo),
        forall|i: int| 0 <= i < sorted_from(s, lo).len() ==> lo <= #[trigger] sorted_from(s, lo)[i] <= 12,
    decreases 13 - lo,
{
    if lo <= 12 {
        lemma_sorted_shape(s, lo + 1);
        lemma_count_split(s, lo);
    } else {
        assert(count_from(s, 13) == 0) by {
            lemma_count_none_above(s);
        }
    }
}

proof fn lemma_count_none_above(s: Seq<u8>)
    ensures
        count_from(s, 13) == 0,
    decreases s.len(),
{
    if s.len() > 0 {
        lemma_count_none_above(s.drop_last());
    }
}

proof fn lemma_ranks_with_count_bounded(s: Seq<u8>, n: nat, lo: int)
    requires
        0 <= lo,
    ensures
        forall|i: int|
            0 <= i < ranks_with_count_from(s, n, lo).len() ==> lo <= #[trigger] ranks_with_count_from(
                s,
                n,
                lo,
            )[i] <= 12,
    decreases 13 - lo,
{
    if lo <= 12 {
        lemma_ranks_with_count_bounded(s, n, lo + 1);
        let rest = ranks_with_count_from(s, n, lo + 1);
        let all = ranks_with_count_from(s, n, lo);
        assert forall|i: int| 0 <= i < all.len() implies lo <= #[trigger] all[i] <= 12 by {
            if i < rest.len() {
                assert(all[i] == rest[i]);
            }
        }
    }
}

/// The ranks of a hand are all below 13, and five cards give five sorted ranks.
proof fn lemma_hand_ranks(cards: Seq<u8>)
    ensures
        all_ranks(hand_ranks(cards)),
        hand_ranks(cards).len() == cards.len(),
        sorted_from(hand_ranks(cards), 0).len() == cards.len(),
{
    let ranks = hand_ranks(cards);
    lemma_count_all(ranks);
    lemma_sorted_shape(ranks, 0);
}

/// How often each rank `0..13` occurs in `ranks`.
fn rank_counts(ranks: &Vec<u8>) -> (counts: Vec<u8>)
    requires
        all_ranks(ranks@),
        ranks.len() <= 255,
    ensures
        counts_match(ranks@, counts@),
{
    let mut counts: Vec<u8> = Vec::new();
    let mut r: usize = 0;
    while r < 13
        invariant
            r <= 13,
            counts.len() == r,
            forall|j: int| 0 <= j < r ==> #[trigger] counts[j] == 0,
        decreases 13 - r,
    {
        counts.push(0);
        r = r + 1;
    }
    let mut i: usize = 0;
    while i < ranks.len()
        invariant
            i <= ranks.len(),
            ranks.len() <= 255,
            all_ranks(ranks@),
            counts.len() == 13,
            forall|j: int| 0 <= j < 13 ==> #[trigger] counts[j] == count_of(ranks@.subrange(0, i as int), j),
        decreases ranks.len() - i,
    {
        let x = ranks[i] as usize;
        let ghost prev = ranks@.subrange(0, i as int);
        let ghost next = ranks@.subrange(0, i as int + 1);
        assert(next.drop_last() =~= prev);
        proof {
            lemma_count_bounded(prev, x as int);
        }
        counts.set(x, counts[x] + 1);
        i = i + 1;
    }
    assert(ranks@.subrange(0, ranks.len() as int) =~= ranks@);
    counts
}

/// The ranks that occur exactly `n` times, highest first.
fn ranks_with(ranks: &Vec<u8>, counts: &Vec<u8>, n: u8) -> (out: Vec<u8>)
    requires
        counts_match(ranks@, counts@),
    ensures
        out@ == ranks_with_count(ranks@, n as nat),
        forall|i: int| 0 <= i < out.len() ==> #[trigger] out[i] < 13,
{
    let mut out: Vec<u8> = Vec::new();
    let mut r: usize = 13;
    while r > 0
        invariant
            r <= 13,
            counts_match(ranks@, counts@),
            out@ == ranks_with_count_from(ranks@, n as nat, r as int),
        decreases r,
    {
        r = r - 1;
        if counts[r] == n {
            out.push(r as u8);
        }
    }
    proof {
        lemma_ranks_with_count_bounded(ranks@, n as nat, 0);
    }
    out
}

/// All ranks, highest first, each as often as it occurs.
fn sorted_ranks(ranks: &Vec<u8>, counts: &Vec<u8>) -> (out: Vec<u8>)
    requires
        counts_match(ranks@, counts@),
        ranks.len() <= 255,
    ensures
        out@ == sorted_from(ranks@, 0),
        forall|i: int| 0 <= i < out.len() ==> #[trigger] out[i] < 13,
{
    let mut out: Vec<u8> = Vec::new();
    let mut r: usize = 13;
    while r > 0
        invariant
            r <= 13,
            counts_match(ranks@, counts@),
            out@ == sorted_from(ranks@, r as int),
        decreases r,
    {
        r = r - 1;
        let ghost before = out@;
        let c = counts[r];
        let mut k: u8 = 0;
        while k < c
            invariant
                k <= c,
                out@ == before + Seq::new(k as nat, |_i: int| r as u8),
            decreases c - k,
        {
            out.push(r as u8);
            k = k + 1;
            assert(out@ =~= before + Seq::new(k as nat, |_i: int| r as u8));
        }
        assert(out@ =~= sorted_from(ranks@, r as int));
    }
    proof {
        lemma_sorted_shape(ranks@, 0);
    }
    out
}

/// Whether five ranks, highest first, form a straight (the wheel included).
pub fn check_straight(ranks: &[u8]) -> (r: bool)
    requires
        ranks@.len() == 5,
    ensures
        r == is_straight(ranks@),
{
    if ranks[0] as u16 == ranks[1] as u16 + 1 && ranks[1] as u16 == ranks[2] as u16 + 1
        && ranks[2] as u16 == ranks[3] as u16 + 1 && ranks[3] as u16 == ranks[4] as u16 + 1 {
        return true;
    }
    ranks[0] == 12 && ranks[1] == 3 && ranks[2] == 2 && ranks[3] == 1 && ranks[4] == 0
}

/// `(rank, count)` for each distinct rank: larger counts first, higher
/// ranks first within a count.
pub fn count_ranks(ranks: &[u8]) -> (groups: Vec<(u8, usize)>)
    ensures
        groups@ == groups_from(ranks@, 1),
{
    let mut counts: Vec<usize> = Vec::new();
    let mut r: usize = 0;
    while r < 256
        invariant
            r <= 256,
            counts.len() == r,
            forall|j: int| 0 <= j < r ==> #[trigger] counts[j] == 0,
        decreases 256 - r,
    {
        counts.push(0);
        r = r + 1;
    }
    let len = ranks.len();
    let mut i: usize = 0;
    while i < len
        invariant
            i <= len,
            len == ranks@.len(),
            counts.len() == 256,
            forall|j: int| 0 <= j < 256 ==> #[trigger] counts[j] == count_of(ranks@.subrange(0, i as int), j),
        decreases len - i,
    {
        let x = ranks[i] as usize;
        let ghost prev = ranks@.subrange(0, i as int);
        let ghost next = ranks@.subrange(0, i as int + 1);
        assert(next.drop_last() =~= prev);
        proof {
            lemma_count_bounded(prev, x as int);
        }
        counts.set(x, counts[x] + 1);
        i = i + 1;
    }
    assert(ranks@.subrange(0, len as int) =~= ranks@);
    let mut groups: Vec<(u8, usize)> = Vec::new();
    let mut n: usize = len;
    assert(groups@ =~= groups_from(ranks@, n + 1));
    while n > 0
        invariant
            n <= len,
            len == ranks@.len(),
            counts.len() == 256,
            forall|j: int| 0 <= j < 256 ==> #[trigger] counts[j] == count_of(ranks@, j),
            groups@ == groups_from(ranks@, n + 1),
        decreases n,
    {
        let ghost before = groups@;
        let mut r: usize = 256;
        while r > 0
            invariant
                r <= 256,
                1 <= n <= len,
                counts.len() == 256,
                forall|j: int| 0 <= j < 256 ==> #[trigger] counts[j] == count_of(ranks@, j),
                groups@ == before + values_with_count_from(ranks@, n as nat, r as int).map_values(
                    |x: u8| (x, n as usize),
                ),
            decreases r,
        {
            r = r - 1;
            if counts[r] == n {
                groups.push((r as u8, n));
            }
            assert(groups@ =~= before + values_with_count_from(ranks@, n as nat, r as int).map_values(
                |x: u8| (x, n as usize),
            ));
        }
        n = n - 1;
    }
    groups
}

fn nth_or_zero(v: &Vec<u8>, i: usize) -> (x: u8)
    ensures
        x == nth(v@, i as int),
{
    if i < v.len() {
        v[i]
    } else {
        0
    }
}

/// Scores a five-card hand; a higher score is a better hand.
pub fn evaluate_hand(cards: &[u8; 5]) -> (score: u32)
    ensures
        score == hand_score(cards@),
{
    let ghost cs = cards@;
    let mut ranks: Vec<u8> = Vec::new();
    let mut i: usize = 0;
    while i < 5
        invariant
            i <= 5,
            cs == cards@,
            cs.len() == 5,
            ranks@ == hand_ranks(cs).subrange(0, i as int),
        decreases 5 - i,
    {
        ranks.push(Card(cards[i]).rank());
        i = i + 1;
        assert(ranks@ =~= hand_ranks(cs).subrange(0, i as int));
    }
    assert(ranks@ =~= hand_ranks(cs));
    proof {
        lemma_hand_ranks(cs);
        lemma_sorted_shape(ranks@, 0);
    }
    let counts = rank_counts(&ranks);
    let sr = sorted_ranks(&ranks, &counts);
    let quads = ranks_with(&ranks, &counts, 4);
    let trips = ranks_with(&ranks, &counts, 3);
    let pairs = ranks_with(&ranks, &counts, 2);
    let singles = ranks_with(&ranks, &counts, 1);

    let mut flush = true;
    let mut j: usize = 1;
    while j < 5
        invariant
            1 <= j <= 5,
            cs == cards@,
            flush <==> forall|k: int| 0 <= k < j ==> suit_of(#[trigger] cs[k]) == suit_of(cs[0]),
        decreases 5 - j,
    {
        if Card(cards[j]).suit() != Card(cards[0]).suit() {
            flush = false;
        }
        j = j + 1;
    }
    let straight = check_straight(sr.as_slice());
    let wheel = sr[0] == 12 && sr[1] == 3 && sr[2] == 2 && sr[3] == 1 && sr[4] == 0;
    let high: u32 = if wheel {
        5
    } else {
        sr[0] as u32 + 2
    };
    let spread: u32 = (nth_or_zero(&sr, 0) as u32 + 2) * 0x10000 + (nth_or_zero(&sr, 1) as u32 + 2)
        * 0x1000 + (nth_or_zero(&sr, 2) as u32 + 2) * 0x100 + (nth_or_zero(&sr, 3) as u32 + 2) * 0x10
        + (nth_or_zero(&sr, 4) as u32 + 2);
    let k0 = nth_or_zero(&singles, 0) as u32 + 2;
    let k1 = nth_or_zero(&singles, 1) as u32 + 2;
    let k2 = nth_or_zero(&singles, 2) as u32 + 2;

    if straight && flush {
        if sr[0] == 12 && sr[1] == 11 {
            return 9 * 0x100000 + 14 * 0x10000;
        }
        return 8 * 0x100000 + high * 0x10000;
    }
    if quads.len() > 0 {
        return 7 * 0x100000 + (quads[0] as u32 + 2) * 0x10000 + k0 * 0x1000;
    }
    if trips.len() > 0 && pairs.len() > 0 {
        return 6 * 0x100000 + (trips[0] as u32 + 2) * 0x10000 + (pairs[0] as u32 + 2) * 0x1000;
    }
    if flush {
        return 5 * 0x100000 + spread;
    }
    if straight {
        return 4 * 0x100000 + high * 0x10000;
    }
    if trips.len() > 0 {
        return 3 * 0x100000 + (trips[0] as u32 + 2) * 0x10000 + k0 * 0x1000 + k1 * 0x100;
    }
    if pairs.len() == 2 {
        return 2 * 0x100000 + (pairs[0] as u32 + 2) * 0x10000 + (pairs[1] as u32 + 2) * 0x1000 + k0
            * 0x100;
    }
    if pairs.len() == 1 {
        return 1 * 0x100000 + (pairs[0] as u32 + 2) * 0x10000 + k0 * 0x1000 + k1 * 0x100 + k2 * 0x10;
    }
    spread
}

/// Positions, among seven cards, of the `k`-th five-card combination in
/// lexicographic order (`0 <= k < 21`).
pub open spec fn combo(k: int) -> Seq<int> {
    seq![
        seq![0, 1, 2, 3, 4],
        seq![0, 1, 2, 3, 5],
        seq![0, 1, 2, 3, 6],
        seq![0, 1, 2, 4, 5],
        seq![0, 1, 2, 4, 6],
        seq![0, 1, 2, 5, 6],
        seq![0, 1, 3, 4, 5],
        seq![0, 1, 3, 4, 6],
        seq![0, 1, 3, 5, 6],
        seq![0, 1, 4, 5, 6],
        seq![0, 2, 3, 4, 5],
        seq![0, 2, 3, 4, 6],
        seq![0, 2, 3, 5, 6],
        seq![0, 2, 4, 5, 6],
        seq![0, 3, 4, 5, 6],
        seq![1, 2, 3, 4, 5],
        seq![1, 2, 3, 4, 6],
        seq![1, 2, 3, 5, 6],
        seq![1, 2, 4, 5, 6],
        seq![1, 3, 4, 5, 6],
        seq![2, 3, 4, 5, 6],
    ][k]
}

/// The cards at the `k`-th combination's positions.
pub open spec fn pick(all: Seq<u8>, k: int) -> Seq<u8> {
    let ix = combo(k);
    seq![all[ix[0]], all[ix[1]], all[ix[2]], all[ix[3]], all[ix[4]]]
}

/// Best hand and score among the first `n` combinations; an earlier
/// combination wins a tie, and nothing beats a score of 0.
pub open spec fn best_among(all: Seq<u8>, n: int) -> (Seq<u8>, int)
    decreases n,
{
    if n <= 0 {
        (seq![0u8, 0, 0, 0, 0], 0)
    } else {
        let prev = best_among(all, n - 1);
        let s = hand_score(pick(all, n - 1));
        if s > prev.1 {
            (pick(all, n - 1), s)
        } else {
            prev
        }
    }
}

/// The seven cards of a player: two hole cards, then five community cards.
pub open spec fn seven(hole: Seq<u8>, community: Seq<u8>) -> Seq<u8> {
    hole + community
}

fn combo_positions(k: usize) -> (ix: [usize; 5])
    requires
        k < 21,
    ensures
        forall|i: int| 0 <= i < 5 ==> #[trigger] ix@[i] as int == combo(k as int)[i] && ix@[i] < 7,
{
    match k {
        0 => [0, 1, 2, 3, 4],
        1 => [0, 1, 2, 3, 5],
        2 => [0, 1, 2, 3, 6],
        3 => [0, 1, 2, 4, 5],
        4 => [0, 1, 2, 4, 6],
        5 => [0, 1, 2, 5, 6],
        6 => [0, 1, 3, 4, 5],
        7 => [0, 1, 3, 4, 6],
        8 => [0, 1, 3, 5, 6],
        9 => [0, 1, 4, 5, 6],
        10 => [0, 2, 3, 4, 5],
        11 => [0, 2, 3, 4, 6],
        12 => [0, 2, 3, 5, 6],
        13 => [0, 2, 4, 5, 6],
        14 => [0, 3, 4, 5, 6],
        15 => [1, 2, 3, 4, 5],
        16 => [1, 2, 3, 4, 6],
        17 => [1, 2, 3, 5, 6],
        18 => [1, 2, 4, 5, 6],
        19 => [1, 3, 4, 5, 6],
        _ => [2, 3, 4, 5, 6],
    }
}

proof fn lemma_best_among(all: Seq<u8>, n: int)
    requires
        0 <= n,
    ensures
        forall|k: int| 0 <= k < n ==> hand_score(#[trigger] pick(all, k)) <= best_among(all, n).1,
        best_among(all, n).1 >= 0,
    decreases n,
{
    if n > 0 {
        lemma_best_among(all, n - 1);
    }
}

/// The best five-card hand out of two hole cards and five community cards,
/// with its score. Of equally scored hands the first combination in
/// lexicographic order of positions is returned.
pub fn find_best_hand(hole_cards: &[u8; 2], community_cards: &[u8; 5]) -> (r: ([u8; 5], u32))
    ensures
        r.0@ == best_among(seven(hole_cards@, community_cards@), 21).0,
        r.1 == best_among(seven(hole_cards@, community_cards@), 21).1,
        forall|k: int|
            0 <= k < 21 ==> hand_score(#[trigger] pick(seven(hole_cards@, community_cards@), k))
                <= r.1,
{
    let ghost all = seven(hole_cards@, community_cards@);
    let mut cards: Vec<u8> = Vec::new();
    cards.push(hole_cards[0]);
    cards.push(hole_cards[1]);
    let mut i: usize = 0;
    while i < 5
        invariant
            i <= 5,
            cards@ == hole_cards@ + community_cards@.subrange(0, i as int),
        decreases 5 - i,
    {
        cards.push(community_cards[i]);
        i = i + 1;
        assert(cards@ =~= hole_cards@ + community_cards@.subrange(0, i as int));
    }
    assert(cards@ =~= all);
    let mut best_hand: [u8; 5] = [0, 0, 0, 0, 0];
    let mut best_score: u32 = 0;
    let mut k: usize = 0;
    while k < 21
        invariant
            k <= 21,
            cards@ == all,
            all.len() == 7,
            best_hand@ == best_among(all, k as int).0,
            best_score == best_among(all, k as int).1,
        decreases 21 - k,
    {
        let ix = combo_positions(k);
        let hand: [u8; 5] = [cards[ix[0]], cards[ix[1]], cards[ix[2]], cards[ix[3]], cards[ix[4]]];
        assert(hand@ =~= pick(all, k as int));
        let score = evaluate_hand(&hand);
        if score > best_score {
            best_score = score;
            best_hand = hand;
        }
        k = k + 1;
    }
    proof {
        lemma_best_among(all, 21);
    }
    (best_hand, best_score)
}

} // verus!
