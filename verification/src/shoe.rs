//! The shoe: an ordered pool of card ranks drawn from the tail, refilled
//! from a fixed multi-deck composition and shuffled in place.

use crate::rng::rand_index;
use vstd::prelude::*;

verus! {

/// A card rank: 2-9 at face value, 10 for any ten-valued card, 11 for a
/// soft ace.
pub open spec fn valid_rank(c: u32) -> bool {
    2 <= c <= 11
}

/// Every card in the sequence is a valid rank.
pub open spec fn valid_shoe(s: Seq<u32>) -> bool {
    forall|i: int| 0 <= i < s.len() ==> valid_rank(#[trigger] s[i])
}

/// Number of occurrences of rank `r` in `s`.
pub open spec fn count_rank(s: Seq<u32>, r: u32) -> nat
    decreases s.len(),
{
    if s.len() == 0 {
        0
    } else {
        count_rank(s.drop_last(), r) + if s.last() == r {
            1nat
        } else {
            0nat
        }
    }
}

/// How many cards of rank `r` a full shoe of `d` decks holds: each deck
/// contributes four of each of 2..=9 and of the ace (11), and sixteen
/// ten-valued cards.
pub open spec fn shoe_count(d: nat, r: u32) -> nat {
    if r == 10 {
        16 * d
    } else if valid_rank(r) {
        4 * d
    } else {
        0
    }
}

proof fn lemma_count_push(s: Seq<u32>, c: u32, r: u32)
    ensures
        count_rank(s.push(c), r) == count_rank(s, r) + (if c == r {
            1nat
        } else {
            0nat
        }),
{
    assert(s.push(c).drop_last() =~= s);
    assert(s.push(c).last() == c);
}

proof fn lemma_count_update(s: Seq<u32>, i: int, v: u32, r: u32)
    requires
        0 <= i < s.len(),
    ensures
        count_rank(s.update(i, v), r) + (if s[i] == r {
            1nat
        } else {
            0nat
        }) == count_rank(s, r) + (if v == r {
            1nat
        } else {
            0nat
        }),
    decreases s.len(),
{
    if i == s.len() - 1 {
        assert(s.update(i, v).drop_last() =~= s.drop_last());
        assert(s.update(i, v).last() == v);
    } else {
        assert(s.update(i, v).drop_last() =~= s.drop_last().update(i, v));
        assert(s.update(i, v).last() == s.last());
        lemma_count_update(s.drop_last(), i, v, r);
    }
}

/// Appends `n` copies of rank `r` to the deck.
fn push_copies(deck: &mut Vec<u32>, r: u32, n: u32)
    ensures
        final(deck)@.len() == old(deck)@.len() + n,
        forall|q: u32|
            count_rank(final(deck)@, q) == count_rank(old(deck)@, q) + (if q == r {
                n as nat
            } else {
                0nat
            }),
        valid_shoe(old(deck)@) && valid_rank(r) ==> valid_shoe(final(deck)@),
{
    let ghost base = deck@;
    let mut k: u32 = 0;
    while k < n
        invariant
            k <= n,
            deck@.len() == base.len() + k,
            forall|q: u32|
                count_rank(deck@, q) == count_rank(base, q) + (if q == r {
                    k as nat
                } else {
                    0nat
                }),
            valid_shoe(base) && valid_rank(r) ==> valid_shoe(deck@),
        decreases n - k,
    {
        let ghost pre = deck@;
        deck.push(r);
        assert forall|q: u32|
            count_rank(deck@, q) == count_rank(base, q) + (if q == r {
                (k + 1) as nat
            } else {
                0nat
            }) by {
            lemma_count_push(pre, r, q);
        }
        k = k + 1;
    }
}

/// Appends one complete 52-card deck to the shoe.
fn push_one_deck(deck: &mut Vec<u32>)
    ensures
        final(deck)@.len() == old(deck)@.len() + 52,
        forall|q: u32|
            count_rank(final(deck)@, q) == count_rank(old(deck)@, q) + shoe_count(1, q),
        valid_shoe(old(deck)@) ==> valid_shoe(final(deck)@),
{
    push_copies(deck, 2, 4);
    push_copies(deck, 3, 4);
    push_copies(deck, 4, 4);
    push_copies(deck, 5, 4);
    push_copies(deck, 6, 4);
    push_copies(deck, 7, 4);
    push_copies(deck, 8, 4);
    push_copies(deck, 9, 4);
    push_copies(deck, 10, 16);
    push_copies(deck, 11, 4);
}

/// Empties the shoe and refills it with `n_decks` complete decks. The order
/// of the refilled cards is unspecified by the contract; only the length and
/// the per-rank composition are pinned down.
pub fn reset_deck(deck: &mut Vec<u32>, n_decks: u32)
    requires
        n_decks <= 1_000_000,
    ensures
        final(deck)@.len() == 52 * n_decks,
        forall|r: u32| count_rank(final(deck)@, r) == shoe_count(n_decks as nat, r),
        valid_shoe(final(deck)@),
{
    deck.clear();
    let mut k: u32 = 0;
    while k < n_decks
        invariant
            k <= n_decks,
            deck@.len() == 52 * k,
            forall|r: u32| count_rank(deck@, r) == shoe_count(k as nat, r),
            valid_shoe(deck@),
        decreases n_decks - k,
    {
        let ghost pre = deck@;
        push_one_deck(deck);
        assert forall|r: u32| count_rank(deck@, r) == shoe_count((k + 1) as nat, r) by {
            assert(count_rank(pre, r) == shoe_count(k as nat, r));
            assert(count_rank(deck@, r) == count_rank(pre, r) + shoe_count(1, r));
            assert(shoe_count(k as nat, r) + shoe_count(1, r) == shoe_count((k + 1) as nat, r));
        }
        k = k + 1;
    }
}

/// Permutes the shoe in place with a Fisher-Yates pass; the multiset of
/// cards is preserved exactly.
pub fn shuffle_deck(deck: &mut Vec<u32>, rng: &mut rand::rngs::ThreadRng)
    ensures
        final(deck)@.len() == old(deck)@.len(),
        forall|r: u32| count_rank(final(deck)@, r) == count_rank(old(deck)@, r),
        valid_shoe(old(deck)@) ==> valid_shoe(final(deck)@),
{
    let ghost orig = deck@;
    let mut i: usize = deck.len();
    while i > 1
        invariant
            i <= deck@.len(),
            deck@.len() == orig.len(),
            forall|r: u32| count_rank(deck@, r) == count_rank(orig, r),
            valid_shoe(orig) ==> valid_shoe(deck@),
        decreases i,
    {
        i = i - 1;
        let j = rand_index(rng, i + 1);
        let a = deck[i];
        let b = deck[j];
        let ghost pre = deck@;
        deck.set(i, b);
        deck.set(j, a);
        assert forall|r: u32| count_rank(deck@, r) == count_rank(orig, r) by {
            lemma_count_update(pre, i as int, b, r);
            lemma_count_update(pre.update(i as int, b), j as int, a, r);
            assert(pre.update(i as int, b)[j as int] == b);
        }
    }
}

} // verus!
