//! Hand evaluation: the point total of a hand and the soft-ace downgrade
//! that converts the first ace from 11 to 1 when a hand would bust.

use vstd::prelude::*;

verus! {

/// The arithmetic sum of the ranks in `s`.
pub open spec fn seq_sum(s: Seq<u32>) -> int
    decreases s.len(),
{
    if s.len() == 0 {
        0
    } else {
        seq_sum(s.drop_last()) + s.last()
    }
}

pub proof fn lemma_seq_sum_nonneg(s: Seq<u32>)
    ensures
        seq_sum(s) >= 0,
    decreases s.len(),
{
    if s.len() > 0 {
        lemma_seq_sum_nonneg(s.drop_last());
    }
}

pub proof fn lemma_seq_sum_push(s: Seq<u32>, c: u32)
    ensures
        seq_sum(s.push(c)) == seq_sum(s) + c,
{
    assert(s.push(c).drop_last() =~= s);
    assert(s.push(c).last() == c);
}

proof fn lemma_seq_sum_take_step(s: Seq<u32>, i: int)
    requires
        0 <= i < s.len(),
    ensures
        seq_sum(s.take(i + 1)) == seq_sum(s.take(i)) + s[i],
{
    assert(s.take(i + 1).drop_last() =~= s.take(i));
    assert(s.take(i + 1).last() == s[i]);
}

proof fn lemma_seq_sum_take_bound(s: Seq<u32>, i: int)
    requires
        0 <= i <= s.len(),
    ensures
        seq_sum(s.take(i)) <= seq_sum(s),
    decreases s.len() - i,
{
    if i == s.len() {
        assert(s.take(i) =~= s);
    } else {
        lemma_seq_sum_take_step(s, i);
        lemma_seq_sum_take_bound(s, i + 1);
    }
}

/// The point total of a hand: the arithmetic sum of all its ranks.
pub fn sum(deck: &Vec<u32>) -> (total: u32)
    requires
        seq_sum(deck@) <= u32::MAX,
    ensures
        total == seq_sum(deck@),
{
    let mut total: u32 = 0;
    let mut i: usize = 0;
    while i < deck.len()
        invariant
            i <= deck@.len(),
            total == seq_sum(deck@.take(i as int)),
            seq_sum(deck@) <= u32::MAX,
        decreases deck@.len() - i,
    {
        proof {
            lemma_seq_sum_take_step(deck@, i as int);
            lemma_seq_sum_take_bound(deck@, i as int + 1);
            lemma_seq_sum_nonneg(deck@.take(i as int));
        }
        total = total + deck[i];
        i = i + 1;
    }
    proof {
        assert(deck@.take(deck@.len() as int) =~= deck@);
    }
    total
}

/// The hand holds at least one soft ace (a rank-11 card).
pub open spec fn has_ace(s: Seq<u32>) -> bool {
    exists|i: int| 0 <= i < s.len() && s[i] == 11
}

/// Index of the first rank-11 card, scanning in draw order. Meaningful only
/// when `has_ace(s)` holds.
pub open spec fn first_ace(s: Seq<u32>) -> int
    decreases s.len(),
{
    if s.len() == 0 {
        0
    } else if s[0] == 11 {
        0
    } else {
        1 + first_ace(s.subrange(1, s.len() as int))
    }
}

/// The hand after one soft-ace downgrade: the first rank-11 card becomes a
/// rank-1 card; a hand without an ace is unchanged.
pub open spec fn downgraded(s: Seq<u32>) -> Seq<u32> {
    if has_ace(s) {
        s.update(first_ace(s), 1u32)
    } else {
        s
    }
}

pub proof fn lemma_first_ace(s: Seq<u32>)
    requires
        has_ace(s),
    ensures
        0 <= first_ace(s) < s.len(),
        s[first_ace(s)] == 11,
        forall|k: int| 0 <= k < first_ace(s) ==> s[k] != 11,
    decreases s.len(),
{
    if s[0] != 11 {
        let t = s.subrange(1, s.len() as int);
        let i = choose|i: int| 0 <= i < s.len() && s[i] == 11;
        assert(t[i - 1] == 11);
        lemma_first_ace(t);
        assert(s[first_ace(s)] == t[first_ace(t)]);
        assert forall|k: int| 0 <= k < first_ace(s) implies s[k] != 11 by {
            if k > 0 {
                assert(s[k] == t[k - 1]);
            }
        }
    }
}

/// A scan that finds an 11 at index `i` with none before it has found the
/// first ace.
proof fn lemma_first_ace_at(s: Seq<u32>, i: int)
    requires
        0 <= i < s.len(),
        s[i] == 11,
        forall|k: int| 0 <= k < i ==> s[k] != 11,
    ensures
        has_ace(s),
        first_ace(s) == i,
    decreases s.len(),
{
    if i > 0 {
        let t = s.subrange(1, s.len() as int);
        assert(t[i - 1] == 11);
        assert forall|k: int| 0 <= k < i - 1 implies t[k] != 11 by {
            assert(t[k] == s[k + 1]);
        }
        lemma_first_ace_at(t, i - 1);
    }
}

proof fn lemma_seq_sum_update(s: Seq<u32>, i: int, v: u32)
    requires
        0 <= i < s.len(),
    ensures
        seq_sum(s.update(i, v)) == seq_sum(s) - s[i] + v,
    decreases s.len(),
{
    if i == s.len() - 1 {
        assert(s.update(i, v).drop_last() =~= s.drop_last());
        assert(s.update(i, v).last() == v);
    } else {
        assert(s.update(i, v).drop_last() =~= s.drop_last().update(i, v));
        assert(s.update(i, v).last() == s.last());
        lemma_seq_sum_update(s.drop_last(), i, v);
    }
}

/// One soft-ace downgrade lowers the total by exactly 10 when an ace is
/// present, and leaves the hand unchanged otherwise.
pub proof fn lemma_downgrade_total(s: Seq<u32>)
    ensures
        has_ace(s) ==> seq_sum(downgraded(s)) == seq_sum(s) - 10,
        !has_ace(s) ==> downgraded(s) == s,
{
    if has_ace(s) {
        lemma_first_ace(s);
        lemma_seq_sum_update(s, first_ace(s), 1);
    }
}

/// Converts the first rank-11 card of the hand to rank 1, scanning in draw
/// order; a no-op if the hand holds no ace.
pub fn downgrade_one_ace(hand: &mut Vec<u32>)
    ensures
        final(hand)@ == downgraded(old(hand)@),
{
    let mut i: usize = 0;
    while i < hand.len()
        invariant
            i <= hand@.len(),
            hand@ == old(hand)@,
            forall|k: int| 0 <= k < i ==> hand@[k] != 11,
        decreases hand@.len() - i,
    {
        if hand[i] == 11 {
            hand.set(i, 1);
            proof {
                lemma_first_ace_at(old(hand)@, i as int);
            }
            return ;
        }
        i = i + 1;
    }
}

} // verus!
