//! One trial: deal the player hand to policy, deal the dealer hand to
//! policy, apply at most one soft-ace downgrade per hand, and resolve the
//! comparison. The dealing loops are modelled by an exact functional
//! specification, so the outcome of a trial is pinned down by the shoe's
//! contents alone.

use crate::hand::{
    downgrade_one_ace, downgraded, lemma_downgrade_total, lemma_seq_sum_push, seq_sum, sum,
};
use crate::shoe::{valid_rank, valid_shoe};
use vstd::prelude::*;

verus! {

/// The three disjoint results of a trial.
#[derive(Clone, Copy, PartialEq, Eq, Structural, Debug)]
pub enum Outcome {
    PlayerWin,
    Tie,
    DealerWin,
}

/// The error kinds a worker can hit: a draw from an empty shoe means the
/// refill invariant was violated.
#[derive(Clone, Copy, PartialEq, Eq, Structural, Debug)]
pub enum SimError {
    ShoeEmpty,
}

/// Classifies final totals `p` (player) and `d` (dealer), in precedence
/// order: a dealer bust is checked before a player bust, so when both bust
/// the player wins.
pub open spec fn spec_resolve(p: int, d: int) -> Outcome {
    if d > 21 {
        Outcome::PlayerWin
    } else if p == d {
        Outcome::Tie
    } else if p > 21 {
        Outcome::DealerWin
    } else if p > d {
        Outcome::PlayerWin
    } else {
        Outcome::DealerWin
    }
}

/// Executable resolution of a trial from the two final hand totals.
pub fn resolve(p: u32, d: u32) -> (r: Outcome)
    ensures
        r == spec_resolve(p as int, d as int),
{
    if d > 21 {
        Outcome::PlayerWin
    } else if p == d {
        Outcome::Tie
    } else if p > 21 {
        Outcome::DealerWin
    } else if p > d {
        Outcome::PlayerWin
    } else {
        Outcome::DealerWin
    }
}

/// Resolution is a total function: any pair of reachable totals is
/// classified, and as exactly one of the three outcomes.
pub proof fn lemma_resolution_total(p: int, d: int)
    requires
        p >= 2,
        d >= 2,
    ensures
        spec_resolve(p, d) is PlayerWin || spec_resolve(p, d) is Tie || spec_resolve(p, d)
            is DealerWin,
        !(spec_resolve(p, d) is PlayerWin && spec_resolve(p, d) is Tie),
        !(spec_resolve(p, d) is PlayerWin && spec_resolve(p, d) is DealerWin),
        !(spec_resolve(p, d) is Tie && spec_resolve(p, d) is DealerWin),
{
}

/// When both hands bust, the dealer's bust is checked first, so the player
/// wins.
pub proof fn lemma_both_bust_player_wins(p: int, d: int)
    requires
        p > 21,
        d > 21,
    ensures
        spec_resolve(p, d) == Outcome::PlayerWin,
{
}

/// Equal totals at or below 21 are a tie.
pub proof fn lemma_equal_totals_tie(p: int, d: int)
    requires
        p == d,
        p <= 21,
    ensures
        spec_resolve(p, d) == Outcome::Tie,
{
}

/// Draws cards from the tail of `shoe` onto `hand` until the hand total
/// reaches `stop`, or the shoe runs out. Returns the remaining shoe and the
/// grown hand.
pub open spec fn deal(shoe: Seq<u32>, hand: Seq<u32>, stop: int) -> (Seq<u32>, Seq<u32>)
    decreases shoe.len(),
{
    if seq_sum(hand) >= stop {
        (shoe, hand)
    } else if shoe.len() == 0 {
        (shoe, hand)
    } else {
        deal(shoe.drop_last(), hand.push(shoe.last()), stop)
    }
}

/// The player hand before any downgrade, and the shoe it leaves behind.
/// The player stops once the total exceeds `t_p`, so the stop threshold is
/// `t_p + 1`.
pub open spec fn raw_player(shoe: Seq<u32>, t_p: int) -> (Seq<u32>, Seq<u32>) {
    deal(shoe, Seq::empty(), t_p + 1)
}

/// The dealer hand before any downgrade, dealt from what the player left.
/// The dealer stops once the total reaches `t_d`.
pub open spec fn raw_dealer(shoe: Seq<u32>, t_p: int, t_d: int) -> (Seq<u32>, Seq<u32>) {
    deal(raw_player(shoe, t_p).0, Seq::empty(), t_d)
}

/// A dealt hand after its post-stop check: one soft-ace downgrade when the
/// total busts, otherwise unchanged.
pub open spec fn adjusted(h: Seq<u32>) -> Seq<u32> {
    if seq_sum(h) > 21 {
        downgraded(h)
    } else {
        h
    }
}

/// Both deal phases reached their stop thresholds before the shoe ran out.
pub open spec fn trial_ok(shoe: Seq<u32>, t_p: int, t_d: int) -> bool {
    seq_sum(raw_player(shoe, t_p).1) >= t_p + 1 && seq_sum(raw_dealer(shoe, t_p, t_d).1) >= t_d
}

/// The outcome of a completed trial on `shoe`.
pub open spec fn trial_outcome(shoe: Seq<u32>, t_p: int, t_d: int) -> Outcome {
    spec_resolve(
        seq_sum(adjusted(raw_player(shoe, t_p).1)),
        seq_sum(adjusted(raw_dealer(shoe, t_p, t_d).1)),
    )
}

/// The shoe left after a completed trial on `shoe`.
pub open spec fn trial_rest(shoe: Seq<u32>, t_p: int, t_d: int) -> Seq<u32> {
    raw_dealer(shoe, t_p, t_d).0
}

/// Cards certain to suffice for one trial: every card is worth at least 2,
/// so the player consumes at most `t_p / 2 + 1` cards and the dealer at
/// most `(t_d + 1) / 2`.
pub open spec fn cards_needed(t_p: int, t_d: int) -> int {
    t_p / 2 + 1 + (t_d + 1) / 2
}

/// Structural facts about one deal phase on a shoe of valid ranks: the
/// remaining shoe is a prefix of the original; the phase completes whenever
/// twice the shoe size covers the distance to the stop threshold; and each
/// consumed card was worth at least 2 towards that distance.
proof fn lemma_deal_props(shoe: Seq<u32>, hand: Seq<u32>, stop: int)
    requires
        valid_shoe(shoe),
    ensures
        deal(shoe, hand, stop).0 == shoe.take(deal(shoe, hand, stop).0.len() as int),
        deal(shoe, hand, stop).0.len() <= shoe.len(),
        2 * shoe.len() + seq_sum(hand) >= stop ==> seq_sum(deal(shoe, hand, stop).1) >= stop,
        seq_sum(hand) < stop ==> 2 * (shoe.len() - deal(shoe, hand, stop).0.len()) <= stop + 1
            - seq_sum(hand),
        seq_sum(hand) >= stop ==> deal(shoe, hand, stop).0 == shoe,
    decreases shoe.len(),
{
    if seq_sum(hand) >= stop {
        assert(shoe.take(shoe.len() as int) =~= shoe);
    } else if shoe.len() == 0 {
        assert(shoe.take(shoe.len() as int) =~= shoe);
    } else {
        let c = shoe.last();
        let shoe1 = shoe.drop_last();
        let hand1 = hand.push(c);
        lemma_seq_sum_push(hand, c);
        assert(valid_rank(c));
        lemma_deal_props(shoe1, hand1, stop);
        let r0 = deal(shoe, hand, stop).0;
        assert(r0 == deal(shoe1, hand1, stop).0);
        assert(r0 == shoe1.take(r0.len() as int));
        assert(shoe.take(r0.len() as int) =~= shoe1.take(r0.len() as int));
    }
}

/// A shoe of valid ranks with at least `cards_needed` cards completes both
/// deal phases of a trial.
pub proof fn lemma_trial_ok(shoe: Seq<u32>, t_p: int, t_d: int)
    requires
        valid_shoe(shoe),
        t_p >= 0,
        t_d >= 0,
        shoe.len() >= cards_needed(t_p, t_d),
    ensures
        trial_ok(shoe, t_p, t_d),
{
    lemma_deal_props(shoe, Seq::empty(), t_p + 1);
    let s1 = raw_player(shoe, t_p).0;
    assert(valid_shoe(s1)) by {
        assert forall|i: int| 0 <= i < s1.len() implies valid_rank(s1[i]) by {
            assert(s1[i] == shoe[i]);
        }
    }
    lemma_deal_props(s1, Seq::empty(), t_d);
}

/// Plays one trial on the shoe, drawing from the tail: deal the player to
/// policy, deal the dealer to policy, downgrade each busting hand once, and
/// resolve. Fails with `ShoeEmpty`, leaving the shoe drained, exactly when
/// the shoe runs out mid-deal.
#[verifier::loop_isolation(false)]
pub fn play_trial(deck: &mut Vec<u32>, p_stand: u32, d_stand: u32) -> (r: Result<
    Outcome,
    SimError,
>)
    requires
        valid_shoe(old(deck)@),
        p_stand <= u32::MAX - 11,
        d_stand <= u32::MAX - 11,
    ensures
        r is Ok <==> trial_ok(old(deck)@, p_stand as int, d_stand as int),
        r is Ok ==> r->Ok_0 == trial_outcome(old(deck)@, p_stand as int, d_stand as int)
            && final(deck)@ == trial_rest(old(deck)@, p_stand as int, d_stand as int),
        r is Err ==> r->Err_0 == SimError::ShoeEmpty && final(deck)@.len() == 0,
        valid_shoe(final(deck)@),
{
    let ghost shoe0 = deck@;
    let ghost p_stop = p_stand as int + 1;

    // Player deal phase.
    let mut p_hand: Vec<u32> = Vec::new();
    let mut p_sum: u32 = 0;
    while p_sum <= p_stand
        invariant
            valid_shoe(deck@),
            p_sum == seq_sum(p_hand@),
            deal(shoe0, Seq::empty(), p_stop) == deal(deck@, p_hand@, p_stop),
        decreases deck@.len(),
    {
        let ghost deck_pre = deck@;
        let ghost hand_pre = p_hand@;
        match deck.pop() {
            None => {
                proof {
                    assert(deal(deck_pre, hand_pre, p_stop) == (deck_pre, hand_pre));
                }
                return Err(SimError::ShoeEmpty);
            },
            Some(c) => {
                p_hand.push(c);
                proof {
                    assert(deck@ =~= deck_pre.drop_last());
                    assert(c == deck_pre.last());
                    lemma_seq_sum_push(hand_pre, c);
                    assert(deal(deck_pre, hand_pre, p_stop) == deal(
                        deck_pre.drop_last(),
                        hand_pre.push(c),
                        p_stop,
                    ));
                }
                p_sum = p_sum + c;
            },
        }
    }
    proof {
        assert(deal(deck@, p_hand@, p_stop) == (deck@, p_hand@));
    }
    let ghost p_raw = p_hand@;

    // Post-stop check: one soft-ace downgrade when the player busts.
    if p_sum > 21 {
        proof {
            lemma_downgrade_total(p_raw);
        }
        downgrade_one_ace(&mut p_hand);
        p_sum = sum(&p_hand);
    }

    // Dealer deal phase, from what the player left.
    let ghost shoe1 = deck@;
    let ghost d_stop = d_stand as int;
    let mut d_hand: Vec<u32> = Vec::new();
    let mut d_sum: u32 = 0;
    while d_sum < d_stand
        invariant
            valid_shoe(deck@),
            d_sum == seq_sum(d_hand@),
            deal(shoe1, Seq::empty(), d_stop) == deal(deck@, d_hand@, d_stop),
        decreases deck@.len(),
    {
        let ghost deck_pre = deck@;
        let ghost hand_pre = d_hand@;
        match deck.pop() {
            None => {
                proof {
                    assert(deal(deck_pre, hand_pre, d_stop) == (deck_pre, hand_pre));
                }
                return Err(SimError::ShoeEmpty);
            },
            Some(c) => {
                d_hand.push(c);
                proof {
                    assert(deck@ =~= deck_pre.drop_last());
                    assert(c == deck_pre.last());
                    lemma_seq_sum_push(hand_pre, c);
                    assert(deal(deck_pre, hand_pre, d_stop) == deal(
                        deck_pre.drop_last(),
                        hand_pre.push(c),
                        d_stop,
                    ));
                }
                d_sum = d_sum + c;
            },
        }
    }
    proof {
        assert(deal(deck@, d_hand@, d_stop) == (deck@, d_hand@));
    }
    let ghost d_raw = d_hand@;

    // Post-stop check for the dealer.
    if d_sum > 21 {
        proof {
            lemma_downgrade_total(d_raw);
        }
        downgrade_one_ace(&mut d_hand);
        d_sum = sum(&d_hand);
    }

    Ok(resolve(p_sum, d_sum))
}

} // verus!
