//! Tallies: (wins, ties, losses) triples accumulated per worker and summed
//! componentwise by the driver.

use vstd::prelude::*;

verus! {

/// Counts of player wins, ties and dealer wins over a batch of trials.
#[derive(Clone, Copy, PartialEq, Eq, Structural, Debug)]
pub struct Tally {
    pub wins: u64,
    pub ties: u64,
    pub losses: u64,
}

/// The number of trials a tally accounts for.
pub open spec fn total_of(t: Tally) -> int {
    t.wins + t.ties + t.losses
}

/// Componentwise sum of two tallies.
pub open spec fn spec_combine(a: Tally, b: Tally) -> Tally {
    Tally {
        wins: (a.wins + b.wins) as u64,
        ties: (a.ties + b.ties) as u64,
        losses: (a.losses + b.losses) as u64,
    }
}

/// Adds two tallies componentwise.
pub fn combine(a: &Tally, b: &Tally) -> (c: Tally)
    requires
        total_of(*a) + total_of(*b) <= u64::MAX,
    ensures
        c == spec_combine(*a, *b),
        c.wins == a.wins + b.wins,
        c.ties == a.ties + b.ties,
        c.losses == a.losses + b.losses,
        total_of(c) == total_of(*a) + total_of(*b),
{
    Tally { wins: a.wins + b.wins, ties: a.ties + b.ties, losses: a.losses + b.losses }
}

/// Combining tallies is commutative.
pub proof fn lemma_combine_commutative(a: Tally, b: Tally)
    ensures
        spec_combine(a, b) == spec_combine(b, a),
{
}

/// Combining tallies is associative, within the range the counters can
/// carry.
pub proof fn lemma_combine_associative(a: Tally, b: Tally, c: Tally)
    requires
        total_of(a) + total_of(b) + total_of(c) <= u64::MAX,
    ensures
        spec_combine(spec_combine(a, b), c) == spec_combine(a, spec_combine(b, c)),
{
}

/// Sum of the `wins` fields of a sequence of tallies.
pub open spec fn sum_wins(s: Seq<Tally>) -> int
    decreases s.len(),
{
    if s.len() == 0 {
        0
    } else {
        sum_wins(s.drop_last()) + s.last().wins
    }
}

/// Sum of the `ties` fields of a sequence of tallies.
pub open spec fn sum_ties(s: Seq<Tally>) -> int
    decreases s.len(),
{
    if s.len() == 0 {
        0
    } else {
        sum_ties(s.drop_last()) + s.last().ties
    }
}

/// Sum of the `losses` fields of a sequence of tallies.
pub open spec fn sum_losses(s: Seq<Tally>) -> int
    decreases s.len(),
{
    if s.len() == 0 {
        0
    } else {
        sum_losses(s.drop_last()) + s.last().losses
    }
}

proof fn lemma_sums_take_step(s: Seq<Tally>, i: int)
    requires
        0 <= i < s.len(),
    ensures
        sum_wins(s.take(i + 1)) == sum_wins(s.take(i)) + s[i].wins,
        sum_ties(s.take(i + 1)) == sum_ties(s.take(i)) + s[i].ties,
        sum_losses(s.take(i + 1)) == sum_losses(s.take(i)) + s[i].losses,
{
    assert(s.take(i + 1).drop_last() =~= s.take(i));
    assert(s.take(i + 1).last() == s[i]);
}

proof fn lemma_sums_take_bound(s: Seq<Tally>, i: int)
    requires
        0 <= i <= s.len(),
    ensures
        sum_wins(s.take(i)) <= sum_wins(s),
        sum_ties(s.take(i)) <= sum_ties(s),
        sum_losses(s.take(i)) <= sum_losses(s),
    decreases s.len() - i,
{
    if i == s.len() {
        assert(s.take(i) =~= s);
    } else {
        lemma_sums_take_step(s, i);
        lemma_sums_take_bound(s, i + 1);
    }
}

/// Sums a batch of worker tallies componentwise. Returns `None` exactly
/// when some component's sum does not fit in the counter; otherwise the
/// summed tally equals the componentwise sum of the worker tallies.
#[verifier::loop_isolation(false)]
pub fn combine_all(ts: &Vec<Tally>) -> (r: Option<Tally>)
    ensures
        r is Some <==> sum_wins(ts@) <= u64::MAX && sum_ties(ts@) <= u64::MAX && sum_losses(ts@)
            <= u64::MAX,
        r is Some ==> r->0.wins == sum_wins(ts@) && r->0.ties == sum_ties(ts@) && r->0.losses
            == sum_losses(ts@),
{
    let mut wins: u64 = 0;
    let mut ties: u64 = 0;
    let mut losses: u64 = 0;
    let mut i: usize = 0;
    while i < ts.len()
        invariant
            i <= ts@.len(),
            wins == sum_wins(ts@.take(i as int)),
            ties == sum_ties(ts@.take(i as int)),
            losses == sum_losses(ts@.take(i as int)),
        decreases ts@.len() - i,
    {
        let t = ts[i];
        proof {
            lemma_sums_take_step(ts@, i as int);
            lemma_sums_take_bound(ts@, i as int + 1);
        }
        if wins > u64::MAX - t.wins {
            return None;
        }
        if ties > u64::MAX - t.ties {
            return None;
        }
        if losses > u64::MAX - t.losses {
            return None;
        }
        wins = wins + t.wins;
        ties = ties + t.ties;
        losses = losses + t.losses;
        i = i + 1;
    }
    proof {
        assert(ts@.take(ts@.len() as int) =~= ts@);
    }
    Some(Tally { wins, ties, losses })
}

/// Static partition of a trial count over a worker count: each worker runs
/// the same share, and any remainder is dropped.
pub fn trials_per_worker(total: u64, workers: u64) -> (per: u64)
    requires
        workers >= 1,
    ensures
        per == total / workers,
        per * workers <= total,
{
    proof {
        vstd::arithmetic::div_mod::lemma_fundamental_div_mod(total as int, workers as int);
        vstd::arithmetic::mul::lemma_mul_is_commutative(
            total as int / workers as int,
            workers as int,
        );
    }
    total / workers
}

} // verus!
