//! A worker's batch of trials: one private shoe and one private random
//! source, refilled and reshuffled above a low-water mark, with the running
//! tally accounting for every completed trial.

use crate::rng::new_rng;
use crate::shoe::{reset_deck, shuffle_deck, valid_shoe};
use crate::tally::{total_of, Tally};
use crate::trial::{cards_needed, lemma_trial_ok, play_trial, Outcome, SimError};
use vstd::prelude::*;

verus! {

/// The recognized simulation options: shoe size in decks and the two stand
/// thresholds. The player draws while the total is at or below
/// `player_stand`; the dealer draws while the total is below `dealer_stand`.
#[derive(Clone, Copy, PartialEq, Eq, Structural, Debug)]
pub struct Config {
    pub n_decks: u32,
    pub player_stand: u32,
    pub dealer_stand: u32,
}

impl Config {
    /// The bounds the machine forces: at least one deck, a shoe size that
    /// fits in memory, and stand thresholds that leave room for one more
    /// card in a 32-bit total.
    pub open spec fn wf(self) -> bool {
        &&& 1 <= self.n_decks <= 1_000_000
        &&& self.player_stand <= u32::MAX - 11
        &&& self.dealer_stand <= u32::MAX - 11
    }

    /// The shoe is refilled before a trial whenever fewer cards than this
    /// remain: one quarter of a full shoe.
    pub open spec fn low_water(self) -> int {
        13 * self.n_decks
    }
}

impl Default for Config {
    /// The canonical "mirror the dealer" policy: four decks, player stands
    /// above 16, dealer stands at 17.
    fn default() -> (c: Config)
        ensures
            c == (Config { n_decks: 4u32, player_stand: 16u32, dealer_stand: 17u32 }),
            c.wf(),
    {
        Config { n_decks: 4, player_stand: 16, dealer_stand: 17 }
    }
}

/// Runs `n_games` trials over a fresh private shoe and a fresh thread-local
/// random source. Every completed batch accounts for each trial exactly
/// once: wins, ties and losses sum to `n_games`. The batch fails only by
/// drawing from an empty shoe, which cannot happen when the low-water mark
/// covers one trial's worst-case consumption.
#[verifier::loop_isolation(false)]
pub fn simulate_games(n_games: u64, cfg: &Config) -> (r: Result<Tally, SimError>)
    requires
        cfg.wf(),
    ensures
        r is Ok ==> total_of(r->Ok_0) == n_games,
        cfg.low_water() >= cards_needed(cfg.player_stand as int, cfg.dealer_stand as int) ==> r
            is Ok,
        r is Err ==> r->Err_0 == SimError::ShoeEmpty,
{
    let mut deck: Vec<u32> = Vec::new();
    reset_deck(&mut deck, cfg.n_decks);
    let mut rng = new_rng();
    shuffle_deck(&mut deck, &mut rng);

    let mut tally = Tally { wins: 0, ties: 0, losses: 0 };
    let mut i: u64 = 0;
    while i < n_games
        invariant
            i <= n_games,
            tally.wins + tally.ties + tally.losses == i,
            valid_shoe(deck@),
        decreases n_games - i,
    {
        if deck.len() < 13 * (cfg.n_decks as usize) {
            reset_deck(&mut deck, cfg.n_decks);
            shuffle_deck(&mut deck, &mut rng);
        }
        proof {
            if cfg.low_water() >= cards_needed(cfg.player_stand as int, cfg.dealer_stand as int) {
                lemma_trial_ok(deck@, cfg.player_stand as int, cfg.dealer_stand as int);
            }
        }
        match play_trial(&mut deck, cfg.player_stand, cfg.dealer_stand) {
            Ok(o) => {
                match o {
                    Outcome::PlayerWin => {
                        tally.wins = tally.wins + 1;
                    },
                    Outcome::Tie => {
                        tally.ties = tally.ties + 1;
                    },
                    Outcome::DealerWin => {
                        tally.losses = tally.losses + 1;
                    },
                }
            },
            Err(e) => {
                return Err(e);
            },
        }
        i = i + 1;
    }
    Ok(tally)
}

} // verus!
