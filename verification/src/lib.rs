//! Monte Carlo estimation of the win/tie/loss distribution of a simplified
//! blackjack variant in which both the player and the dealer follow a fixed
//! "stand on a threshold" policy.
//!
//! The crate is organised leaves first: `shoe` holds the multi-deck card pool
//! and its reset/shuffle operations, `hand` evaluates hand totals and the
//! soft-ace downgrade, `trial` plays one deal-deal-resolve cycle against an
//! exact functional model of the dealing loops, `tally` accumulates and
//! combines (wins, ties, losses) triples, and `sim` runs a worker's batch of
//! trials over its own shoe. Thread fan-out and reporting are left to the
//! binary around the library.

pub mod hand;
pub mod rng;
pub mod shoe;
pub mod sim;
pub mod tally;
pub mod trial;
