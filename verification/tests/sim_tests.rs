use blackjack_mc::sim::{simulate_games, Config};
use blackjack_mc::tally::{combine_all, Tally};

#[test]
fn default_config_is_mirror_the_dealer() {
    let cfg = Config::default();
    assert_eq!(cfg.n_decks, 4);
    assert_eq!(cfg.player_stand, 16);
    assert_eq!(cfg.dealer_stand, 17);
}

#[test]
fn tally_accounts_for_every_trial() {
    let cfg = Config::default();
    let t = simulate_games(1000, &cfg).unwrap();
    assert_eq!(t.wins + t.ties + t.losses, 1000);
}

#[test]
fn zero_trials_give_zero_tally() {
    let cfg = Config::default();
    let t = simulate_games(0, &cfg).unwrap();
    assert_eq!(t, Tally { wins: 0, ties: 0, losses: 0 });
}

#[test]
fn two_deck_shoe_completes_every_trial() {
    let cfg = Config { n_decks: 2, player_stand: 16, dealer_stand: 17 };
    let t = simulate_games(500, &cfg).unwrap();
    assert_eq!(t.wins + t.ties + t.losses, 500);
}

#[test]
fn alternate_thresholds_account_for_every_trial() {
    let cfg = Config { n_decks: 4, player_stand: 17, dealer_stand: 17 };
    let t = simulate_games(300, &cfg).unwrap();
    assert_eq!(t.wins + t.ties + t.losses, 300);
}

#[test]
fn smoke_distribution_mirror_the_dealer() {
    // Empirical rates for the default policy. Both sides stand at 17, so
    // the distribution is symmetric except that a double bust (about 7.4%
    // of trials) is credited to the player: roughly 48.2% player wins,
    // 9.6% ties, 42.2% dealer wins. A loose band keeps the Monte Carlo
    // noise of a million trials from flaking the test.
    let cfg = Config::default();
    let mut workers: Vec<Tally> = Vec::new();
    for _ in 0..4 {
        workers.push(simulate_games(250_000, &cfg).unwrap());
    }
    let total = combine_all(&workers).unwrap();
    let n = (total.wins + total.ties + total.losses) as f64;
    assert_eq!(n as u64, 1_000_000);
    let win_rate = total.wins as f64 / n * 100.0;
    let tie_rate = total.ties as f64 / n * 100.0;
    let loss_rate = total.losses as f64 / n * 100.0;
    assert!((win_rate - 48.2).abs() < 0.6, "win rate {}", win_rate);
    assert!((tie_rate - 9.6).abs() < 0.6, "tie rate {}", tie_rate);
    assert!((loss_rate - 42.2).abs() < 0.6, "loss rate {}", loss_rate);
}
