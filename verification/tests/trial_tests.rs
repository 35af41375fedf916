use blackjack_mc::trial::{play_trial, resolve, Outcome, SimError};

#[test]
fn resolve_both_bust_credits_player() {
    assert_eq!(resolve(22, 25), Outcome::PlayerWin);
    assert_eq!(resolve(30, 22), Outcome::PlayerWin);
    assert_eq!(resolve(22, 22), Outcome::PlayerWin);
}

#[test]
fn resolve_equal_totals_tie() {
    assert_eq!(resolve(17, 17), Outcome::Tie);
    assert_eq!(resolve(21, 21), Outcome::Tie);
    assert_eq!(resolve(2, 2), Outcome::Tie);
}

#[test]
fn resolve_player_bust_alone_loses() {
    assert_eq!(resolve(22, 17), Outcome::DealerWin);
    assert_eq!(resolve(25, 21), Outcome::DealerWin);
}

#[test]
fn resolve_higher_total_wins() {
    assert_eq!(resolve(20, 19), Outcome::PlayerWin);
    assert_eq!(resolve(18, 19), Outcome::DealerWin);
    assert_eq!(resolve(21, 17), Outcome::PlayerWin);
    assert_eq!(resolve(17, 21), Outcome::DealerWin);
}

// Cards are drawn from the tail of the vector: the last element is the
// first card dealt.

#[test]
fn scenario_stand_off_at_seventeen() {
    // Player draws 8 then 9 (17, stop); dealer draws 10 then 7 (17, stop).
    let mut deck: Vec<u32> = vec![7, 10, 9, 8];
    assert_eq!(play_trial(&mut deck, 16, 17), Ok(Outcome::Tie));
    assert!(deck.is_empty());
}

#[test]
fn scenario_dealer_downgrades_after_stopping() {
    // Player draws 6, 5, 10 (21, stop). Dealer draws 11 (11), 5 (16),
    // 6 (22, stop): the post-stop downgrade converts the ace, leaving the
    // dealer at 12 with the rest of the shoe untouched.
    let mut deck: Vec<u32> = vec![10, 6, 5, 11, 10, 5, 6];
    assert_eq!(play_trial(&mut deck, 16, 17), Ok(Outcome::PlayerWin));
    assert_eq!(deck, vec![10]);
}

#[test]
fn scenario_player_busts_without_ace() {
    // Player draws 2, 10, 10 (22, stop; no ace to downgrade). Dealer draws
    // 10, 10 (20, stop). Player bust alone: dealer wins.
    let mut deck: Vec<u32> = vec![10, 10, 10, 10, 2];
    assert_eq!(play_trial(&mut deck, 16, 17), Ok(Outcome::DealerWin));
    assert!(deck.is_empty());
}

#[test]
fn scenario_two_aces_single_downgrade() {
    // Player draws 11, 11 (22, stop), downgrades one ace: 12. Dealer draws
    // 10, 10 (20, stop). Dealer wins on the higher total.
    let mut deck: Vec<u32> = vec![10, 10, 11, 11];
    assert_eq!(play_trial(&mut deck, 16, 17), Ok(Outcome::DealerWin));
    assert!(deck.is_empty());
}

#[test]
fn empty_shoe_fails_the_trial() {
    let mut deck: Vec<u32> = Vec::new();
    assert_eq!(play_trial(&mut deck, 16, 17), Err(SimError::ShoeEmpty));
}

#[test]
fn shoe_exhausted_mid_deal_fails_the_trial() {
    // Player draws 5, 4 (9) and the shoe runs out below the stand mark.
    let mut deck: Vec<u32> = vec![4, 5];
    assert_eq!(play_trial(&mut deck, 16, 17), Err(SimError::ShoeEmpty));
    assert!(deck.is_empty());
}

#[test]
fn deterministic_batch_reproduces_golden_tally() {
    // Ten trials over a fixed shoe order, one worker, no reshuffle: the
    // exact (wins, ties, losses) triple is reproducible.
    // Per-trial draw orders (first card first):
    //   tie:        8, 9 | 10, 7
    //   dealer win: 2, 10, 10 | 10, 10
    //   player win: 8, 9 | 10, 6, 10 (dealer busts at 26)
    let tie_seg: [u32; 4] = [7, 10, 9, 8];
    let dealer_seg: [u32; 5] = [10, 10, 10, 10, 2];
    let player_seg: [u32; 5] = [10, 6, 10, 9, 8];
    let order: [u32; 10] = [0, 1, 2, 0, 1, 2, 0, 1, 2, 0];

    let mut deck: Vec<u32> = Vec::new();
    for kind in order.iter().rev() {
        match kind {
            0 => deck.extend_from_slice(&tie_seg),
            1 => deck.extend_from_slice(&dealer_seg),
            _ => deck.extend_from_slice(&player_seg),
        }
    }

    let mut wins = 0u64;
    let mut ties = 0u64;
    let mut losses = 0u64;
    for _ in 0..10 {
        match play_trial(&mut deck, 16, 17) {
            Ok(Outcome::PlayerWin) => wins += 1,
            Ok(Outcome::Tie) => ties += 1,
            Ok(Outcome::DealerWin) => losses += 1,
            Err(e) => panic!("unexpected error: {:?}", e),
        }
    }
    assert_eq!((wins, ties, losses), (3, 4, 3));
    assert!(deck.is_empty());
}
