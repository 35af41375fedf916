use blackjack_mc::tally::{combine, combine_all, trials_per_worker, Tally};

#[test]
fn combine_adds_componentwise() {
    let a = Tally { wins: 3, ties: 1, losses: 6 };
    let b = Tally { wins: 10, ties: 20, losses: 30 };
    let c = combine(&a, &b);
    assert_eq!(c, Tally { wins: 13, ties: 21, losses: 36 });
}

#[test]
fn combine_is_commutative() {
    let a = Tally { wins: 41, ties: 9, losses: 50 };
    let b = Tally { wins: 7, ties: 0, losses: 3 };
    assert_eq!(combine(&a, &b), combine(&b, &a));
}

#[test]
fn combine_is_associative() {
    let a = Tally { wins: 1, ties: 2, losses: 3 };
    let b = Tally { wins: 40, ties: 50, losses: 60 };
    let c = Tally { wins: 700, ties: 800, losses: 900 };
    let left = combine(&combine(&a, &b), &c);
    let right = combine(&a, &combine(&b, &c));
    assert_eq!(left, right);
}

#[test]
fn combine_all_sums_worker_tallies() {
    let workers = vec![
        Tally { wins: 100, ties: 20, losses: 130 },
        Tally { wins: 90, ties: 25, losses: 135 },
        Tally { wins: 110, ties: 15, losses: 125 },
    ];
    let total = combine_all(&workers).unwrap();
    assert_eq!(total, Tally { wins: 300, ties: 60, losses: 390 });
}

#[test]
fn combine_all_of_nothing_is_zero() {
    let total = combine_all(&Vec::new()).unwrap();
    assert_eq!(total, Tally { wins: 0, ties: 0, losses: 0 });
}

#[test]
fn combine_all_reports_overflow() {
    let workers = vec![
        Tally { wins: u64::MAX, ties: 0, losses: 0 },
        Tally { wins: 1, ties: 0, losses: 0 },
    ];
    assert_eq!(combine_all(&workers), None);
}

#[test]
fn partition_drops_the_remainder() {
    assert_eq!(trials_per_worker(10, 3), 3);
    assert_eq!(trials_per_worker(10_000_000, 10), 1_000_000);
    assert_eq!(trials_per_worker(7, 10), 0);
}
