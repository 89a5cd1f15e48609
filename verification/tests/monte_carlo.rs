use poker_trainer::poker::board::Board;
use poker_trainer::poker::cards::Card;
use poker_trainer::poker::equity::{nlhe_trial, run_nlhe_monte_carlo, run_plo_monte_carlo};
use rand::thread_rng;

fn c(rank: u8, suit: char) -> Card {
    Card { rank, suit }
}

#[test]
fn nlhe_tally_counts_every_iteration() {
    let mut rng = thread_rng();
    let board = Board::from_cards(vec![c(2, 'c'), c(7, 'd'), c(10, 'h')]);
    let (w, t, n) = run_nlhe_monte_carlo(&mut rng, [c(14, 'h'), c(14, 'd')], &board, 200);
    assert_eq!(n, 200);
    assert!(w + t <= n);
    // A pair of aces wins most showdowns.
    assert!(w > 100);
}

#[test]
fn plo_tally_counts_every_iteration() {
    let mut rng = thread_rng();
    let board = Board::new();
    let (w, t, n) = run_plo_monte_carlo(&mut rng, [c(14, 'h'), c(14, 'd'), c(13, 'h'), c(13, 'd')], &board, 50);
    assert_eq!(n, 50);
    assert!(w + t <= n);
}

#[test]
fn zero_iterations() {
    let mut rng = thread_rng();
    let board = Board::new();
    assert_eq!(run_nlhe_monte_carlo(&mut rng, [c(2, 'h'), c(7, 'd')], &board, 0), (0, 0, 0));
}

#[test]
fn a_full_board_trial_is_deterministic_for_the_hero() {
    let mut rng = thread_rng();
    let board = Board::from_cards(vec![c(12, 'h'), c(11, 'h'), c(10, 'h'), c(2, 'c'), c(3, 'd')]);
    let (hero, villain) = nlhe_trial(&mut rng, &[c(14, 'h'), c(13, 'h')], &board);
    assert_eq!(hero, 9362618);
    assert!(hero > villain);
}
