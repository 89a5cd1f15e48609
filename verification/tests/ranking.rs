use poker_trainer::poker::board::Board;
use poker_trainer::poker::cards::Card;
use poker_trainer::poker::ranking::{evaluate_5, evaluate_7, HandRank};
use poker_trainer::variants::{nlhe, plo};

fn c(rank: u8, suit: char) -> Card {
    Card { rank, suit }
}

#[test]
fn royal_flush() {
    let r = evaluate_5(&[c(14, 'h'), c(13, 'h'), c(12, 'h'), c(11, 'h'), c(10, 'h')]);
    assert_eq!(r, HandRank(9362618));
    assert_eq!(r.0 >> 20, 8);
}

#[test]
fn wheel_straight() {
    let r = evaluate_5(&[c(3, 'h'), c(14, 'd'), c(5, 'c'), c(2, 's'), c(4, 'h')]);
    assert_eq!(r, HandRank(5133362));
}

#[test]
fn full_house() {
    let r = evaluate_5(&[c(2, 'h'), c(13, 'd'), c(13, 'c'), c(2, 's'), c(13, 'h')]);
    assert_eq!(r, HandRank(7200034));
}

#[test]
fn other_categories() {
    assert_eq!(evaluate_5(&[c(9, 'h'), c(9, 'd'), c(3, 'c'), c(9, 's'), c(9, 'c')]), HandRank(7969171));
    assert_eq!(evaluate_5(&[c(12, 'h'), c(5, 'd'), c(12, 'c'), c(8, 's'), c(5, 'c')]), HandRank(2934869));
    assert_eq!(evaluate_5(&[c(7, 'h'), c(13, 'd'), c(7, 'c'), c(2, 's'), c(7, 's')]), HandRank(4028274));
    assert_eq!(evaluate_5(&[c(14, 'c'), c(11, 'c'), c(8, 'c'), c(6, 'c'), c(3, 'c')]), HandRank(6207587));
    assert_eq!(evaluate_5(&[c(14, 'c'), c(13, 'd'), c(10, 'c'), c(7, 'h'), c(2, 'c')]), HandRank(973426));
}

#[test]
fn order_does_not_matter() {
    let a = evaluate_5(&[c(12, 'h'), c(5, 'd'), c(12, 'c'), c(8, 's'), c(5, 'c')]);
    let b = evaluate_5(&[c(5, 'c'), c(8, 's'), c(12, 'c'), c(5, 'd'), c(12, 'h')]);
    assert_eq!(a, b);
}

#[test]
fn higher_category_wins() {
    let pair = evaluate_5(&[c(14, 'h'), c(14, 'd'), c(13, 'c'), c(12, 's'), c(11, 'c')]);
    let two_pair = evaluate_5(&[c(2, 'h'), c(2, 'd'), c(3, 'c'), c(3, 's'), c(4, 'c')]);
    assert!(two_pair > pair);
}

#[test]
fn seven_cards_take_the_best_five() {
    let r = evaluate_7(&[c(2, 'c'), c(14, 'h'), c(3, 'd'), c(13, 'h'), c(12, 'h'), c(11, 'h'), c(10, 'h')]);
    assert_eq!(r, HandRank(9362618));
}

#[test]
fn holdem_short_board_uses_blank_cards() {
    let board = Board { cards: vec![c(2, 'c'), c(7, 'd'), c(10, 'h')] };
    // The two blank cards (rank 0) make a pair of zeros.
    let r = nlhe::evaluate_hand(&[c(14, 'h'), c(13, 'h')], &board);
    assert_eq!(r, HandRank(2021888));
}

#[test]
fn holdem_full_board() {
    let board = Board { cards: vec![c(12, 'h'), c(11, 'h'), c(10, 'h'), c(2, 'c'), c(3, 'd')] };
    let r = nlhe::evaluate_hand(&[c(14, 'h'), c(13, 'h')], &board);
    assert_eq!(r, HandRank(9362618));
}

#[test]
fn omaha_uses_exactly_two_hole_cards() {
    // Four hearts in hand and a board with one heart: no flush is possible.
    let board = Board { cards: vec![c(2, 'h'), c(7, 'c'), c(9, 'd'), c(11, 's'), c(4, 'c')] };
    let r = plo::evaluate_hand(&[c(14, 'h'), c(13, 'h'), c(12, 'h'), c(3, 'h')], &board);
    assert!(r.0 >> 20 < 5);
    // A K with J 9 7: high card.
    assert_eq!(r, HandRank((14 << 16) | (13 << 12) | (11 << 8) | (9 << 4) | 7));
}

#[test]
fn omaha_straight() {
    let board = Board { cards: vec![c(10, 'h'), c(11, 'c'), c(12, 'd'), c(2, 's'), c(3, 'c')] };
    let r = plo::evaluate_hand(&[c(14, 'h'), c(13, 's'), c(5, 'h'), c(6, 'd')], &board);
    assert_eq!(r.0 >> 20, 4);
}

#[test]
fn renaming_suits_keeps_the_value() {
    let hearts = evaluate_5(&[c(14, 'h'), c(11, 'h'), c(8, 'h'), c(6, 'h'), c(3, 'h')]);
    let spades = evaluate_5(&[c(14, 's'), c(11, 's'), c(8, 's'), c(6, 's'), c(3, 's')]);
    assert_eq!(hearts, spades);
    let mixed = evaluate_5(&[c(12, 'h'), c(5, 'd'), c(12, 'c'), c(8, 's'), c(5, 'c')]);
    let renamed = evaluate_5(&[c(5, 'c'), c(12, 's'), c(8, 'h'), c(12, 'd'), c(5, 'h')]);
    assert_eq!(mixed, renamed);
}

#[test]
fn value_splits_into_category_and_ranks() {
    let r = evaluate_5(&[c(12, 'h'), c(5, 'd'), c(12, 'c'), c(8, 's'), c(5, 'c')]);
    assert_eq!(r.0 >> 20, 2);
    assert_eq!(r.0 & 0xfffff, 0xCC855);
}

#[test]
fn suits_sharing_a_low_byte_make_a_flush() {
    // U+0168 has the low byte of 'h', so it counts as a heart.
    let r = evaluate_5(&[c(14, 'h'), c(11, '\u{168}'), c(8, 'h'), c(6, 'h'), c(3, 'h')]);
    assert_eq!(r.0 >> 20, 5);
}
