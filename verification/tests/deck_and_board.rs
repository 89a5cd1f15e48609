use poker_trainer::poker::board::Board;
use poker_trainer::poker::cards::Card;
use poker_trainer::poker::deck::Deck;
use rand::thread_rng;
use poker_trainer::poker::util::random_hand;
use poker_trainer::variants::nlhe::sample_villain_hand;
use poker_trainer::variants::plo::blockers::remove_blocked_combos;

fn c(rank: u8, suit: char) -> Card {
    Card { rank, suit }
}

#[test]
fn new_deck_has_52_cards_in_order() {
    let d = Deck::new();
    assert_eq!(d.cards.len(), 52);
    assert_eq!(d.cards[0], c(2, 'h'));
    assert_eq!(d.cards[1], c(2, 'd'));
    assert_eq!(d.cards[3], c(2, 's'));
    assert_eq!(d.cards[51], c(14, 's'));
}

#[test]
fn remove_swaps_in_the_last_card() {
    let mut d = Deck::new();
    d.remove(c(2, 'h'));
    assert_eq!(d.cards.len(), 51);
    assert_eq!(d.cards[0], c(14, 's'));
    assert!(!d.cards.contains(&c(2, 'h')));
    d.remove(c(2, 'h'));
    assert_eq!(d.cards.len(), 51);
    d.remove(c(15, 'x'));
    assert_eq!(d.cards.len(), 51);
}

#[test]
fn remove_many_and_reset() {
    let mut d = Deck::new();
    d.remove_many(&[c(14, 'h'), c(13, 'h'), c(14, 'h')]);
    assert_eq!(d.cards.len(), 50);
    d.reset();
    assert_eq!(d.cards.len(), 52);
    assert_eq!(d.cards[4], c(3, 'h'));
}

#[test]
fn blockers_are_removed() {
    let mut d = Deck::new();
    let board = Board::from_cards(vec![c(2, 'c'), c(3, 'c'), c(4, 'c')]);
    remove_blocked_combos(&mut d, &[c(14, 'h'), c(14, 'd'), c(13, 'h'), c(13, 'd')], &board);
    assert_eq!(d.cards.len(), 45);
    assert!(!d.cards.contains(&c(3, 'c')));
}

#[test]
fn draw_random_takes_a_card_out() {
    let mut d = Deck::new();
    let mut rng = thread_rng();
    let x = d.draw_random(&mut rng);
    assert_eq!(d.cards.len(), 51);
    assert!(!d.cards.contains(&x));
    assert!((2..=14).contains(&x.rank));
}

#[test]
fn board_completes_to_river() {
    let mut d = Deck::new();
    let mut rng = thread_rng();
    let mut b = Board::from_cards(vec![c(2, 'c')]);
    assert_eq!(b.len(), 1);
    b.complete_to_river(&mut d, &mut rng);
    assert_eq!(b.len(), 5);
    assert_eq!(b.cards[0], c(2, 'c'));
    assert_eq!(d.cards.len(), 48);
    let mut e = Board::new();
    assert_eq!(e.len(), 0);
    e.complete_to_river(&mut d, &mut rng);
    assert_eq!(e.len(), 5);
    assert_eq!(d.cards.len(), 43);
    let copy = e.copy();
    assert_eq!(copy.cards, e.cards);
}

#[test]
fn villain_hand_leaves_the_deck() {
    let mut d = Deck::new();
    let mut rng = thread_rng();
    let h = sample_villain_hand(&mut rng, &mut d);
    assert_eq!(d.cards.len(), 50);
    assert_ne!(h[0], h[1]);
    assert!(!d.cards.contains(&h[0]));
    assert!(!d.cards.contains(&h[1]));
}

#[test]
fn random_hand_avoids_dead_cards() {
    let dead = [c(14, 'h'), c(14, 'd')];
    for _ in 0..50 {
        let h = random_hand(&dead);
        assert_ne!(h[0], h[1]);
        assert!(!dead.contains(&h[0]));
        assert!(!dead.contains(&h[1]));
        assert!((2..=14).contains(&h[0].rank));
    }
}

#[test]
fn random_hand_with_two_cards_left() {
    let mut dead = Vec::new();
    for r in 2..=14u8 {
        for s in ['h', 'd', 'c', 's'] {
            dead.push(c(r, s));
        }
    }
    dead.retain(|x| *x != c(7, 'c') && *x != c(9, 's'));
    let h = random_hand(&dead);
    assert!(h.contains(&c(7, 'c')));
    assert!(h.contains(&c(9, 's')));
}

#[test]
fn new_deck_cards_are_distinct() {
    let d = Deck::new();
    for i in 0..52 {
        assert!((2..=14).contains(&d.cards[i].rank));
        for j in 0..52 {
            if i != j {
                assert_ne!(d.cards[i], d.cards[j]);
            }
        }
    }
}
