use poker_trainer::poker::cards::Card;
use poker_trainer::ux::controllers::{prepare_run, RunError};
use poker_trainer::variants::HoleCards;

fn c(rank: u8, suit: char) -> Card {
    Card { rank, suit }
}

#[test]
fn empty_hero_is_refused() {
    assert!(matches!(prepare_run(&[], "plo"), Err(RunError::InvalidHeroHand)));
    assert!(matches!(prepare_run(&[], "nlhe"), Err(RunError::InvalidHeroHand)));
}

#[test]
fn omaha_needs_four_cards() {
    let hero = [c(14, 'h'), c(13, 'h'), c(12, 'h')];
    assert!(matches!(prepare_run(&hero, "plo"), Err(RunError::PloNeedsFourCards)));
    let five = [c(14, 'h'), c(13, 'h'), c(12, 'h'), c(11, 'h'), c(10, 'h')];
    match prepare_run(&five, "plo") {
        Ok(HoleCards::Omaha(h)) => assert_eq!(h, [c(14, 'h'), c(13, 'h'), c(12, 'h'), c(11, 'h')]),
        _ => panic!("expected an Omaha hand"),
    }
}

#[test]
fn holdem_needs_two_cards() {
    assert!(matches!(prepare_run(&[c(14, 'h')], "nlhe"), Err(RunError::NlheNeedsTwoCards)));
    match prepare_run(&[c(14, 'h'), c(13, 'h'), c(2, 'c')], "PLO") {
        Ok(HoleCards::Holdem(h)) => assert_eq!(h, [c(14, 'h'), c(13, 'h')]),
        _ => panic!("expected a Hold'em hand"),
    }
}
