use vstd::prelude::*;
use crate::poker::board::Board;
use crate::poker::cards::Card;
use crate::poker::deck::{Deck, without_cards};

verus! {

/// Takes the hero's four hole cards and the board cards out of the deck.
pub fn remove_blocked_combos(deck: &mut Deck, hero_hole: &[Card; 4], board: &Board)
    ensures
        final(deck).cards@ == without_cards(
            without_cards(old(deck).cards@, hero_hole@),
            board.cards@,
        ),
{
    deck.remove_many(hero_hole);
    deck.remove_many(board.cards.as_slice());
}

} // verus!
