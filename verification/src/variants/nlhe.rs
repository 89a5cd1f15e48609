use vstd::prelude::*;
use crate::poker::board::Board;
use crate::poker::cards::Card;
use crate::poker::deck::{Deck, swap_removed, lemma_swap_removed_multiset};
use crate::poker::ranking::{HandRank, evaluate_7, ranks_valid, best_of_seven};

verus! {

broadcast use {vstd::seq_lib::group_to_multiset_ensures, vstd::multiset::group_multiset_properties};

/// The card that fills the seats of a board that is not complete.
pub open spec fn blank_card() -> Card {
    Card { rank: 0, suit: 'x' }
}

/// The seven cards a Hold'em hand is evaluated on: the two hole cards, the
/// board, and blank cards in the seats the board has not filled.
pub open spec fn holdem_seven(hole: Seq<Card>, board: Seq<Card>) -> Seq<Card> {
    hole + board + Seq::new((5 - board.len()) as nat, |_i: int| blank_card())
}

/// The seven cards of a Hold'em hand are the two hole cards in their
/// places 0 and 1, every board card in order from place 2 on, and a card of
/// rank 0 and suit `x` in each place the board leaves empty.
pub proof fn law_holdem_seven_layout(hole: Seq<Card>, board: Seq<Card>)
    requires
        hole.len() == 2,
        board.len() <= 5,
    ensures
        holdem_seven(hole, board).len() == 7,
        holdem_seven(hole, board)[0] == hole[0],
        holdem_seven(hole, board)[1] == hole[1],
        forall|i: int| 0 <= i < board.len() ==> #[trigger] holdem_seven(hole, board)[2 + i] == board[i],
        forall|k: int|
            2 + board.len() <= k < 7 ==> #[trigger] holdem_seven(hole, board)[k] == (Card {
                rank: 0,
                suit: 'x',
            }),
{
    let t = holdem_seven(hole, board);
    assert forall|i: int| 0 <= i < board.len() implies #[trigger] t[2 + i] == board[i] by {
        assert((hole + board)[2 + i] == board[i]);
    }
}

/// With a complete board the hand is the best five of the two hole cards
/// and the five board cards, with no blank card among them.
pub proof fn law_holdem_full_board(hole: Seq<Card>, board: Seq<Card>, v: int)
    requires
        hole.len() == 2,
        board.len() == 5,
        best_of_seven(holdem_seven(hole, board), v),
    ensures
        best_of_seven(hole + board, v),
{
    assert(holdem_seven(hole, board) =~= hole + board);
}

/// Draws two random cards from `deck` for the opponent. The deck before
/// equals, as a multiset, the deck after plus the two cards.
pub fn sample_villain_hand(rng: &mut rand::rngs::ThreadRng, deck: &mut Deck) -> (h: [Card; 2])
    requires
        old(deck).cards@.len() >= 2,
    ensures
        final(deck).cards@.len() == old(deck).cards@.len() - 2,
        old(deck).cards@.to_multiset() == final(deck).cards@.to_multiset().insert(h[0]).insert(
            h[1],
        ),
{
    let ghost d0 = deck.cards@;
    let c1 = deck.draw_random(rng);
    let ghost i = choose|i: int| 0 <= i < d0.len() && c1 == d0[i] && deck.cards@ == swap_removed(d0, i);
    proof {
        lemma_swap_removed_multiset(d0, i);
    }
    let ghost d1 = deck.cards@;
    let c2 = deck.draw_random(rng);
    let ghost j = choose|j: int| 0 <= j < d1.len() && c2 == d1[j] && deck.cards@ == swap_removed(d1, j);
    proof {
        lemma_swap_removed_multiset(d1, j);
        assert(d0.contains(c1));
        assert(d1.contains(c2));
        assert(d0.to_multiset() =~= deck.cards@.to_multiset().insert(c1).insert(c2));
    }
    [c1, c2]
}

/// Evaluates a Hold'em hand as the best five of its two hole cards and the
/// board, blank cards standing in for the cards not yet dealt.
pub fn evaluate_hand(hole: &[Card; 2], board: &Board) -> (r: HandRank)
    requires
        board.cards@.len() <= 5,
        ranks_valid(hole@),
        ranks_valid(board.cards@),
    ensures
        best_of_seven(holdem_seven(hole@, board.cards@), r.0 as int),
{
    let n = board.cards.len();
    let blank = Card { rank: 0, suit: 'x' };
    let b0 = if 0 < n { board.cards[0] } else { blank };
    let b1 = if 1 < n { board.cards[1] } else { blank };
    let b2 = if 2 < n { board.cards[2] } else { blank };
    let b3 = if 3 < n { board.cards[3] } else { blank };
    let b4 = if 4 < n { board.cards[4] } else { blank };
    let all = [hole[0], hole[1], b0, b1, b2, b3, b4];
    assert(all@ =~= holdem_seven(hole@, board.cards@));
    assert(ranks_valid(all@)) by {
        assert forall|i: int| 0 <= i < 7 implies #[trigger] all@[i].rank <= 14 by {
            if 2 <= i < 2 + n {
                assert(all@[i] == board.cards@[i - 2]);
            }
        }
    }
    evaluate_7(&all)
}

} // verus!
