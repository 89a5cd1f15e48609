use vstd::prelude::*;
use vstd::multiset::Multiset;
use crate::poker::board::Board;
use crate::poker::cards::Card;
use crate::poker::deck::{
    Deck, standard_deck, without_cards, swap_removed, lemma_without_cards_len,
    lemma_without_cards_subset, lemma_swap_removed_multiset,
};
use crate::poker::ranking::{ranks_valid, best_of_seven};
use crate::variants::nlhe::{self, holdem_seven, sample_villain_hand};
use crate::variants::plo::{self, best_of_omaha};

verus! {

broadcast use {
    vstd::seq_lib::group_to_multiset_ensures,
    vstd::multiset::group_multiset_properties,
    vstd::multiset::group_multiset_axioms,
    vstd::seq_lib::lemma_multiset_commutative,
};

/// The tally of a Monte Carlo run for one hand.
pub struct ResultChunk {
    pub hand_id: u64,
    pub wins: u64,
    pub ties: u64,
    pub total: u64,
}

/// The cards of a new deck that remain once the hero's hole cards and the
/// board have been taken out.
pub open spec fn unseen(hole: Seq<Card>, board: Seq<Card>) -> Seq<Card> {
    without_cards(without_cards(standard_deck(), hole), board)
}

/// One Hold'em showdown: the opponent's hole cards `v` and the remaining
/// board cards `run` are distinct cards from the unseen ones, the board
/// is complete, and the two values are those of the hero's and of the
/// opponent's best hands.
pub open spec fn holdem_deal(
    hole: Seq<Card>,
    board: Seq<Card>,
    v: Seq<Card>,
    run: Seq<Card>,
    hero_value: int,
    villain_value: int,
) -> bool {
    &&& v.len() == 2
    &&& (board + run).len() == 5
    &&& (v + run).to_multiset().subset_of(unseen(hole, board).to_multiset())
    &&& best_of_seven(holdem_seven(hole, board + run), hero_value)
    &&& best_of_seven(holdem_seven(v, board + run), villain_value)
}

/// One Omaha showdown, as for Hold'em with four hole cards each.
pub open spec fn omaha_deal(
    hole: Seq<Card>,
    board: Seq<Card>,
    v: Seq<Card>,
    run: Seq<Card>,
    hero_value: int,
    villain_value: int,
) -> bool {
    &&& v.len() == 4
    &&& (board + run).len() == 5
    &&& (v + run).to_multiset().subset_of(unseen(hole, board).to_multiset())
    &&& best_of_omaha(hole, board + run, hero_value)
    &&& best_of_omaha(v, board + run, villain_value)
}

/// Some Hold'em showdown gives the hero and the opponent these values.
pub open spec fn holdem_outcome(hole: Seq<Card>, board: Seq<Card>, o: (u32, u32)) -> bool {
    exists|v: Seq<Card>, run: Seq<Card>| holdem_deal(hole, board, v, run, o.0 as int, o.1 as int)
}

/// Some Omaha showdown gives the hero and the opponent these values.
pub open spec fn omaha_outcome(hole: Seq<Card>, board: Seq<Card>, o: (u32, u32)) -> bool {
    exists|v: Seq<Card>, run: Seq<Card>| omaha_deal(hole, board, v, run, o.0 as int, o.1 as int)
}

/// How many of the showdowns the hero won.
pub open spec fn count_wins(outs: Seq<(u32, u32)>) -> nat
    decreases outs.len(),
{
    if outs.len() == 0 {
        0
    } else {
        count_wins(outs.drop_last()) + if outs.last().0 > outs.last().1 {
            1nat
        } else {
            0nat
        }
    }
}

/// How many of the showdowns were tied.
pub open spec fn count_ties(outs: Seq<(u32, u32)>) -> nat
    decreases outs.len(),
{
    if outs.len() == 0 {
        0
    } else {
        count_ties(outs.drop_last()) + if outs.last().0 == outs.last().1 {
            1nat
        } else {
            0nat
        }
    }
}

/// How many of the showdowns the hero lost.
pub open spec fn count_losses(outs: Seq<(u32, u32)>) -> nat
    decreases outs.len(),
{
    if outs.len() == 0 {
        0
    } else {
        count_losses(outs.drop_last()) + if outs.last().0 < outs.last().1 {
            1nat
        } else {
            0nat
        }
    }
}

/// Every showdown is exactly one of a win (hero value greater), a tie
/// (values equal) and a loss (hero value smaller): the three counts add up
/// to the number of showdowns.
pub proof fn law_tally_partition(outs: Seq<(u32, u32)>)
    ensures
        count_wins(outs) + count_ties(outs) + count_losses(outs) == outs.len(),
    decreases outs.len(),
{
    if outs.len() > 0 {
        law_tally_partition(outs.drop_last());
    }
}

/// When both players get equal values in every showdown, every showdown is
/// a tie and none is a win or a loss.
pub proof fn law_all_equal_all_ties(outs: Seq<(u32, u32)>)
    requires
        forall|k: int| 0 <= k < outs.len() ==> (#[trigger] outs[k]).0 == outs[k].1,
    ensures
        count_ties(outs) == outs.len(),
        count_wins(outs) == 0,
        count_losses(outs) == 0,
    decreases outs.len(),
{
    if outs.len() > 0 {
        assert forall|k: int| 0 <= k < outs.drop_last().len() implies (#[trigger] outs.drop_last()[k]).0
            == outs.drop_last()[k].1 by {
            assert(outs.drop_last()[k] == outs[k]);
        }
        assert(outs.last() == outs[outs.len() - 1]);
        law_all_equal_all_ties(outs.drop_last());
    }
}

/// When every Hold'em showdown possible from a position gives both players
/// the same value, a run of showdowns from it counts only ties.
pub proof fn law_holdem_forced_tie(hole: Seq<Card>, board: Seq<Card>, outs: Seq<(u32, u32)>)
    requires
        forall|o: (u32, u32)| #[trigger] holdem_outcome(hole, board, o) ==> o.0 == o.1,
        forall|k: int| 0 <= k < outs.len() ==> holdem_outcome(hole, board, #[trigger] outs[k]),
    ensures
        count_ties(outs) == outs.len(),
        count_wins(outs) == 0,
{
    assert forall|k: int| 0 <= k < outs.len() implies (#[trigger] outs[k]).0 == outs[k].1 by {
        assert(holdem_outcome(hole, board, outs[k]));
    }
    law_all_equal_all_ties(outs);
}

/// When every Omaha showdown possible from a position gives both players
/// the same value, a run of showdowns from it counts only ties.
pub proof fn law_omaha_forced_tie(hole: Seq<Card>, board: Seq<Card>, outs: Seq<(u32, u32)>)
    requires
        forall|o: (u32, u32)| #[trigger] omaha_outcome(hole, board, o) ==> o.0 == o.1,
        forall|k: int| 0 <= k < outs.len() ==> omaha_outcome(hole, board, #[trigger] outs[k]),
    ensures
        count_ties(outs) == outs.len(),
        count_wins(outs) == 0,
{
    assert forall|k: int| 0 <= k < outs.len() implies (#[trigger] outs[k]).0 == outs[k].1 by {
        assert(omaha_outcome(hole, board, outs[k]));
    }
    law_all_equal_all_ties(outs);
}

proof fn lemma_standard_ranks(c: Card)
    requires
        standard_deck().contains(c),
    ensures
        c.rank <= 14,
{
    let k = choose|k: int| 0 <= k < 52 && standard_deck()[k] == c;
    assert(standard_deck()[k].rank == 2 + k / 4);
}

proof fn lemma_unseen_ranks(hole: Seq<Card>, board: Seq<Card>, c: Card)
    requires
        unseen(hole, board).to_multiset().count(c) > 0,
    ensures
        c.rank <= 14,
{
    assert(unseen(hole, board).contains(c));
    lemma_without_cards_subset(without_cards(standard_deck(), hole), board, c);
    lemma_without_cards_subset(standard_deck(), hole, c);
    lemma_standard_ranks(c);
}

/// A deck with the known cards taken out.
fn deck_without(hole: &[Card], board: &Board) -> (d: Deck)
    ensures
        d.cards@ == unseen(hole@, board.cards@),
        d.cards@.len() >= 52 - hole@.len() - board.cards@.len(),
{
    let mut deck = Deck::new();
    deck.remove_many(hole);
    deck.remove_many(board.cards.as_slice());
    proof {
        lemma_without_cards_len(standard_deck(), hole@);
        lemma_without_cards_len(without_cards(standard_deck(), hole@), board.cards@);
    }
    deck
}

/// Plays out one Hold'em showdown at random: an opponent hand and the rest
/// of the board are dealt from the unseen cards, and the values of both
/// best hands are returned (hero first).
pub fn nlhe_trial(rng: &mut rand::rngs::ThreadRng, hero_hole: &[Card; 2], board: &Board) -> (r: (u32, u32))
    requires
        board.cards@.len() <= 5,
        ranks_valid(hero_hole@),
        ranks_valid(board.cards@),
    ensures
        holdem_outcome(hero_hole@, board.cards@, r),
{
    let mut deck = deck_without(hero_hole, board);
    let ghost d0 = deck.cards@;
    let villain_hole = sample_villain_hand(rng, &mut deck);
    let ghost d1 = deck.cards@;
    let mut full_board = board.copy();
    full_board.complete_to_river(&mut deck, rng);
    let ghost n0 = board.cards@.len();
    let ghost run = full_board.cards@.skip(n0 as int);
    let ghost v = villain_hole@;
    proof {
        assert(full_board.cards@ =~= board.cards@ + run);
        assert(v =~= Seq::<Card>::empty().push(villain_hole[0]).push(villain_hole[1]));
        assert(Seq::<Card>::empty().to_multiset() =~= Multiset::empty());
        assert(v.to_multiset() =~= Multiset::empty().insert(villain_hole[0]).insert(villain_hole[1]));
        assert(d0.to_multiset() =~= deck.cards@.to_multiset().add((v + run).to_multiset()));
        assert forall|c: Card| #[trigger] (v + run).to_multiset().count(c) <= d0.to_multiset().count(c) by {}
        assert forall|i: int| 0 <= i < 2 implies #[trigger] villain_hole@[i].rank <= 14 by {
            assert((v + run).to_multiset().count(v[i]) > 0) by {
                assert((v + run)[i] == v[i]);
            }
            lemma_unseen_ranks(hero_hole@, board.cards@, v[i]);
        }
        assert forall|i: int| 0 <= i < full_board.cards@.len() implies #[trigger] full_board.cards@[i].rank
            <= 14 by {
            if i >= n0 {
                let c = full_board.cards@[i];
                assert((v + run)[2 + i - n0] == c);
                assert((v + run).to_multiset().count(c) > 0);
                lemma_unseen_ranks(hero_hole@, board.cards@, c);
            } else {
                assert(full_board.cards@[i] == board.cards@[i]);
            }
        }
    }
    let hero_rank = nlhe::evaluate_hand(hero_hole, &full_board);
    let villain_rank = nlhe::evaluate_hand(&villain_hole, &full_board);
    let r = (hero_rank.0, villain_rank.0);
    assert(holdem_deal(hero_hole@, board.cards@, v, run, r.0 as int, r.1 as int));
    r
}

/// Runs `iterations` random Hold'em showdowns and counts (wins, ties, total)
/// for the hero.
pub fn run_nlhe_monte_carlo(
    rng: &mut rand::rngs::ThreadRng,
    hero_hole: [Card; 2],
    board: &Board,
    iterations: u32,
) -> (r: (u64, u64, u64))
    requires
        board.cards@.len() <= 5,
        ranks_valid(hero_hole@),
        ranks_valid(board.cards@),
    ensures
        r.2 == iterations,
        r.0 + r.1 <= r.2,
        exists|outs: Seq<(u32, u32)>|
            {
                &&& outs.len() == iterations
                &&& forall|k: int|
                    0 <= k < outs.len() ==> holdem_outcome(hero_hole@, board.cards@, #[trigger] outs[k])
                &&& r.0 == count_wins(outs)
                &&& r.1 == count_ties(outs)
                &&& r.0 + r.1 + count_losses(outs) == r.2
            },
{
    let mut wins: u64 = 0;
    let mut ties: u64 = 0;
    let mut total: u64 = 0;
    let mut i: u32 = 0;
    let ghost mut outs: Seq<(u32, u32)> = seq![];
    while i < iterations
        invariant
            i <= iterations,
            total == i,
            outs.len() == i,
            wins == count_wins(outs),
            ties == count_ties(outs),
            wins + ties <= total,
            forall|k: int|
                0 <= k < outs.len() ==> holdem_outcome(hero_hole@, board.cards@, #[trigger] outs[k]),
            board.cards@.len() <= 5,
            ranks_valid(hero_hole@),
            ranks_valid(board.cards@),
        decreases iterations - i,
    {
        let (hero_rank, villain_rank) = nlhe_trial(rng, &hero_hole, board);
        let ghost prev = outs;
        proof {
            outs = outs.push((hero_rank, villain_rank));
            assert(outs.drop_last() =~= prev);
        }
        if hero_rank > villain_rank {
            wins = wins + 1;
        } else if hero_rank == villain_rank {
            ties = ties + 1;
        }
        total = total + 1;
        i = i + 1;
    }
    proof {
        law_tally_partition(outs);
    }
    (wins, ties, total)
}

/// Draws one random card; the deck before is the deck after plus that card.
fn draw_counted(deck: &mut Deck, rng: &mut rand::rngs::ThreadRng) -> (c: Card)
    requires
        old(deck).cards@.len() > 0,
    ensures
        final(deck).cards@.len() == old(deck).cards@.len() - 1,
        old(deck).cards@.to_multiset() == final(deck).cards@.to_multiset().insert(c),
{
    let ghost d0 = deck.cards@;
    let c = deck.draw_random(rng);
    let ghost i = choose|i: int| 0 <= i < d0.len() && c == d0[i] && deck.cards@ == swap_removed(d0, i);
    proof {
        lemma_swap_removed_multiset(d0, i);
        assert(d0.contains(c));
    }
    c
}

/// Plays out one Omaha showdown at random: four opponent cards and the rest
/// of the board are dealt from the unseen cards, and the values of both
/// best hands are returned (hero first).
pub fn plo_trial(rng: &mut rand::rngs::ThreadRng, hero_hole: &[Card; 4], board: &Board) -> (r: (u32, u32))
    requires
        board.cards@.len() <= 5,
        ranks_valid(hero_hole@),
        ranks_valid(board.cards@),
    ensures
        omaha_outcome(hero_hole@, board.cards@, r),
{
    let mut deck = deck_without(hero_hole, board);
    let ghost d0 = deck.cards@;
    let c1 = draw_counted(&mut deck, rng);
    let c2 = draw_counted(&mut deck, rng);
    let c3 = draw_counted(&mut deck, rng);
    let c4 = draw_counted(&mut deck, rng);
    let villain_hole = [c1, c2, c3, c4];
    let mut full_board = board.copy();
    full_board.complete_to_river(&mut deck, rng);
    let ghost n0 = board.cards@.len();
    let ghost run = full_board.cards@.skip(n0 as int);
    let ghost v = villain_hole@;
    proof {
        assert(full_board.cards@ =~= board.cards@ + run);
        assert(v =~= Seq::<Card>::empty().push(c1).push(c2).push(c3).push(c4));
        assert(Seq::<Card>::empty().to_multiset() =~= Multiset::empty());
        assert(v.to_multiset() =~= Multiset::empty().insert(c1).insert(c2).insert(c3).insert(c4));
        assert(d0.to_multiset() =~= deck.cards@.to_multiset().add((v + run).to_multiset()));
        assert forall|c: Card| #[trigger] (v + run).to_multiset().count(c) <= d0.to_multiset().count(c) by {}
        assert forall|i: int| 0 <= i < 4 implies #[trigger] villain_hole@[i].rank <= 14 by {
            assert((v + run).to_multiset().count(v[i]) > 0) by {
                assert((v + run)[i] == v[i]);
            }
            lemma_unseen_ranks(hero_hole@, board.cards@, v[i]);
        }
        assert forall|i: int| 0 <= i < full_board.cards@.len() implies #[trigger] full_board.cards@[i].rank
            <= 14 by {
            if i >= n0 {
                let c = full_board.cards@[i];
                assert((v + run)[4 + i - n0] == c);
                assert((v + run).to_multiset().count(c) > 0);
                lemma_unseen_ranks(hero_hole@, board.cards@, c);
            } else {
                assert(full_board.cards@[i] == board.cards@[i]);
            }
        }
    }
    let hero_rank = plo::evaluate_hand(hero_hole, &full_board);
    let villain_rank = plo::evaluate_hand(&villain_hole, &full_board);
    let r = (hero_rank.0, villain_rank.0);
    assert(omaha_deal(hero_hole@, board.cards@, v, run, r.0 as int, r.1 as int));
    r
}

/// Runs `iterations` random Omaha showdowns and counts (wins, ties, total)
/// for the hero.
pub fn run_plo_monte_carlo(
    rng: &mut rand::rngs::ThreadRng,
    hero_hole: [Card; 4],
    board: &Board,
    iterations: u32,
) -> (r: (u64, u64, u64))
    requires
        board.cards@.len() <= 5,
        ranks_valid(hero_hole@),
        ranks_valid(board.cards@),
    ensures
        r.2 == iterations,
        r.0 + r.1 <= r.2,
        exists|outs: Seq<(u32, u32)>|
            {
                &&& outs.len() == iterations
                &&& forall|k: int|
                    0 <= k < outs.len() ==> omaha_outcome(hero_hole@, board.cards@, #[trigger] outs[k])
                &&& r.0 == count_wins(outs)
                &&& r.1 == count_ties(outs)
                &&& r.0 + r.1 + count_losses(outs) == r.2
            },
{
    let mut wins: u64 = 0;
    let mut ties: u64 = 0;
    let mut total: u64 = 0;
    let mut i: u32 = 0;
    let ghost mut outs: Seq<(u32, u32)> = seq![];
    while i < iterations
        invariant
            i <= iterations,
            total == i,
            outs.len() == i,
            wins == count_wins(outs),
            ties == count_ties(outs),
            wins + ties <= total,
            forall|k: int|
                0 <= k < outs.len() ==> omaha_outcome(hero_hole@, board.cards@, #[trigger] outs[k]),
            board.cards@.len() <= 5,
            ranks_valid(hero_hole@),
            ranks_valid(board.cards@),
        decreases iterations - i,
    {
        let (hero_rank, villain_rank) = plo_trial(rng, &hero_hole, board);
        let ghost prev = outs;
        proof {
            outs = outs.push((hero_rank, villain_rank));
            assert(outs.drop_last() =~= prev);
        }
        if hero_rank > villain_rank {
            wins = wins + 1;
        } else if hero_rank == villain_rank {
            ties = ties + 1;
        }
        total = total + 1;
        i = i + 1;
    }
    proof {
        law_tally_partition(outs);
    }
    (wins, ties, total)
}

} // verus!
