use vstd::prelude::*;
use crate::poker::cards::Card;
use crate::poker::deck::{Deck, swap_removed, lemma_swap_removed_multiset};

verus! {

broadcast use {vstd::seq_lib::group_to_multiset_ensures, vstd::multiset::group_multiset_properties};

/// The community cards dealt so far.
#[derive(Clone, Debug)]
pub struct Board {
    pub cards: Vec<Card>,
}

/// The length a board has once it is completed to the river.
pub open spec fn river_len(n: nat) -> nat {
    if n < 5 {
        5
    } else {
        n
    }
}

impl Board {
    /// An empty board.
    pub fn new() -> (b: Self)
        ensures
            b.cards@.len() == 0,
    {
        Self { cards: Vec::new() }
    }

    /// A board holding exactly `cards`.
    pub fn from_cards(cards: Vec<Card>) -> (b: Self)
        ensures
            b.cards@ == cards@,
    {
        Self { cards }
    }

    /// The number of cards on the board.
    pub fn len(&self) -> (n: usize)
        ensures
            n == self.cards@.len(),
    {
        self.cards.len()
    }

    /// A copy of the board.
    pub fn copy(&self) -> (b: Self)
        ensures
            b.cards@ == self.cards@,
    {
        let mut v: Vec<Card> = Vec::new();
        let mut i: usize = 0;
        while i < self.cards.len()
            invariant
                i <= self.cards@.len(),
                v@ == self.cards@.take(i as int),
            decreases self.cards@.len() - i,
        {
            v.push(self.cards[i]);
            assert(v@ =~= self.cards@.take(i + 1));
            i = i + 1;
        }
        assert(self.cards@.take(i as int) =~= self.cards@);
        Self { cards: v }
    }

    /// Deals random cards from `deck` until the board holds five; a board
    /// of five or more is left as it is. The cards dealt leave the deck:
    /// the deck before equals, as a multiset, the deck after plus the cards
    /// added to the board.
    pub fn complete_to_river(&mut self, deck: &mut Deck, rng: &mut rand::rngs::ThreadRng)
        requires
            old(self).cards@.len() + old(deck).cards@.len() >= 5,
        ensures
            final(self).cards@.len() == river_len(old(self).cards@.len()),
            final(self).cards@.take(old(self).cards@.len() as int) == old(self).cards@,
            old(deck).cards@.to_multiset() == final(deck).cards@.to_multiset().add(
                final(self).cards@.skip(old(self).cards@.len() as int).to_multiset(),
            ),
            final(deck).cards@.len() + final(self).cards@.len() == old(deck).cards@.len() + old(
                self,
            ).cards@.len(),
    {
        let ghost n0 = self.cards@.len();
        let ghost start = self.cards@;
        assert(self.cards@.skip(n0 as int) =~= Seq::<Card>::empty());
        while self.cards.len() < 5
            invariant
                n0 <= self.cards@.len(),
                n0 < 5 ==> self.cards@.len() <= 5,
                n0 >= 5 ==> self.cards@.len() == n0,
                self.cards@.take(n0 as int) == start,
                start == old(self).cards@,
                n0 == old(self).cards@.len(),
                self.cards@.len() + deck.cards@.len() == old(deck).cards@.len() + n0,
                self.cards@.len() + deck.cards@.len() >= 5,
                old(deck).cards@.to_multiset() == deck.cards@.to_multiset().add(
                    self.cards@.skip(n0 as int).to_multiset(),
                ),
            decreases 5 - self.cards@.len(),
        {
            let ghost d0 = deck.cards@;
            let ghost s0 = self.cards@;
            let c = deck.draw_random(rng);
            let ghost i = choose|i: int|
                0 <= i < d0.len() && c == d0[i] && deck.cards@ == swap_removed(d0, i);
            proof {
                lemma_swap_removed_multiset(d0, i);
            }
            self.cards.push(c);
            proof {
                assert(self.cards@.take(n0 as int) =~= s0.take(n0 as int));
                assert(self.cards@.skip(n0 as int) =~= s0.skip(n0 as int).push(c));
                assert(d0.contains(c));
                assert(d0.to_multiset().count(c) > 0);
                assert(old(deck).cards@.to_multiset() =~= deck.cards@.to_multiset().add(
                    self.cards@.skip(n0 as int).to_multiset(),
                ));
            }
        }
    }
}

} // verus!
