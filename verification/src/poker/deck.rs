use vstd::prelude::*;
use crate::poker::cards::Card;
use crate::poker::random::random_below;

verus! {

broadcast use {vstd::seq_lib::group_to_multiset_ensures, vstd::multiset::group_multiset_properties};

/// The suits in the order in which a new deck lists them.
pub open spec fn suit_at(k: int) -> char {
    if k == 0 {
        'h'
    } else if k == 1 {
        'd'
    } else if k == 2 {
        'c'
    } else {
        's'
    }
}

/// The suit character at place `k` of the order h d c s.
pub(crate) fn suit_char(k: usize) -> (c: char)
    requires
        k < 4,
    ensures
        c == suit_at(k as int),
{
    if k == 0 {
        'h'
    } else if k == 1 {
        'd'
    } else if k == 2 {
        'c'
    } else {
        's'
    }
}

/// The 52 cards of a new deck: ranks 2 to 14, each in hearts, diamonds,
/// clubs and spades.
pub open spec fn standard_deck() -> Seq<Card> {
    Seq::new(52, |k: int| Card { rank: (2 + k / 4) as u8, suit: suit_at(k % 4) })
}

/// The index of the first occurrence of `c` in `s`, or -1.
pub open spec fn position_of(s: Seq<Card>, c: Card) -> int
    decreases s.len(),
{
    if s.len() == 0 {
        -1
    } else if s[0] == c {
        0
    } else {
        let k = position_of(s.drop_first(), c);
        if k < 0 {
            -1
        } else {
            k + 1
        }
    }
}

/// `s` with the element at `i` replaced by the last one, and the last dropped.
pub open spec fn swap_removed(s: Seq<Card>, i: int) -> Seq<Card> {
    s.update(i, s.last()).drop_last()
}

/// `s` with the first occurrence of `c` swap-removed, if there is one.
pub open spec fn without_card(s: Seq<Card>, c: Card) -> Seq<Card> {
    if position_of(s, c) >= 0 {
        swap_removed(s, position_of(s, c))
    } else {
        s
    }
}

/// `s` with each card of `cs` removed in turn as by `without_card`.
pub open spec fn without_cards(s: Seq<Card>, cs: Seq<Card>) -> Seq<Card>
    decreases cs.len(),
{
    if cs.len() == 0 {
        s
    } else {
        without_card(without_cards(s, cs.drop_last()), cs.last())
    }
}

pub proof fn lemma_position_of(s: Seq<Card>, c: Card)
    ensures
        -1 <= position_of(s, c) < s.len(),
        position_of(s, c) >= 0 ==> s[position_of(s, c)] == c,
        position_of(s, c) < 0 ==> !s.contains(c),
        forall|j: int| 0 <= j < position_of(s, c) ==> s[j] != c,
    decreases s.len(),
{
    if s.len() > 0 && s[0] != c {
        lemma_position_of(s.drop_first(), c);
        let k = position_of(s.drop_first(), c);
        if k < 0 {
            assert forall|j: int| 0 <= j < s.len() implies s[j] != c by {
                if j > 0 {
                    assert(s[j] == s.drop_first()[j - 1]);
                }
            }
        } else {
            assert forall|j: int| 0 <= j < k + 1 implies s[j] != c by {
                if j > 0 {
                    assert(s[j] == s.drop_first()[j - 1]);
                }
            }
        }
    }
}

/// Swap-removing one element takes exactly that element out of the multiset.
pub proof fn lemma_swap_removed_multiset(s: Seq<Card>, i: int)
    requires
        0 <= i < s.len(),
    ensures
        swap_removed(s, i).to_multiset() == s.to_multiset().remove(s[i]),
        swap_removed(s, i).len() == s.len() - 1,
{
    let t = s.update(i, s.last());
    vstd::seq_lib::to_multiset_update(s, i, s.last());
    assert(t.drop_last() =~= t.remove(t.len() - 1));
    vstd::seq_lib::to_multiset_remove(t, t.len() - 1);
    assert(t.last() == s.last());
    assert(s.contains(s.last()));
    assert(t.to_multiset().remove(s.last()) =~= s.to_multiset().remove(s[i]));
}

pub proof fn lemma_without_card_len(s: Seq<Card>, c: Card)
    ensures
        s.len() - 1 <= without_card(s, c).len() <= s.len(),
{
    lemma_position_of(s, c);
}

pub proof fn lemma_without_cards_len(s: Seq<Card>, cs: Seq<Card>)
    ensures
        s.len() - cs.len() <= without_cards(s, cs).len() <= s.len(),
    decreases cs.len(),
{
    if cs.len() > 0 {
        lemma_without_cards_len(s, cs.drop_last());
        lemma_without_card_len(without_cards(s, cs.drop_last()), cs.last());
    }
}

/// Every card left after removals was in the deck before them.
pub proof fn lemma_without_cards_subset(s: Seq<Card>, cs: Seq<Card>, c: Card)
    requires
        without_cards(s, cs).contains(c),
    ensures
        s.contains(c),
    decreases cs.len(),
{
    if cs.len() > 0 {
        let t = without_cards(s, cs.drop_last());
        lemma_position_of(t, cs.last());
        if position_of(t, cs.last()) >= 0 {
            lemma_swap_removed_multiset(t, position_of(t, cs.last()));
        }
        lemma_without_cards_subset(s, cs.drop_last(), c);
    }
}

/// A new deck holds 52 different cards, each of rank 2 to 14.
pub proof fn law_standard_deck_distinct()
    ensures
        standard_deck().len() == 52,
        standard_deck().no_duplicates(),
        forall|i: int| 0 <= i < 52 ==> 2 <= #[trigger] standard_deck()[i].rank <= 14,
{
    assert forall|i: int, j: int| 0 <= i < 52 && 0 <= j < 52 && i != j implies standard_deck()[i]
        != standard_deck()[j] by {
        if i / 4 == j / 4 {
            assert(i % 4 != j % 4);
        }
    }
}

/// Removing a card takes exactly one copy of it out of the deck (none if
/// it is absent); from a deck without repeats, the card is then gone.
pub proof fn law_remove_takes_one_copy(s: Seq<Card>, c: Card)
    ensures
        without_card(s, c).to_multiset() == s.to_multiset().remove(c),
        s.no_duplicates() ==> !without_card(s, c).contains(c),
{
    lemma_position_of(s, c);
    let p = position_of(s, c);
    if p >= 0 {
        lemma_swap_removed_multiset(s, p);
        if s.no_duplicates() {
            s.lemma_multiset_has_no_duplicates();
            assert(s.to_multiset().count(c) == 1);
            assert(without_card(s, c).to_multiset().count(c) == 0);
        }
    } else {
        assert(s.to_multiset().count(c) == 0);
        assert(s.to_multiset().remove(c) =~= s.to_multiset());
    }
}

pub struct Deck {
    pub cards: Vec<Card>,
}

fn standard_cards() -> (v: Vec<Card>)
    ensures
        v@ == standard_deck(),
{
    let mut v: Vec<Card> = Vec::new();
    let mut rank: u8 = 2;
    while rank <= 14
        invariant
            2 <= rank <= 15,
            v@ =~= standard_deck().take(4 * (rank - 2)),
        decreases 15 - rank,
    {
        v.push(Card { rank, suit: 'h' });
        v.push(Card { rank, suit: 'd' });
        v.push(Card { rank, suit: 'c' });
        v.push(Card { rank, suit: 's' });
        assert(v@ =~= standard_deck().take(4 * (rank - 1)));
        rank = rank + 1;
    }
    assert(standard_deck().take(52) =~= standard_deck());
    v
}

impl Deck {
    /// A full deck of 52 cards in the standard order.
    pub fn new() -> (d: Self)
        ensures
            d.cards@ == standard_deck(),
    {
        Deck { cards: standard_cards() }
    }

    /// Refills the deck with the 52 cards in the standard order.
    pub fn reset(&mut self)
        ensures
            final(self).cards@ == standard_deck(),
    {
        self.cards = standard_cards();
    }

    /// Takes the first copy of `card` out of the deck, moving the last card
    /// into its place; a deck without the card is left as it is.
    pub fn remove(&mut self, card: Card)
        ensures
            final(self).cards@ == without_card(old(self).cards@, card),
    {
        let n = self.cards.len();
        let mut i: usize = 0;
        while i < n
            invariant
                n == self.cards@.len(),
                self.cards@ == old(self).cards@,
                i <= n,
                forall|j: int| 0 <= j < i ==> self.cards@[j] != card,
            decreases n - i,
        {
            if self.cards[i] == card {
                proof {
                    lemma_position_of(self.cards@, card);
                    let p = position_of(self.cards@, card);
                    assert(p == i) by {
                        if p < i {
                            assert(self.cards@[p] != card);
                        } else if p < 0 {
                            assert(self.cards@.contains(card)) by {
                                assert(self.cards@[i as int] == card);
                            }
                        }
                    }
                }
                self.cards.swap_remove(i);
                return;
            }
            i = i + 1;
        }
        proof {
            lemma_position_of(self.cards@, card);
            if position_of(self.cards@, card) >= 0 {
                assert(self.cards@[position_of(self.cards@, card)] != card);
            }
        }
    }

    /// Removes each of `cards` in turn.
    pub fn remove_many(&mut self, cards: &[Card])
        ensures
            final(self).cards@ == without_cards(old(self).cards@, cards@),
    {
        let n = cards.len();
        let mut i: usize = 0;
        while i < n
            invariant
                n == cards@.len(),
                i <= n,
                self.cards@ == without_cards(old(self).cards@, cards@.take(i as int)),
            decreases n - i,
        {
            assert(cards@.take(i + 1).drop_last() =~= cards@.take(i as int));
            self.remove(cards[i]);
            i = i + 1;
        }
        assert(cards@.take(n as int) =~= cards@);
    }

    /// Draws a card at a random position, moving the last card into its place.
    pub fn draw_random(&mut self, rng: &mut rand::rngs::ThreadRng) -> (c: Card)
        requires
            old(self).cards.len() > 0,
        ensures
            exists|i: int|
                0 <= i < old(self).cards@.len() && c == old(self).cards@[i] && final(self).cards@
                    == swap_removed(old(self).cards@, i),
    {
        let idx = random_below(rng, self.cards.len());
        let c = self.cards.swap_remove(idx);
        assert(c == old(self).cards@[idx as int]);
        c
    }
}

} // verus!
