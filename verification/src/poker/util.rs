use vstd::prelude::*;
use vstd::string::*;
use crate::poker::cards::Card;
use crate::poker::deck::{suit_at, suit_char};
use crate::poker::gto_range::{combos_of_code, hand_code_ranks_valid, is_rank_symbol, rank_value};
use crate::poker::random::{thread_rng, shuffle_cards};

verus! {

broadcast use {vstd::seq_lib::group_to_multiset_ensures, vstd::multiset::group_multiset_properties};

/// All `k`-element selections of `items`. This helper is not implemented
/// and always answers with no selections.
pub fn combinations<T: Clone>(items: &[T], k: usize) -> (v: Vec<Vec<T>>)
    ensures
        v@.len() == 0,
{
    Vec::new()
}

/// The rank symbols from strongest to weakest, as laid out on a 13x13 grid.
pub open spec fn grid_rank(i: int) -> char {
    "AKQJT98765432"@[i]
}

/// The label of grid cell (`r`, `c`): the two rank symbols, then `s` above
/// the diagonal (suited), `o` below it (offsuit), nothing on it (a pair).
pub open spec fn hand_label_text(r: int, c: int) -> Seq<char> {
    seq![grid_rank(r), grid_rank(c)] + if r < c {
        seq!['s']
    } else if r > c {
        seq!['o']
    } else {
        seq![]
    }
}

fn grid_rank_str(i: usize) -> (s: &'static str)
    requires
        i < 13,
    ensures
        s@ == seq![grid_rank(i as int)],
{
    proof {
        reveal_strlit("AKQJT98765432");
    }
    if i == 0 {
        proof { reveal_strlit("A"); }
        "A"
    } else if i == 1 {
        proof { reveal_strlit("K"); }
        "K"
    } else if i == 2 {
        proof { reveal_strlit("Q"); }
        "Q"
    } else if i == 3 {
        proof { reveal_strlit("J"); }
        "J"
    } else if i == 4 {
        proof { reveal_strlit("T"); }
        "T"
    } else if i == 5 {
        proof { reveal_strlit("9"); }
        "9"
    } else if i == 6 {
        proof { reveal_strlit("8"); }
        "8"
    } else if i == 7 {
        proof { reveal_strlit("7"); }
        "7"
    } else if i == 8 {
        proof { reveal_strlit("6"); }
        "6"
    } else if i == 9 {
        proof { reveal_strlit("5"); }
        "5"
    } else if i == 10 {
        proof { reveal_strlit("4"); }
        "4"
    } else if i == 11 {
        proof { reveal_strlit("3"); }
        "3"
    } else {
        proof { reveal_strlit("2"); }
        "2"
    }
}

/// The hand label of a cell of the 13x13 starting-hand grid.
pub fn hand_label(r: usize, c: usize) -> (s: String)
    requires
        r < 13,
        c < 13,
    ensures
        s@ == hand_label_text(r as int, c as int),
{
    let mut s = String::new();
    s.append(grid_rank_str(r));
    s.append(grid_rank_str(c));
    if r < c {
        proof { reveal_strlit("s"); }
        s.append("s");
    } else if r > c {
        proof { reveal_strlit("o"); }
        s.append("o");
    }
    assert(s@ =~= hand_label_text(r as int, c as int));
    s
}

/// Each cell of the starting-hand grid is labelled with a hand code that
/// stands for six combinations on the diagonal (pairs), four above it
/// (suited) and twelve below it (offsuit).
pub proof fn law_grid_label_combos(r: int, c: int)
    requires
        0 <= r < 13,
        0 <= c < 13,
    ensures
        hand_code_ranks_valid(hand_label_text(r, c)),
        r == c ==> combos_of_code(hand_label_text(r, c)).len() == 6,
        r < c ==> combos_of_code(hand_label_text(r, c)).len() == 4,
        r > c ==> combos_of_code(hand_label_text(r, c)).len() == 12,
{
    reveal_strlit("AKQJT98765432");
    let t = hand_label_text(r, c);
    assert(t[0] == grid_rank(r));
    assert(t[1] == grid_rank(c));
    assert(is_rank_symbol(grid_rank(r)) && rank_value(grid_rank(r)) == 14 - r);
    assert(is_rank_symbol(grid_rank(c)) && rank_value(grid_rank(c)) == 14 - c);
    if r < c {
        assert(t.len() == 3 && t[2] == 's');
    } else if r > c {
        assert(t.len() == 3 && t[2] == 'o');
    }
}

/// The 52 cards listed from aces down to twos, each rank in hearts,
/// diamonds, clubs and spades.
pub open spec fn ace_high_deck() -> Seq<Card> {
    Seq::new(52, |k: int| Card { rank: (14 - k / 4) as u8, suit: suit_at(k % 4) })
}

/// The first `k` cards of the ace-high deck that are not among `dead`.
pub open spec fn live_prefix(dead: Seq<Card>, k: int) -> Seq<Card>
    decreases k,
{
    if k <= 0 {
        seq![]
    } else if dead.contains(ace_high_deck()[k - 1]) {
        live_prefix(dead, k - 1)
    } else {
        live_prefix(dead, k - 1).push(ace_high_deck()[k - 1])
    }
}

/// The cards of a full deck that are not among `dead`, aces first.
pub open spec fn live_cards(dead: Seq<Card>) -> Seq<Card> {
    live_prefix(dead, 52)
}

fn contains_card(cards: &[Card], c: Card) -> (r: bool)
    ensures
        r == cards@.contains(c),
{
    let mut i: usize = 0;
    while i < cards.len()
        invariant
            i <= cards@.len(),
            forall|j: int| 0 <= j < i ==> cards@[j] != c,
        decreases cards@.len() - i,
    {
        if cards[i] == c {
            return true;
        }
        i = i + 1;
    }
    false
}

/// The cards of a full deck not among `dead`, in ace-high order.
fn live_deck(dead: &[Card]) -> (v: Vec<Card>)
    ensures
        v@ == live_cards(dead@),
        v@.no_duplicates(),
{
    let mut v: Vec<Card> = Vec::new();
    let mut k: usize = 0;
    while k < 52
        invariant
            k <= 52,
            v@ == live_prefix(dead@, k as int),
            v@.no_duplicates(),
            forall|i: int| 0 <= i < v@.len() ==> exists|j: int| 0 <= j < k && #[trigger] v@[i] == ace_high_deck()[j],
        decreases 52 - k,
    {
        let c = Card { rank: 14 - (k / 4) as u8, suit: suit_char(k % 4) };
        assert(c == ace_high_deck()[k as int]);
        if !contains_card(dead, c) {
            proof {
                assert forall|i: int| 0 <= i < v@.len() implies v@[i] != c by {
                    let j = choose|j: int| 0 <= j < k && #[trigger] v@[i] == ace_high_deck()[j];
                    assert(ace_high_deck()[j] != ace_high_deck()[k as int]);
                }
            }
            v.push(c);
            proof {
                assert forall|i: int| 0 <= i < v@.len() implies exists|j: int|
                    0 <= j < k + 1 && #[trigger] v@[i] == ace_high_deck()[j] by {
                    if i < v@.len() - 1 {
                        let j = choose|j: int| 0 <= j < k && #[trigger] v@.drop_last()[i] == ace_high_deck()[j];
                        assert(v@[i] == v@.drop_last()[i]);
                    } else {
                        assert(v@[i] == ace_high_deck()[k as int]);
                    }
                }
            }
        }
        k = k + 1;
    }
    v
}

/// Deals two different random cards from the full deck less `dead`.
pub fn random_hand(dead: &[Card]) -> (h: [Card; 2])
    requires
        live_cards(dead@).len() >= 2,
    ensures
        live_cards(dead@).contains(h[0]),
        live_cards(dead@).contains(h[1]),
        h[0] != h[1],
{
    let mut deck = live_deck(dead);
    let ghost live = deck@;
    let mut rng = thread_rng();
    shuffle_cards(&mut rng, &mut deck);
    proof {
        live.lemma_multiset_has_no_duplicates();
        deck@.lemma_multiset_has_no_duplicates_conv();
        assert(deck@.to_multiset().count(deck@[0]) > 0);
        assert(deck@.to_multiset().count(deck@[1]) > 0);
    }
    [deck[0], deck[1]]
}

} // verus!
