use vstd::prelude::*;
use crate::poker::cards::Card;

verus! {

/// The strength of a five-card hand: the category times 2^20 plus the
/// ranks read in base 16 from the highest down. A greater value is a
/// stronger hand.
#[derive(Copy, Clone, Debug, PartialEq, Eq, PartialOrd, Ord, Structural)]
pub struct HandRank(pub u32);

/// Number of cards in `cs` whose rank is `r`.
pub open spec fn count_rank(cs: Seq<Card>, r: int) -> nat
    decreases cs.len(),
{
    if cs.len() == 0 {
        0
    } else {
        count_rank(cs.drop_last(), r) + if cs.last().rank == r {
            1nat
        } else {
            0nat
        }
    }
}

/// Number of cards in `cs` whose rank is at least `r`.
pub open spec fn count_at_least(cs: Seq<Card>, r: int) -> nat
    decreases cs.len(),
{
    if cs.len() == 0 {
        0
    } else {
        count_at_least(cs.drop_last(), r) + if cs.last().rank >= r {
            1nat
        } else {
            0nat
        }
    }
}

pub open spec fn has_rank(cs: Seq<Card>, r: int) -> bool {
    count_rank(cs, r) > 0
}

/// The five ranks `high, high-1, ..., high-4` all occur.
pub open spec fn has_run_to(cs: Seq<Card>, high: int) -> bool {
    &&& has_rank(cs, high)
    &&& has_rank(cs, high - 1)
    &&& has_rank(cs, high - 2)
    &&& has_rank(cs, high - 3)
    &&& has_rank(cs, high - 4)
}

/// Ace, five, four, three and two all occur.
pub open spec fn has_wheel(cs: Seq<Card>) -> bool {
    &&& has_rank(cs, 14)
    &&& has_rank(cs, 5)
    &&& has_rank(cs, 4)
    &&& has_rank(cs, 3)
    &&& has_rank(cs, 2)
}

pub open spec fn is_straight(cs: Seq<Card>) -> bool {
    has_wheel(cs) || exists|high: int| 5 <= high <= 14 && #[trigger] has_run_to(cs, high)
}

/// The low byte of the suit character, which is what suits are compared by.
pub open spec fn suit_byte(c: Card) -> u8 {
    #[verifier::truncate]
    (c.suit as u8)
}

pub open spec fn is_flush(cs: Seq<Card>) -> bool {
    forall|i: int| 0 <= i < cs.len() ==> #[trigger] suit_byte(cs[i]) == suit_byte(cs[0])
}

/// Number of ranks in `[0, hi)` that occur exactly `k` times in `cs`.
pub open spec fn ranks_with_count(cs: Seq<Card>, k: nat, hi: int) -> nat
    decreases hi,
{
    if hi <= 0 {
        0
    } else {
        ranks_with_count(cs, k, hi - 1) + if count_rank(cs, hi - 1) == k {
            1nat
        } else {
            0nat
        }
    }
}

pub open spec fn pairs(cs: Seq<Card>) -> nat {
    ranks_with_count(cs, 2, 15)
}

pub open spec fn trips(cs: Seq<Card>) -> nat {
    ranks_with_count(cs, 3, 15)
}

pub open spec fn quads(cs: Seq<Card>) -> nat {
    ranks_with_count(cs, 4, 15)
}

/// The category of a five-card hand: 8 straight flush, 7 four of a kind,
/// 6 full house, 5 flush, 4 straight, 3 three of a kind, 2 two pair,
/// 1 one pair, 0 high card.
pub open spec fn category(cs: Seq<Card>) -> int {
    if is_straight(cs) && is_flush(cs) {
        8
    } else if quads(cs) == 1 {
        7
    } else if trips(cs) == 1 && pairs(cs) == 1 {
        6
    } else if is_flush(cs) {
        5
    } else if is_straight(cs) {
        4
    } else if trips(cs) == 1 {
        3
    } else if pairs(cs) == 2 {
        2
    } else if pairs(cs) == 1 {
        1
    } else {
        0
    }
}

pub open spec fn repeat_rank(r: int, n: nat) -> Seq<int> {
    Seq::new(n, |_i: int| r)
}

/// The ranks of `cs` that are at least `r`, highest first.
pub open spec fn ranks_from(cs: Seq<Card>, r: int) -> Seq<int>
    decreases 15 - r,
{
    if r >= 15 {
        seq![]
    } else {
        ranks_from(cs, r + 1) + repeat_rank(r, count_rank(cs, r))
    }
}

/// All ranks of `cs` sorted from highest to lowest.
pub open spec fn descending_ranks(cs: Seq<Card>) -> Seq<int> {
    ranks_from(cs, 0)
}

/// The digits `s` read as a base-16 number, first digit most significant.
pub open spec fn base16(s: Seq<int>) -> int
    decreases s.len(),
{
    if s.len() == 0 {
        0
    } else {
        base16(s.drop_last()) * 16 + s.last()
    }
}

pub open spec fn pow16(n: nat) -> int
    decreases n,
{
    if n == 0 {
        1
    } else {
        16 * pow16((n - 1) as nat)
    }
}

/// Every rank is at most 14 (ace).
pub open spec fn ranks_valid(cs: Seq<Card>) -> bool {
    forall|i: int| 0 <= i < cs.len() ==> #[trigger] cs[i].rank <= 14
}

/// The value of a five-card hand: category, then the ranks from high to low.
pub open spec fn hand_value(cs: Seq<Card>) -> int {
    category(cs) * 0x100000 + base16(descending_ranks(cs))
}

proof fn lemma_count_split(cs: Seq<Card>, r: int)
    ensures
        count_at_least(cs, r) == count_at_least(cs, r + 1) + count_rank(cs, r),
    decreases cs.len(),
{
    if cs.len() > 0 {
        lemma_count_split(cs.drop_last(), r);
    }
}

proof fn lemma_count_at_least_bound(cs: Seq<Card>, r: int)
    ensures
        count_at_least(cs, r) <= cs.len(),
    decreases cs.len(),
{
    if cs.len() > 0 {
        lemma_count_at_least_bound(cs.drop_last(), r);
    }
}

proof fn lemma_count_at_least_zero(cs: Seq<Card>)
    ensures
        count_at_least(cs, 0) == cs.len(),
    decreases cs.len(),
{
    if cs.len() > 0 {
        lemma_count_at_least_zero(cs.drop_last());
    }
}

proof fn lemma_count_above_ace(cs: Seq<Card>)
    requires
        ranks_valid(cs),
    ensures
        count_at_least(cs, 15) == 0,
    decreases cs.len(),
{
    if cs.len() > 0 {
        assert(cs.last().rank <= 14);
        assert(ranks_valid(cs.drop_last())) by {
            assert forall|i: int| 0 <= i < cs.drop_last().len() implies #[trigger] cs.drop_last()[i].rank
                <= 14 by {
                assert(cs.drop_last()[i] == cs[i]);
            }
        }
        lemma_count_above_ace(cs.drop_last());
    }
}

proof fn lemma_ranks_from_shape(cs: Seq<Card>, r: int)
    requires
        ranks_valid(cs),
        0 <= r <= 15,
    ensures
        ranks_from(cs, r).len() == count_at_least(cs, r),
        forall|i: int| 0 <= i < ranks_from(cs, r).len() ==> r <= #[trigger] ranks_from(cs, r)[i] <= 14,
    decreases 15 - r,
{
    if r >= 15 {
        lemma_count_above_ace(cs);
    } else {
        lemma_ranks_from_shape(cs, r + 1);
        lemma_count_split(cs, r);
    }
}

/// The descending ranks of a valid hand are as many as its cards, each a
/// rank from 0 to 14.
proof fn lemma_descending_shape(cs: Seq<Card>)
    requires
        ranks_valid(cs),
    ensures
        descending_ranks(cs).len() == cs.len(),
        forall|i: int|
            0 <= i < descending_ranks(cs).len() ==> 0 <= #[trigger] descending_ranks(cs)[i] <= 14,
{
    lemma_ranks_from_shape(cs, 0);
    lemma_count_at_least_zero(cs);
}

proof fn lemma_base16_bound(s: Seq<int>)
    requires
        forall|i: int| 0 <= i < s.len() ==> 0 <= #[trigger] s[i] < 16,
    ensures
        0 <= base16(s) < pow16(s.len()),
    decreases s.len(),
{
    if s.len() > 0 {
        lemma_base16_bound(s.drop_last());
        assert(s.last() == s[s.len() - 1]);
    }
}

proof fn lemma_pow16_monotone(n: nat, m: nat)
    requires
        n <= m,
    ensures
        pow16(n) <= pow16(m),
    decreases m,
{
    if n < m {
        lemma_pow16_monotone(n, (m - 1) as nat);
        assert(pow16(m) == 16 * pow16((m - 1) as nat));
        lemma_pow16_positive((m - 1) as nat);
    }
}

proof fn lemma_pow16_positive(n: nat)
    ensures
        pow16(n) >= 1,
    decreases n,
{
    if n > 0 {
        lemma_pow16_positive((n - 1) as nat);
    }
}

fn count_of(cards: &[Card; 5], r: u8) -> (n: u8)
    ensures
        n == count_rank(cards@, r as int),
{
    let mut n: u8 = 0;
    let mut i: usize = 0;
    while i < 5
        invariant
            i <= 5,
            n == count_rank(cards@.take(i as int), r as int),
            n <= i,
        decreases 5 - i,
    {
        assert(cards@.take(i + 1).drop_last() =~= cards@.take(i as int));
        if cards[i].rank == r {
            n = n + 1;
        }
        i = i + 1;
    }
    assert(cards@.take(5) =~= cards@);
    n
}

fn has_run_to_exec(cards: &[Card; 5], high: u8) -> (b: bool)
    requires
        4 <= high,
    ensures
        b == has_run_to(cards@, high as int),
{
    count_of(cards, high) > 0 && count_of(cards, high - 1) > 0 && count_of(cards, high - 2) > 0
        && count_of(cards, high - 3) > 0 && count_of(cards, high - 4) > 0
}

fn straight_exec(cards: &[Card; 5]) -> (b: bool)
    ensures
        b == is_straight(cards@),
{
    let wheel = count_of(cards, 14) > 0 && count_of(cards, 5) > 0 && count_of(cards, 4) > 0
        && count_of(cards, 3) > 0 && count_of(cards, 2) > 0;
    let mut found = false;
    let mut high: u8 = 14;
    while high >= 5
        invariant
            4 <= high <= 14,
            found <==> exists|h: int| high < h <= 14 && #[trigger] has_run_to(cards@, h),
        decreases high,
    {
        if has_run_to_exec(cards, high) {
            found = true;
        }
        high = high - 1;
    }
    wheel || found
}

fn flush_exec(cards: &[Card; 5]) -> (b: bool)
    ensures
        b == is_flush(cards@),
{
    let first = #[verifier::truncate] (cards[0].suit as u8);
    let mut all = true;
    let mut i: usize = 1;
    while i < 5
        invariant
            1 <= i <= 5,
            first == suit_byte(cards@[0]),
            all <==> forall|j: int| 0 <= j < i ==> #[trigger] suit_byte(cards@[j]) == first,
        decreases 5 - i,
    {
        let sb = #[verifier::truncate] (cards[i].suit as u8);
        assert(sb == suit_byte(cards@[i as int]));
        if sb != first {
            all = false;
        }
        i = i + 1;
    }
    all
}

/// Evaluates a five-card hand.
pub fn evaluate_5(cards: &[Card; 5]) -> (r: HandRank)
    requires
        ranks_valid(cards@),
    ensures
        r.0 == hand_value(cards@),
{
    let is_flush = flush_exec(cards);
    let is_straight = straight_exec(cards);

    let mut pairs: u32 = 0;
    let mut trips: u32 = 0;
    let mut quads: u32 = 0;
    let mut r: u8 = 0;
    while r < 15
        invariant
            r <= 15,
            pairs == ranks_with_count(cards@, 2, r as int),
            trips == ranks_with_count(cards@, 3, r as int),
            quads == ranks_with_count(cards@, 4, r as int),
            pairs <= r,
            trips <= r,
            quads <= r,
        decreases 15 - r,
    {
        let c = count_of(cards, r);
        if c == 2 {
            pairs = pairs + 1;
        } else if c == 3 {
            trips = trips + 1;
        } else if c == 4 {
            quads = quads + 1;
        }
        r = r + 1;
    }

    let category: u32 = if is_straight && is_flush {
        8
    } else if quads == 1 {
        7
    } else if trips == 1 && pairs == 1 {
        6
    } else if is_flush {
        5
    } else if is_straight {
        4
    } else if trips == 1 {
        3
    } else if pairs == 2 {
        2
    } else if pairs == 1 {
        1
    } else {
        0
    };

    let mut kicker: u32 = 0;
    let mut top: u8 = 15;
    while top > 0
        invariant
            top <= 15,
            ranks_valid(cards@),
            kicker == base16(ranks_from(cards@, top as int)),
            ranks_from(cards@, top as int).len() <= 5,
        decreases top,
    {
        top = top - 1;
        let c = count_of(cards, top);
        proof {
            lemma_ranks_from_shape(cards@, top + 1);
            lemma_count_split(cards@, top as int);
            lemma_count_at_least_bound(cards@, top as int);
        }
        let ghost prefix = ranks_from(cards@, top + 1);
        let mut j: u8 = 0;
        while j < c
            invariant
                j <= c,
                c == count_rank(cards@, top as int),
                top <= 14,
                prefix.len() + c <= 5,
                forall|i: int| 0 <= i < prefix.len() ==> 0 <= #[trigger] prefix[i] <= 14,
                kicker == base16(prefix + repeat_rank(top as int, j as nat)),
            decreases c - j,
        {
            let ghost cur = prefix + repeat_rank(top as int, j as nat);
            proof {
                assert forall|i: int| 0 <= i < cur.len() implies 0 <= #[trigger] cur[i] < 16 by {
                    if i < prefix.len() {
                        assert(cur[i] == prefix[i]);
                    }
                }
                lemma_base16_bound(cur);
                assert(cur.len() <= 4);
                lemma_pow16_monotone(cur.len(), 4);
                assert(pow16(4) == 65536) by {
                    reveal_with_fuel(pow16, 5);
                }
                assert(kicker < 65536);
                assert((prefix + repeat_rank(top as int, (j + 1) as nat)).drop_last() =~= cur);
            }
            kicker = kicker * 16 + top as u32;
            j = j + 1;
        }
        assert(prefix + repeat_rank(top as int, c as nat) =~= ranks_from(cards@, top as int));
    }
    proof {
        lemma_descending_shape(cards@);
        lemma_base16_bound(descending_ranks(cards@));
        assert(pow16(5) == 0x100000) by {
            reveal_with_fuel(pow16, 6);
        }
    }
    HandRank(category * 0x100000 + kicker)
}

proof fn lemma_count_rank_remove(s: Seq<Card>, i: int, r: int)
    requires
        0 <= i < s.len(),
    ensures
        count_rank(s, r) == count_rank(s.remove(i), r) + if s[i].rank == r {
            1nat
        } else {
            0nat
        },
    decreases s.len(),
{
    if i < s.len() - 1 {
        lemma_count_rank_remove(s.drop_last(), i, r);
        assert(s.remove(i).drop_last() =~= s.drop_last().remove(i));
        assert(s.remove(i).last() == s.last());
    } else {
        assert(s.remove(i) =~= s.drop_last());
    }
}

proof fn lemma_count_rank_permutation(a: Seq<Card>, b: Seq<Card>, r: int)
    requires
        a.to_multiset() == b.to_multiset(),
    ensures
        count_rank(a, r) == count_rank(b, r),
    decreases a.len(),
{
    broadcast use vstd::seq_lib::group_to_multiset_ensures;

    if a.len() == 0 {
        if b.len() > 0 {
            assert(b.to_multiset().count(b[0]) > 0);
        }
    } else {
        let x = a.last();
        assert(a.to_multiset().count(x) > 0);
        assert(b.contains(x));
        let k = choose|k: int| 0 <= k < b.len() && b[k] == x;
        assert(a.drop_last() =~= a.remove(a.len() - 1));
        assert(a.drop_last().to_multiset() == b.remove(k).to_multiset());
        lemma_count_rank_permutation(a.drop_last(), b.remove(k), r);
        lemma_count_rank_remove(b, k, r);
    }
}

proof fn lemma_ranks_with_count_same(a: Seq<Card>, b: Seq<Card>, k: nat, hi: int)
    requires
        forall|r: int| count_rank(a, r) == count_rank(b, r),
    ensures
        ranks_with_count(a, k, hi) == ranks_with_count(b, k, hi),
    decreases hi,
{
    if hi > 0 {
        lemma_ranks_with_count_same(a, b, k, hi - 1);
    }
}

proof fn lemma_ranks_from_same(a: Seq<Card>, b: Seq<Card>, r: int)
    requires
        forall|q: int| count_rank(a, q) == count_rank(b, q),
    ensures
        ranks_from(a, r) == ranks_from(b, r),
    decreases 15 - r,
{
    if r < 15 {
        lemma_ranks_from_same(a, b, r + 1);
    }
}

/// A hand's value depends only on how many cards of each rank it holds and
/// on whether all its suits agree: hands alike in both have the same value.
pub proof fn law_hand_value_from_ranks_and_flush(a: Seq<Card>, b: Seq<Card>)
    requires
        forall|r: int| count_rank(a, r) == count_rank(b, r),
        is_flush(a) == is_flush(b),
    ensures
        hand_value(a) == hand_value(b),
{
    lemma_ranks_with_count_same(a, b, 2, 15);
    lemma_ranks_with_count_same(a, b, 3, 15);
    lemma_ranks_with_count_same(a, b, 4, 15);
    lemma_ranks_from_same(a, b, 0);
    assert(is_straight(a) == is_straight(b)) by {
        if is_straight(a) && !has_wheel(a) {
            let h = choose|h: int| 5 <= h <= 14 && #[trigger] has_run_to(a, h);
            assert(has_run_to(b, h));
        }
        if is_straight(b) && !has_wheel(b) {
            let h = choose|h: int| 5 <= h <= 14 && #[trigger] has_run_to(b, h);
            assert(has_run_to(a, h));
        }
    }
}

/// A hand's value does not depend on the order of its cards: two hands
/// holding the same cards, counted with multiplicity, have the same value.
pub proof fn law_hand_value_order_free(a: Seq<Card>, b: Seq<Card>)
    requires
        a.to_multiset() == b.to_multiset(),
    ensures
        hand_value(a) == hand_value(b),
{
    broadcast use vstd::seq_lib::group_to_multiset_ensures;

    assert forall|r: int| count_rank(a, r) == count_rank(b, r) by {
        lemma_count_rank_permutation(a, b, r);
    }
    vstd::seq_lib::to_multiset_len(a);
    vstd::seq_lib::to_multiset_len(b);
    assert(a.len() == b.len());
    if a.len() > 0 {
        assert forall|i: int| 0 <= i < b.len() implies b.to_multiset().count(b[i]) > 0 by {}
        assert forall|i: int| 0 <= i < a.len() implies a.to_multiset().count(a[i]) > 0 by {}
        assert(is_flush(a) == is_flush(b)) by {
            if is_flush(a) {
                assert forall|i: int| 0 <= i < b.len() implies #[trigger] suit_byte(b[i]) == suit_byte(
                    b[0],
                ) by {
                    assert(a.contains(b[i]));
                    assert(a.contains(b[0]));
                    let j = choose|j: int| 0 <= j < a.len() && a[j] == b[i];
                    let j0 = choose|j0: int| 0 <= j0 < a.len() && a[j0] == b[0];
                    assert(suit_byte(a[j]) == suit_byte(a[0]));
                    assert(suit_byte(a[j0]) == suit_byte(a[0]));
                }
            }
            if is_flush(b) {
                assert forall|i: int| 0 <= i < a.len() implies #[trigger] suit_byte(a[i]) == suit_byte(
                    a[0],
                ) by {
                    assert(b.contains(a[i]));
                    assert(b.contains(a[0]));
                    let j = choose|j: int| 0 <= j < b.len() && b[j] == a[i];
                    let j0 = choose|j0: int| 0 <= j0 < b.len() && b[j0] == a[0];
                    assert(suit_byte(b[j]) == suit_byte(b[0]));
                    assert(suit_byte(b[j0]) == suit_byte(b[0]));
                }
            }
        }
    }
    law_hand_value_from_ranks_and_flush(a, b);
}

/// `b` is `a` with its suits renamed: the same ranks at the same places,
/// and two places share a suit (by the low byte that suits are compared
/// by) in `b` exactly when they do in `a`.
pub open spec fn suits_renamed(a: Seq<Card>, b: Seq<Card>) -> bool {
    &&& a.len() == b.len()
    &&& forall|i: int| 0 <= i < a.len() ==> #[trigger] b[i].rank == a[i].rank
    &&& forall|i: int, j: int|
        0 <= i < a.len() && 0 <= j < a.len() ==> (suit_byte(a[i]) == suit_byte(a[j])) == (
        suit_byte(b[i]) == suit_byte(b[j]))
}

proof fn lemma_count_rank_same_ranks(a: Seq<Card>, b: Seq<Card>, r: int)
    requires
        a.len() == b.len(),
        forall|i: int| 0 <= i < a.len() ==> #[trigger] b[i].rank == a[i].rank,
    ensures
        count_rank(a, r) == count_rank(b, r),
    decreases a.len(),
{
    if a.len() > 0 {
        assert(b.last().rank == a.last().rank);
        lemma_count_rank_same_ranks(a.drop_last(), b.drop_last(), r);
    }
}

/// Renaming suits does not change a hand's value, as long as suits that
/// differed still differ in the byte they are compared by.
pub proof fn law_hand_value_suit_renaming(a: Seq<Card>, b: Seq<Card>)
    requires
        suits_renamed(a, b),
    ensures
        hand_value(a) == hand_value(b),
{
    assert forall|r: int| count_rank(a, r) == count_rank(b, r) by {
        lemma_count_rank_same_ranks(a, b, r);
    }
    if a.len() > 0 {
        assert(is_flush(a) == is_flush(b)) by {
            if is_flush(a) {
                assert forall|i: int| 0 <= i < b.len() implies #[trigger] suit_byte(b[i]) == suit_byte(
                    b[0],
                ) by {
                    assert(suit_byte(a[i]) == suit_byte(a[0]));
                }
            }
            if is_flush(b) {
                assert forall|i: int| 0 <= i < a.len() implies #[trigger] suit_byte(a[i]) == suit_byte(
                    a[0],
                ) by {
                    assert(suit_byte(b[i]) == suit_byte(b[0]));
                }
            }
        }
    }
    law_hand_value_from_ranks_and_flush(a, b);
}

/// The low byte of a character.
pub open spec fn low_byte(c: char) -> u8 {
    #[verifier::truncate]
    (c as u8)
}

/// Applying a suit map `f` to every card keeps a hand's value, when `f`
/// maps suits that share their low byte to suits that share it and keeps
/// the others apart (for instance any map among `h d c s`).
pub proof fn law_hand_value_suit_map(a: Seq<Card>, b: Seq<Card>, f: spec_fn(char) -> char)
    requires
        forall|x: char, y: char|
            #![trigger f(x), f(y)]
            (low_byte(x) == low_byte(y)) == (low_byte(f(x)) == low_byte(f(y))),
        b.len() == a.len(),
        forall|i: int| 0 <= i < a.len() ==> #[trigger] b[i] == (Card { rank: a[i].rank, suit: f(a[i].suit) }),
    ensures
        hand_value(a) == hand_value(b),
{
    assert forall|i: int, j: int| 0 <= i < a.len() && 0 <= j < a.len() implies (suit_byte(a[i])
        == suit_byte(a[j])) == (suit_byte(b[i]) == suit_byte(b[j])) by {
        let x = a[i].suit;
        let y = a[j].suit;
        assert(b[i].suit == f(x));
        assert(b[j].suit == f(y));
        assert((low_byte(x) == low_byte(y)) == (low_byte(f(x)) == low_byte(f(y))));
    }
    law_hand_value_suit_renaming(a, b);
}

/// Reordering the cards and then renaming the suits (keeping different
/// suits apart by the byte they are compared by) keeps a hand's value.
pub proof fn law_hand_value_reorder_and_rename(a: Seq<Card>, c: Seq<Card>, b: Seq<Card>)
    requires
        a.to_multiset() == c.to_multiset(),
        suits_renamed(c, b),
    ensures
        hand_value(a) == hand_value(b),
{
    law_hand_value_order_free(a, c);
    law_hand_value_suit_renaming(c, b);
}

/// The value of a valid five-card hand splits into its category, the value
/// shifted right by 20 bits, and its ranks read in base 16, the low 20 bits.
pub proof fn law_hand_value_split(cs: Seq<Card>)
    requires
        cs.len() == 5,
        ranks_valid(cs),
    ensures
        0 <= base16(descending_ranks(cs)) < 0x100000,
        0 <= category(cs) <= 8,
        hand_value(cs) / 0x100000 == category(cs),
        hand_value(cs) % 0x100000 == base16(descending_ranks(cs)),
        0 <= hand_value(cs) < 9 * 0x100000,
{
    lemma_descending_shape(cs);
    lemma_base16_bound(descending_ranks(cs));
    assert(pow16(5) == 0x100000) by {
        reveal_with_fuel(pow16, 6);
    }
    let k = base16(descending_ranks(cs));
    let c = category(cs);
    vstd::arithmetic::div_mod::lemma_fundamental_div_mod_converse(
        c * 0x100000 + k,
        0x100000,
        c,
        k,
    );
}

/// Categories order hands: of two valid five-card hands, the one of the
/// higher category has the higher value, whatever the ranks; and every
/// category lies between 0 and 8.
pub proof fn law_category_dominates(a: Seq<Card>, b: Seq<Card>)
    requires
        a.len() == 5,
        b.len() == 5,
        ranks_valid(a),
        ranks_valid(b),
    ensures
        0 <= category(a) <= 8,
        category(a) > category(b) ==> hand_value(a) > hand_value(b),
{
    lemma_descending_shape(a);
    lemma_descending_shape(b);
    lemma_base16_bound(descending_ranks(a));
    lemma_base16_bound(descending_ranks(b));
    assert(pow16(5) == 0x100000) by {
        reveal_with_fuel(pow16, 6);
    }
}

proof fn lemma_no_repeated_rank(cs: Seq<Card>, k: nat, hi: int)
    requires
        k >= 2,
        forall|x: int| count_rank(cs, x) <= 1,
    ensures
        ranks_with_count(cs, k, hi) == 0,
    decreases hi,
{
    if hi > 0 {
        lemma_no_repeated_rank(cs, k, hi - 1);
        assert(count_rank(cs, hi - 1) <= 1);
    }
}

proof fn lemma_counts_of_five_distinct(cs: Seq<Card>)
    requires
        cs.len() == 5,
        forall|i: int, j: int| 0 <= i < j < 5 ==> cs[i].rank != cs[j].rank,
    ensures
        forall|i: int| 0 <= i < 5 ==> #[trigger] count_rank(cs, cs[i].rank as int) == 1,
        forall|x: int| count_rank(cs, x) <= 1,
{
    assert forall|x: int| #[trigger] count_rank(cs, x) == (if cs[0].rank == x { 1int } else { 0 }) + (
    if cs[1].rank == x { 1int } else { 0 }) + (if cs[2].rank == x { 1int } else { 0 }) + (if cs[3].rank
        == x { 1int } else { 0 }) + (if cs[4].rank == x { 1int } else { 0 }) by {
        reveal_with_fuel(count_rank, 6);
        assert(cs.drop_last().drop_last().drop_last().drop_last().drop_last().len() == 0);
    }
}

/// Five cards of consecutive ranks `r, r+1, r+2, r+3, r+4` (for `r` from 1
/// up to 10) are a straight: their category is 4, or 8 when all suits
/// agree, and the hand beats every hand below a straight.
pub proof fn law_consecutive_ranks_straight(cs: Seq<Card>, r: int)
    requires
        cs.len() == 5,
        1 <= r <= 10,
        forall|k: int| 0 <= k < 5 ==> #[trigger] cs[k].rank == r + k,
    ensures
        is_straight(cs),
        category(cs) == (if is_flush(cs) { 8int } else { 4int }),
        hand_value(cs) >= 4 * 0x100000,
{
    lemma_counts_of_five_distinct(cs);
    assert(count_rank(cs, cs[0].rank as int) == 1);
    assert(count_rank(cs, cs[1].rank as int) == 1);
    assert(count_rank(cs, cs[2].rank as int) == 1);
    assert(count_rank(cs, cs[3].rank as int) == 1);
    assert(count_rank(cs, cs[4].rank as int) == 1);
    assert(has_run_to(cs, r + 4));
    lemma_no_repeated_rank(cs, 2, 15);
    lemma_no_repeated_rank(cs, 3, 15);
    lemma_no_repeated_rank(cs, 4, 15);
    assert(ranks_valid(cs));
    lemma_descending_shape(cs);
    lemma_base16_bound(descending_ranks(cs));
}

/// Ace, two, three, four and five (the wheel) are a straight: category 4,
/// or 8 when all suits agree.
pub proof fn law_wheel_straight(cs: Seq<Card>)
    requires
        cs.len() == 5,
        cs[0].rank == 14,
        forall|k: int| 1 <= k < 5 ==> #[trigger] cs[k].rank == k + 1,
    ensures
        is_straight(cs),
        category(cs) == (if is_flush(cs) { 8int } else { 4int }),
        hand_value(cs) >= 4 * 0x100000,
{
    assert(cs[1].rank == 2 && cs[2].rank == 3 && cs[3].rank == 4 && cs[4].rank == 5);
    lemma_counts_of_five_distinct(cs);
    assert(count_rank(cs, cs[0].rank as int) == 1);
    assert(count_rank(cs, cs[1].rank as int) == 1);
    assert(count_rank(cs, cs[2].rank as int) == 1);
    assert(count_rank(cs, cs[3].rank as int) == 1);
    assert(count_rank(cs, cs[4].rank as int) == 1);
    assert(has_wheel(cs));
    lemma_no_repeated_rank(cs, 2, 15);
    lemma_no_repeated_rank(cs, 3, 15);
    lemma_no_repeated_rank(cs, 4, 15);
    assert(ranks_valid(cs));
    lemma_descending_shape(cs);
    lemma_base16_bound(descending_ranks(cs));
}

/// The hand that keeps five of seven cards, leaving out those at `a` and `b`.
pub open spec fn omit_two(cs: Seq<Card>, a: int, b: int) -> Seq<Card> {
    cs.remove(b).remove(a)
}

/// `v` is the value of the best five-card hand among the seven cards `cs`:
/// no hand that leaves out two of them is worth more, and one is worth `v`.
pub open spec fn best_of_seven(cs: Seq<Card>, v: int) -> bool {
    &&& forall|a: int, b: int| 0 <= a < b < 7 ==> v >= #[trigger] hand_value(omit_two(cs, a, b))
    &&& exists|a: int, b: int| 0 <= a < b < 7 && v == #[trigger] hand_value(omit_two(cs, a, b))
}

pub proof fn lemma_omit_two_valid(cs: Seq<Card>, a: int, b: int)
    requires
        ranks_valid(cs),
        0 <= a < b < cs.len(),
    ensures
        ranks_valid(omit_two(cs, a, b)),
        omit_two(cs, a, b).len() == cs.len() - 2,
{
    let o = omit_two(cs, a, b);
    assert forall|i: int| 0 <= i < o.len() implies #[trigger] o[i].rank <= 14 by {
        let r = cs.remove(b);
        if i < a {
            assert(o[i] == r[i]);
        } else {
            assert(o[i] == r[i + 1]);
        }
        assert(r[i] == cs[i] || r[i] == cs[i + 1]);
        assert(r[i + 1] == cs[i + 1] || r[i + 1] == cs[i + 2]);
    }
}

/// The five of seven cards that remain when those at `a < b` are left out.
fn omit_two_of_seven(cards: &[Card; 7], a: usize, b: usize) -> (r: [Card; 5])
    requires
        a < b < 7,
    ensures
        r@ == omit_two(cards@, a as int, b as int),
{
    let k0: usize = if 0 < a { 0 } else if 1 < b { 1 } else { 2 };
    let k1: usize = if 1 < a { 1 } else if 2 < b { 2 } else { 3 };
    let k2: usize = if 2 < a { 2 } else if 3 < b { 3 } else { 4 };
    let k3: usize = if 3 < a { 3 } else if 4 < b { 4 } else { 5 };
    let k4: usize = if 4 < a { 4 } else if 5 < b { 5 } else { 6 };
    let r = [cards[k0], cards[k1], cards[k2], cards[k3], cards[k4]];
    assert(r@ =~= omit_two(cards@, a as int, b as int));
    r
}

/// Evaluates seven cards as the best five-card hand among them.
pub fn evaluate_7(cards: &[Card; 7]) -> (r: HandRank)
    requires
        ranks_valid(cards@),
    ensures
        best_of_seven(cards@, r.0 as int),
{
    let mut best = HandRank(0);
    let ghost mut wa: int = 0;
    let ghost mut wb: int = 1;
    let mut a: usize = 0;
    while a < 7
        invariant
            a <= 7,
            ranks_valid(cards@),
            forall|x: int, y: int|
                0 <= x < y < 7 && x < a ==> best.0 >= #[trigger] hand_value(omit_two(cards@, x, y)),
            a > 0 ==> 0 <= wa < wb < 7 && best.0 == hand_value(omit_two(cards@, wa, wb)),
            a == 0 ==> best.0 == 0,
        decreases 7 - a,
    {
        let mut b: usize = a + 1;
        while b < 7
            invariant
                a < 7,
                a + 1 <= b <= 7,
                ranks_valid(cards@),
                forall|x: int, y: int|
                    0 <= x < y < 7 && (x < a || (x == a && y < b)) ==> best.0 >= #[trigger] hand_value(
                        omit_two(cards@, x, y),
                    ),
                (a > 0 || b > a + 1) ==> 0 <= wa < wb < 7 && best.0 == hand_value(
                    omit_two(cards@, wa, wb),
                ),
                (a == 0 && b == 1) ==> best.0 == 0,
            decreases 7 - b,
        {
            let five = omit_two_of_seven(cards, a, b);
            proof {
                lemma_omit_two_valid(cards@, a as int, b as int);
            }
            let rank = evaluate_5(&five);
            if rank.0 > best.0 {
                best = rank;
            }
            proof {
                if best == rank {
                    wa = a as int;
                    wb = b as int;
                }
            }
            b = b + 1;
        }
        a = a + 1;
    }
    best
}

/// Whether every card has a rank of at most 14.
pub fn ranks_are_valid(cards: &[Card]) -> (r: bool)
    ensures
        r == ranks_valid(cards@),
{
    let mut i: usize = 0;
    while i < cards.len()
        invariant
            i <= cards@.len(),
            forall|j: int| 0 <= j < i ==> #[trigger] cards@[j].rank <= 14,
        decreases cards@.len() - i,
    {
        if cards[i].rank > 14 {
            return false;
        }
        i = i + 1;
    }
    true
}

} // verus!
