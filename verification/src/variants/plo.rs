pub mod blockers;

use vstd::prelude::*;
use crate::poker::board::Board;
use crate::poker::cards::Card;
use crate::poker::ranking::{HandRank, evaluate_5, hand_value, omit_two, ranks_valid, lemma_omit_two_valid};

verus! {

/// The two hole cards used by the `p`-th of the six pairs, in the order
/// (0,1) (0,2) (0,3) (1,2) (1,3) (2,3).
pub open spec fn hole_pair(p: int) -> (int, int) {
    if p == 0 {
        (0, 1)
    } else if p == 1 {
        (0, 2)
    } else if p == 2 {
        (0, 3)
    } else if p == 3 {
        (1, 2)
    } else if p == 4 {
        (1, 3)
    } else {
        (2, 3)
    }
}

/// The two board cards left out by the `q`-th of the ten board triples,
/// whose kept cards run (0,1,2) (0,1,3) (0,1,4) (0,2,3) (0,2,4) (0,3,4)
/// (1,2,3) (1,2,4) (1,3,4) (2,3,4).
pub open spec fn board_omission(q: int) -> (int, int) {
    if q == 0 {
        (3, 4)
    } else if q == 1 {
        (2, 4)
    } else if q == 2 {
        (2, 3)
    } else if q == 3 {
        (1, 4)
    } else if q == 4 {
        (1, 3)
    } else if q == 5 {
        (1, 2)
    } else if q == 6 {
        (0, 4)
    } else if q == 7 {
        (0, 3)
    } else if q == 8 {
        (0, 2)
    } else {
        (0, 1)
    }
}

/// An Omaha hand: hole cards `i` and `j` with the board less the cards at
/// `a` and `b`.
pub open spec fn omaha_hand(hole: Seq<Card>, board: Seq<Card>, i: int, j: int, a: int, b: int) -> Seq<
    Card,
> {
    seq![hole[i], hole[j]] + omit_two(board, a, b)
}

/// `v` is the value of the best Omaha hand: exactly two of the four hole
/// cards with exactly three of the five board cards.
pub open spec fn best_of_omaha(hole: Seq<Card>, board: Seq<Card>, v: int) -> bool {
    &&& forall|i: int, j: int, a: int, b: int|
        0 <= i < j < 4 && 0 <= a < b < 5 ==> v >= #[trigger] hand_value(
            omaha_hand(hole, board, i, j, a, b),
        )
    &&& exists|i: int, j: int, a: int, b: int|
        0 <= i < j < 4 && 0 <= a < b < 5 && v == #[trigger] hand_value(
            omaha_hand(hole, board, i, j, a, b),
        )
}

/// The five cards `c0 c1 c2 c3 c4`, in that order.
pub open spec fn five_cards(c0: Card, c1: Card, c2: Card, c3: Card, c4: Card) -> Seq<Card> {
    seq![c0, c1, c2, c3, c4]
}

/// The board cards at `p < q < r` are what is left of the board when the
/// other two are left out.
proof fn lemma_three_of_five(board: Seq<Card>, p: int, q: int, r: int) -> (ab: (int, int))
    requires
        board.len() == 5,
        0 <= p < q < r < 5,
    ensures
        0 <= ab.0 < ab.1 < 5,
        omit_two(board, ab.0, ab.1) == seq![board[p], board[q], board[r]],
{
    let ab: (int, int) = if p == 0 && q == 1 && r == 2 {
        (3, 4)
    } else if p == 0 && q == 1 && r == 3 {
        (2, 4)
    } else if p == 0 && q == 1 {
        (2, 3)
    } else if p == 0 && q == 2 && r == 3 {
        (1, 4)
    } else if p == 0 && q == 2 {
        (1, 3)
    } else if p == 0 {
        (1, 2)
    } else if p == 1 && q == 2 && r == 3 {
        (0, 4)
    } else if p == 1 && q == 2 {
        (0, 3)
    } else if p == 1 {
        (0, 2)
    } else {
        (0, 1)
    };
    assert(omit_two(board, ab.0, ab.1) =~= seq![board[p], board[q], board[r]]);
    ab
}

/// The Omaha value is the best over every hand of two different hole cards
/// and three different board cards: it is at least the value of each such
/// hand, and it is the value of one of them.
pub proof fn law_omaha_best_over_choices(hole: Seq<Card>, board: Seq<Card>, v: int)
    requires
        hole.len() == 4,
        board.len() == 5,
        best_of_omaha(hole, board, v),
    ensures
        forall|i: int, j: int, p: int, q: int, r: int|
            0 <= i < j < 4 && 0 <= p < q < r < 5 ==> v >= #[trigger] hand_value(
                five_cards(hole[i], hole[j], board[p], board[q], board[r]),
            ),
        exists|i: int, j: int, p: int, q: int, r: int|
            0 <= i < j < 4 && 0 <= p < q < r < 5 && v == #[trigger] hand_value(
                five_cards(hole[i], hole[j], board[p], board[q], board[r]),
            ),
{
    assert forall|i: int, j: int, p: int, q: int, r: int|
        0 <= i < j < 4 && 0 <= p < q < r < 5 implies v >= #[trigger] hand_value(
        five_cards(hole[i], hole[j], board[p], board[q], board[r]),
    ) by {
        let ab = lemma_three_of_five(board, p, q, r);
        assert(omaha_hand(hole, board, i, j, ab.0, ab.1) =~= five_cards(
            hole[i],
            hole[j],
            board[p],
            board[q],
            board[r],
        ));
        assert(v >= hand_value(omaha_hand(hole, board, i, j, ab.0, ab.1)));
    }
    let (i, j, a, b) = choose|i: int, j: int, a: int, b: int|
        0 <= i < j < 4 && 0 <= a < b < 5 && v == #[trigger] hand_value(
            omaha_hand(hole, board, i, j, a, b),
        );
    let p: int = if 0 < a { 0 } else if 1 < b { 1 } else { 2 };
    let q: int = if 1 < a { 1 } else if 2 < b { 2 } else { 3 };
    let r: int = if 2 < a { 2 } else if 3 < b { 3 } else { 4 };
    assert(omaha_hand(hole, board, i, j, a, b) =~= five_cards(hole[i], hole[j], board[p], board[q], board[r]));
    assert(v == hand_value(five_cards(hole[i], hole[j], board[p], board[q], board[r])));
}

proof fn lemma_pairs_cover(i: int, j: int)
    requires
        0 <= i < j < 4,
    ensures
        exists|p: int| 0 <= p < 6 && #[trigger] hole_pair(p) == (i, j),
{
    let p = if i == 0 {
        j - 1
    } else if i == 1 {
        j + 1
    } else {
        5
    };
    assert(hole_pair(p) == (i, j));
}

proof fn lemma_omissions_cover(a: int, b: int)
    requires
        0 <= a < b < 5,
    ensures
        exists|q: int| 0 <= q < 10 && #[trigger] board_omission(q) == (a, b),
{
    let q = if a == 0 {
        10 - b
    } else if a == 1 {
        7 - b
    } else if a == 2 {
        5 - b
    } else {
        0
    };
    assert(board_omission(q) == (a, b));
}

pub(crate) fn hole_pair_exec(p: usize) -> (r: (usize, usize))
    requires
        p < 6,
    ensures
        r.0 as int == hole_pair(p as int).0,
        r.1 as int == hole_pair(p as int).1,
        r.0 < 4,
        r.1 < 4,
{
    if p == 0 {
        (0, 1)
    } else if p == 1 {
        (0, 2)
    } else if p == 2 {
        (0, 3)
    } else if p == 3 {
        (1, 2)
    } else if p == 4 {
        (1, 3)
    } else {
        (2, 3)
    }
}

fn board_omission_exec(q: usize) -> (r: (usize, usize))
    requires
        q < 10,
    ensures
        r.0 as int == board_omission(q as int).0,
        r.1 as int == board_omission(q as int).1,
{
    if q == 0 {
        (3, 4)
    } else if q == 1 {
        (2, 4)
    } else if q == 2 {
        (2, 3)
    } else if q == 3 {
        (1, 4)
    } else if q == 4 {
        (1, 3)
    } else if q == 5 {
        (1, 2)
    } else if q == 6 {
        (0, 4)
    } else if q == 7 {
        (0, 3)
    } else if q == 8 {
        (0, 2)
    } else {
        (0, 1)
    }
}

fn omaha_five(hole: &[Card; 4], board: &Vec<Card>, i: usize, j: usize, a: usize, b: usize) -> (r: [Card; 5])
    requires
        i < j < 4,
        a < b < 5,
        board@.len() == 5,
    ensures
        r@ == omaha_hand(hole@, board@, i as int, j as int, a as int, b as int),
{
    let k0: usize = if 0 < a { 0 } else if 1 < b { 1 } else { 2 };
    let k1: usize = if 1 < a { 1 } else if 2 < b { 2 } else { 3 };
    let k2: usize = if 2 < a { 2 } else if 3 < b { 3 } else { 4 };
    let r = [hole[i], hole[j], board[k0], board[k1], board[k2]];
    assert(r@ =~= omaha_hand(hole@, board@, i as int, j as int, a as int, b as int));
    r
}

/// Evaluates an Omaha hand as the best combination of exactly two hole
/// cards with exactly three board cards.
pub fn evaluate_hand(hole: &[Card; 4], board: &Board) -> (r: HandRank)
    requires
        board.cards@.len() == 5,
        ranks_valid(hole@),
        ranks_valid(board.cards@),
    ensures
        best_of_omaha(hole@, board.cards@, r.0 as int),
{
    let b = &board.cards;
    let mut best = HandRank(0);
    let ghost mut w: (int, int, int, int) = (0, 1, 3, 4);
    let mut p: usize = 0;
    while p < 6
        invariant
            p <= 6,
            b@.len() == 5,
            ranks_valid(hole@),
            ranks_valid(b@),
            forall|p2: int, q2: int|
                0 <= p2 < p && 0 <= q2 < 10 ==> best.0 >= #[trigger] hand_value(
                    omaha_hand(
                        hole@,
                        b@,
                        hole_pair(p2).0,
                        hole_pair(p2).1,
                        board_omission(q2).0,
                        board_omission(q2).1,
                    ),
                ),
            p > 0 ==> 0 <= w.0 < w.1 < 4 && 0 <= w.2 < w.3 < 5 && best.0 == hand_value(
                omaha_hand(hole@, b@, w.0, w.1, w.2, w.3),
            ),
            p == 0 ==> best.0 == 0,
        decreases 6 - p,
    {
        let (hi, hj) = hole_pair_exec(p);
        let mut q: usize = 0;
        while q < 10
            invariant
                p < 6,
                q <= 10,
                b@.len() == 5,
                ranks_valid(hole@),
                ranks_valid(b@),
                hi as int == hole_pair(p as int).0,
                hj as int == hole_pair(p as int).1,
                forall|p2: int, q2: int|
                    0 <= p2 < 6 && 0 <= q2 < 10 && (p2 < p || (p2 == p && q2 < q)) ==> best.0
                        >= #[trigger] hand_value(
                        omaha_hand(
                            hole@,
                            b@,
                            hole_pair(p2).0,
                            hole_pair(p2).1,
                            board_omission(q2).0,
                            board_omission(q2).1,
                        ),
                    ),
                (p > 0 || q > 0) ==> 0 <= w.0 < w.1 < 4 && 0 <= w.2 < w.3 < 5 && best.0
                    == hand_value(omaha_hand(hole@, b@, w.0, w.1, w.2, w.3)),
                (p == 0 && q == 0) ==> best.0 == 0,
            decreases 10 - q,
        {
            let (oa, ob) = board_omission_exec(q);
            let five = omaha_five(hole, b, hi, hj, oa, ob);
            proof {
                lemma_omit_two_valid(b@, oa as int, ob as int);
                assert(ranks_valid(five@)) by {
                    assert forall|k: int| 0 <= k < 5 implies #[trigger] five@[k].rank <= 14 by {
                        if k >= 2 {
                            assert(five@[k] == omit_two(b@, oa as int, ob as int)[k - 2]);
                        }
                    }
                }
            }
            let rank = evaluate_5(&five);
            if rank.0 > best.0 {
                best = rank;
            }
            proof {
                if best == rank {
                    w = (hi as int, hj as int, oa as int, ob as int);
                }
            }
            q = q + 1;
        }
        p = p + 1;
    }
    proof {
        assert forall|i: int, j: int, a: int, c: int|
            0 <= i < j < 4 && 0 <= a < c < 5 implies best.0 >= #[trigger] hand_value(
            omaha_hand(hole@, b@, i, j, a, c),
        ) by {
            lemma_pairs_cover(i, j);
            lemma_omissions_cover(a, c);
            let p2 = choose|p2: int| 0 <= p2 < 6 && #[trigger] hole_pair(p2) == (i, j);
            let q2 = choose|q2: int| 0 <= q2 < 10 && #[trigger] board_omission(q2) == (a, c);
            assert(best.0 >= hand_value(
                omaha_hand(
                    hole@,
                    b@,
                    hole_pair(p2).0,
                    hole_pair(p2).1,
                    board_omission(q2).0,
                    board_omission(q2).1,
                ),
            ));
        }
        assert(hand_value(omaha_hand(hole@, b@, w.0, w.1, w.2, w.3)) == best.0);
    }
    best
}

} // verus!
