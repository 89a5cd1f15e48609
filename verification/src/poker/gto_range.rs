use std::str::FromStr;
use vstd::prelude::*;
use vstd::string::*;
use crate::poker::cards::Card;
use crate::poker::deck::{suit_at, suit_char};
use crate::poker::text::{str_equals, to_upper, upper_case, ascii_upper};
use vstd::utf8::is_ascii_chars;
use crate::variants::plo::{hole_pair, hole_pair_exec};

verus! {

/// A seat, or the defending role, that a preflop range belongs to.
#[derive(Debug, Clone, Copy, PartialEq, Eq, Hash, Structural)]
pub enum Position {
    UTG,
    HJ,
    CO,
    MP,
    Defend,
    BTN,
    SB,
    BB,
}

/// A preflop action that a range belongs to.
#[derive(Debug, Clone, Copy, PartialEq, Eq, Hash, Structural)]
pub enum Action {
    Open,
    Call,
    Defend,
    ThreeBet,
    FourBet,
}

/// The position an upper-cased name denotes. The name `"Defend"` is matched
/// as written, so an upper-cased text never reaches it.
pub open spec fn position_named(u: Seq<char>) -> Result<Position, ()> {
    if u == "UTG"@ {
        Ok(Position::UTG)
    } else if u == "HJ"@ {
        Ok(Position::HJ)
    } else if u == "CO"@ {
        Ok(Position::CO)
    } else if u == "MP"@ {
        Ok(Position::MP)
    } else if u == "Defend"@ {
        Ok(Position::Defend)
    } else if u == "BTN"@ {
        Ok(Position::BTN)
    } else if u == "SB"@ {
        Ok(Position::SB)
    } else if u == "BB"@ {
        Ok(Position::BB)
    } else {
        Err(())
    }
}

/// The action an upper-cased name denotes; `Defend` has no name.
pub open spec fn action_named(u: Seq<char>) -> Result<Action, ()> {
    if u == "OPEN"@ {
        Ok(Action::Open)
    } else if u == "CALL"@ {
        Ok(Action::Call)
    } else if u == "3BET"@ || u == "THREEBET"@ {
        Ok(Action::ThreeBet)
    } else if u == "4BET"@ || u == "FOURBET"@ {
        Ok(Action::FourBet)
    } else {
        Err(())
    }
}

impl Position {
    /// The position named by an already upper-cased text.
    pub fn from_upper(u: &str) -> (r: Result<Position, ()>)
        ensures
            r == position_named(u@),
    {
        if str_equals(u, "UTG") {
            Ok(Position::UTG)
        } else if str_equals(u, "HJ") {
            Ok(Position::HJ)
        } else if str_equals(u, "CO") {
            Ok(Position::CO)
        } else if str_equals(u, "MP") {
            Ok(Position::MP)
        } else if str_equals(u, "Defend") {
            Ok(Position::Defend)
        } else if str_equals(u, "BTN") {
            Ok(Position::BTN)
        } else if str_equals(u, "SB") {
            Ok(Position::SB)
        } else if str_equals(u, "BB") {
            Ok(Position::BB)
        } else {
            Err(())
        }
    }

    /// Parses a position name in any letter case.
    pub fn parse(s: &str) -> (r: Result<Position, ()>)
        ensures
            r == position_named(upper_case(s@)),
            is_ascii_chars(s@) ==> r == position_named(ascii_upper(s@)),
    {
        let u = to_upper(s);
        Position::from_upper(u.as_str())
    }
}

impl Action {
    /// The action named by an already upper-cased text.
    pub fn from_upper(u: &str) -> (r: Result<Action, ()>)
        ensures
            r == action_named(u@),
    {
        if str_equals(u, "OPEN") {
            Ok(Action::Open)
        } else if str_equals(u, "CALL") {
            Ok(Action::Call)
        } else if str_equals(u, "3BET") || str_equals(u, "THREEBET") {
            Ok(Action::ThreeBet)
        } else if str_equals(u, "4BET") || str_equals(u, "FOURBET") {
            Ok(Action::FourBet)
        } else {
            Err(())
        }
    }

    /// Parses an action name in any letter case.
    pub fn parse(s: &str) -> (r: Result<Action, ()>)
        ensures
            r == action_named(upper_case(s@)),
            is_ascii_chars(s@) ==> r == action_named(ascii_upper(s@)),
    {
        let u = to_upper(s);
        Action::from_upper(u.as_str())
    }
}

impl FromStr for Position {
    type Err = ();

    fn from_str(s: &str) -> (r: Result<Self, Self::Err>)
        ensures
            r == position_named(upper_case(s@)),
            is_ascii_chars(s@) ==> r == position_named(ascii_upper(s@)),
    {
        Position::parse(s)
    }
}

impl FromStr for Action {
    type Err = ();

    fn from_str(s: &str) -> (r: Result<Self, Self::Err>)
        ensures
            r == action_named(upper_case(s@)),
            is_ascii_chars(s@) ==> r == action_named(ascii_upper(s@)),
    {
        Action::parse(s)
    }
}

/// Whether `c` is one of the rank symbols `A K Q J T 9 8 7 6 5 4 3 2`.
pub open spec fn is_rank_symbol(c: char) -> bool {
    c == 'A' || c == 'K' || c == 'Q' || c == 'J' || c == 'T' || ('2' <= c && c <= '9')
}

/// The rank a rank symbol stands for: ace 14 down to two 2.
pub open spec fn rank_value(c: char) -> u8 {
    if c == 'A' {
        14
    } else if c == 'K' {
        13
    } else if c == 'Q' {
        12
    } else if c == 'J' {
        11
    } else if c == 'T' {
        10
    } else {
        (c as u32 - '0' as u32) as u8
    }
}

pub(crate) fn rank_to_value(c: char) -> (r: u8)
    requires
        is_rank_symbol(c),
    ensures
        r == rank_value(c),
        2 <= r <= 14,
{
    match c {
        'A' => 14,
        'K' => 13,
        'Q' => 12,
        'J' => 11,
        'T' => 10,
        '9' => 9,
        '8' => 8,
        '7' => 7,
        '6' => 6,
        '5' => 5,
        '4' => 4,
        '3' => 3,
        _ => 2,
    }
}

/// The suit pair of the `k`-th combination of two different cards of one
/// rank: (h,d) (h,c) (h,s) (d,c) (d,s) (c,s).
pub open spec fn pair_combo(r: u8, k: int) -> [Card; 2] {
    [
        Card { rank: r, suit: suit_at(hole_pair(k).0) },
        Card { rank: r, suit: suit_at(hole_pair(k).1) },
    ]
}

/// The `k`-th of the twelve offsuit combinations, the first card's suit
/// running slowest and each second suit skipping the first.
pub open spec fn offsuit_suits(k: int) -> (int, int) {
    let s1 = k / 3;
    let j = k % 3;
    (s1, if j < s1 {
        j
    } else {
        j + 1
    })
}

pub open spec fn two_cards(r1: u8, s1: int, r2: u8, s2: int) -> [Card; 2] {
    [Card { rank: r1, suit: suit_at(s1) }, Card { rank: r2, suit: suit_at(s2) }]
}

/// The card combinations a hand code such as `"AKs"`, `"T9o"` or `"77"`
/// stands for. A pair gives its six combinations; otherwise `s` gives the
/// four suited ones, `o` the twelve offsuit ones, and anything else all
/// sixteen, suits in the order h d c s. A code of fewer than two characters
/// gives none.
pub open spec fn combos_of_code(cs: Seq<char>) -> Seq<[Card; 2]> {
    if cs.len() < 2 {
        seq![]
    } else {
        let r1 = rank_value(cs[0]);
        let r2 = rank_value(cs[1]);
        let suited = cs.len() == 3 && cs[2] == 's';
        let offsuit = cs.len() == 3 && cs[2] == 'o';
        if r1 == r2 {
            Seq::new(6, |k: int| pair_combo(r1, k))
        } else if suited {
            Seq::new(4, |k: int| two_cards(r1, k, r2, k))
        } else if offsuit {
            Seq::new(12, |k: int| two_cards(r1, offsuit_suits(k).0, r2, offsuit_suits(k).1))
        } else {
            Seq::new(16, |k: int| two_cards(r1, k / 4, r2, k % 4))
        }
    }
}

/// A hand code that starts with two rank symbols, or is shorter than two.
pub open spec fn hand_code_ranks_valid(cs: Seq<char>) -> bool {
    cs.len() >= 2 ==> is_rank_symbol(cs[0]) && is_rank_symbol(cs[1])
}

/// The combinations of a hand code: six for a pair, four when suited,
/// twelve when offsuit, sixteen otherwise; each is two different cards of
/// the code's ranks, of one suit when suited and of two suits when offsuit
/// or a pair.
pub proof fn law_combo_shapes(cs: Seq<char>)
    requires
        cs.len() >= 2,
        hand_code_ranks_valid(cs),
    ensures
        ({
            let v = combos_of_code(cs);
            let r1 = rank_value(cs[0]);
            let r2 = rank_value(cs[1]);
            &&& r1 == r2 ==> v.len() == 6
            &&& r1 != r2 && cs.len() == 3 && cs[2] == 's' ==> v.len() == 4
            &&& r1 != r2 && cs.len() == 3 && cs[2] == 'o' ==> v.len() == 12
            &&& r1 != r2 && !(cs.len() == 3 && (cs[2] == 's' || cs[2] == 'o')) ==> v.len() == 16
            &&& forall|k: int|
                0 <= k < v.len() ==> {
                    &&& #[trigger] v[k][0] != v[k][1]
                    &&& v[k][0].rank == r1
                    &&& v[k][1].rank == r2
                    &&& (r1 == r2 || (cs.len() == 3 && cs[2] == 'o')) ==> v[k][0].suit != v[k][1].suit
                    &&& (r1 != r2 && cs.len() == 3 && cs[2] == 's') ==> v[k][0].suit == v[k][1].suit
                }
        }),
{
}

/// Lists the two-card combinations that a hand code stands for.
pub fn expand_hand_to_combos(code: &str) -> (v: Vec<[Card; 2]>)
    requires
        hand_code_ranks_valid(code@),
    ensures
        v@ == combos_of_code(code@),
{
    let n = code.unicode_len();
    let mut combos: Vec<[Card; 2]> = Vec::new();
    if n < 2 {
        return combos;
    }
    let r1 = rank_to_value(code.get_char(0));
    let r2 = rank_to_value(code.get_char(1));
    let suited = n == 3 && code.get_char(2) == 's';
    let offsuit = n == 3 && code.get_char(2) == 'o';
    let ghost target = combos_of_code(code@);
    if r1 == r2 {
        let mut k: usize = 0;
        while k < 6
            invariant
                k <= 6,
                r1 == r2,
                target == Seq::new(6, |k: int| pair_combo(r1, k)),
                combos@ == target.take(k as int),
            decreases 6 - k,
        {
            let (i, j) = hole_pair_exec(k);
            combos.push([Card { rank: r1, suit: suit_char(i) }, Card { rank: r2, suit: suit_char(j) }]);
            assert(combos@ =~= target.take(k + 1));
            k = k + 1;
        }
        assert(target.take(6) =~= target);
        return combos;
    }
    let mut s1: usize = 0;
    while s1 < 4
        invariant
            s1 <= 4,
            r1 != r2,
            n == code@.len(),
            n >= 2,
            r1 == rank_value(code@[0]),
            r2 == rank_value(code@[1]),
            suited == (n == 3 && code@[2] == 's'),
            offsuit == (n == 3 && code@[2] == 'o'),
            target == combos_of_code(code@),
            suited ==> combos@ == target.take(s1 as int),
            offsuit ==> combos@ == target.take(3 * s1),
            !suited && !offsuit ==> combos@ == target.take(4 * s1),
        decreases 4 - s1,
    {
        let mut s2: usize = 0;
        while s2 < 4
            invariant
                s1 < 4,
                s2 <= 4,
                r1 != r2,
                n == code@.len(),
                n >= 2,
                r1 == rank_value(code@[0]),
                r2 == rank_value(code@[1]),
                suited == (n == 3 && code@[2] == 's'),
                offsuit == (n == 3 && code@[2] == 'o'),
                target == combos_of_code(code@),
                suited ==> combos@ == target.take(s1 + if s2 > s1 { 1int } else { 0int }),
                offsuit ==> combos@ == target.take(3 * s1 + if s2 > s1 { s2 - 1 } else { s2 as int }),
                !suited && !offsuit ==> combos@ == target.take(4 * s1 + s2),
            decreases 4 - s2,
        {
            if s1 == s2 && offsuit {
            } else if s1 != s2 && suited {
            } else {
                combos.push(
                    [Card { rank: r1, suit: suit_char(s1) }, Card { rank: r2, suit: suit_char(s2) }],
                );
                proof {
                    if suited {
                        assert(combos@ =~= target.take(s1 + 1));
                    } else if offsuit {
                        let k = 3 * s1 + if s2 > s1 { s2 - 1 } else { s2 as int };
                        assert(offsuit_suits(k) == (s1 as int, s2 as int));
                        assert(combos@ =~= target.take(k + 1));
                    } else {
                        assert(combos@ =~= target.take(4 * s1 + s2 + 1));
                    }
                }
            }
            s2 = s2 + 1;
        }
        s1 = s1 + 1;
    }
    proof {
        if suited {
            assert(target.take(4) =~= target);
        } else if offsuit {
            assert(target.take(12) =~= target);
        } else {
            assert(target.take(16) =~= target);
        }
    }
    combos
}

fn is_rank_symbol_char(c: char) -> (r: bool)
    ensures
        r == is_rank_symbol(c),
{
    c == 'A' || c == 'K' || c == 'Q' || c == 'J' || c == 'T' || ('2' <= c && c <= '9')
}

/// Whether `expand_hand_to_combos` can read `code`.
pub fn is_hand_code(code: &str) -> (r: bool)
    ensures
        r == hand_code_ranks_valid(code@),
{
    code.unicode_len() < 2 || (is_rank_symbol_char(code.get_char(0)) && is_rank_symbol_char(
        code.get_char(1),
    ))
}

} // verus!
