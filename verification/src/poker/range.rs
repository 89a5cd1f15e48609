use vstd::prelude::*;
use vstd::string::*;
use crate::poker::gto_range::{is_rank_symbol, rank_value, rank_to_value};

verus! {

/// The kind of a two-card hand code.
#[derive(Debug, Clone, Copy, PartialEq, Eq, Structural)]
pub enum HandType {
    Suited,
    Offsuit,
    Pair,
}

/// A hand code that `parse_hand_code` reads: two rank symbols, then `s` or
/// `o` if there is a third character, and equal ranks if there is not.
pub open spec fn hand_code_well_formed(cs: Seq<char>) -> bool {
    &&& cs.len() >= 2
    &&& is_rank_symbol(cs[0])
    &&& is_rank_symbol(cs[1])
    &&& cs.len() == 3 ==> (cs[2] == 's' || cs[2] == 'o')
    &&& cs.len() != 3 ==> rank_value(cs[0]) == rank_value(cs[1])
}

/// The ranks and kind that a well-formed hand code denotes.
pub open spec fn hand_code_meaning(cs: Seq<char>) -> (u8, u8, HandType) {
    let t = if cs.len() == 3 {
        if cs[2] == 's' {
            HandType::Suited
        } else {
            HandType::Offsuit
        }
    } else {
        HandType::Pair
    };
    (rank_value(cs[0]), rank_value(cs[1]), t)
}

/// Reads a hand code such as `"AKs"`, `"T9o"` or `"QQ"`.
pub fn parse_hand_code(code: &str) -> (r: (u8, u8, HandType))
    requires
        hand_code_well_formed(code@),
    ensures
        r == hand_code_meaning(code@),
{
    let n = code.unicode_len();
    let r1 = rank_to_value(code.get_char(0));
    let r2 = rank_to_value(code.get_char(1));
    let hand_type = if n == 3 {
        if code.get_char(2) == 's' {
            HandType::Suited
        } else {
            HandType::Offsuit
        }
    } else {
        HandType::Pair
    };
    (r1, r2, hand_type)
}

} // verus!
