use vstd::prelude::*;
use vstd::string::*;
use crate::poker::cards::Card;
use crate::poker::gto_range::{Position, Action, combos_of_code, hand_code_ranks_valid, expand_hand_to_combos};
use crate::poker::random::random_below;

verus! {

/// A drill question: a hand dealt for a position and action.
#[derive(Debug, Clone)]
pub struct Drill {
    pub position: Position,
    pub action: Action,
    pub hand: Vec<Card>,
}

/// The graded answer to a drill question.
#[derive(Debug, Clone)]
pub struct DrillResult {
    pub position: Position,
    pub action: Action,
    pub hand: Vec<Card>,
    pub user_action: Action,
    pub correct: bool,
}

/// The hand of a drill on combination `pick` of a hand code: its two
/// cards, or no cards when the code stands for no combination.
pub open spec fn drill_hand(code: Seq<char>, pick: int) -> Seq<Card> {
    let combos = combos_of_code(code);
    if combos.len() == 0 {
        seq![]
    } else {
        seq![combos[pick][0], combos[pick][1]]
    }
}

impl Drill {
    /// The drill for combination `pick` of the hand code `code`.
    pub fn with_combo(position: Position, action: Action, code: &str, pick: usize) -> (d: Drill)
        requires
            hand_code_ranks_valid(code@),
            combos_of_code(code@).len() > 0 ==> pick < combos_of_code(code@).len(),
        ensures
            d.position == position,
            d.action == action,
            d.hand@ == drill_hand(code@, pick as int),
    {
        let expanded = expand_hand_to_combos(code);
        let hand = if expanded.len() > 0 {
            let selected = expanded[pick];
            let mut h: Vec<Card> = Vec::new();
            h.push(selected[0]);
            h.push(selected[1]);
            assert(h@ =~= drill_hand(code@, pick as int));
            h
        } else {
            Vec::new()
        };
        Drill { position, action, hand }
    }

    /// A drill on a combination of the hand code `code` chosen at random.
    pub fn for_hand_code(rng: &mut rand::rngs::ThreadRng, position: Position, action: Action, code: &str) -> (d: Drill)
        requires
            hand_code_ranks_valid(code@),
        ensures
            d.position == position,
            d.action == action,
            exists|pick: int|
                0 <= pick && (combos_of_code(code@).len() > 0 ==> pick < combos_of_code(code@).len())
                    && d.hand@ == drill_hand(code@, pick),
    {
        let n = expand_hand_to_combos(code).len();
        let pick = if n > 0 { random_below(rng, n) } else { 0 };
        Drill::with_combo(position, action, code, pick)
    }
}

} // verus!
