use vstd::prelude::*;
use crate::poker::cards::Card;
use crate::poker::gto_range::{Position, Action};
use crate::poker::user_stats::{UserStats, slot};

verus! {

/// A drill question: a hand dealt for a position and action.
#[derive(Debug, Clone)]
pub struct Drill {
    pub position: Position,
    pub action: Action,
    pub hand: Vec<Card>,
}

/// The graded answer to a drill question.
#[derive(Debug, Clone)]
pub struct DrillResult {
    pub position: Position,
    pub action: Action,
    pub hand: Vec<Card>,
    pub user_action: Action,
    pub correct: bool,
}

impl DrillResult {
    /// Grades an answer: it is correct when the user chose the drill's
    /// action. The answer is recorded in `stats`.
    pub fn record_answer(
        stats: &mut UserStats,
        position: Position,
        action: Action,
        user_action: Action,
        hand: Vec<Card>,
    ) -> (r: DrillResult)
        requires
            old(stats)@[slot(position, action)].1 < u32::MAX,
        ensures
            r.position == position,
            r.action == action,
            r.user_action == user_action,
            r.hand@ == hand@,
            r.correct == (user_action == action),
            final(stats)@ == old(stats)@.update(
                slot(position, action),
                (
                    (old(stats)@[slot(position, action)].0 + if r.correct { 1int } else { 0int }) as u32,
                    (old(stats)@[slot(position, action)].1 + 1) as u32,
                ),
            ),
    {
        let correct = user_action == action;
        stats.record(position, action, correct);
        DrillResult { position, action, hand, user_action, correct }
    }
}

} // verus!
