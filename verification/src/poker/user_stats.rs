use std::collections::HashMap;
use vstd::prelude::*;
use crate::poker::gto_range::{Position, Action};

verus! {

broadcast use vstd::std_specs::hash::group_hash_axioms;

/// The place of a position in the table of tallies.
pub open spec fn position_index(p: Position) -> int {
    match p {
        Position::UTG => 0,
        Position::HJ => 1,
        Position::CO => 2,
        Position::MP => 3,
        Position::Defend => 4,
        Position::BTN => 5,
        Position::SB => 6,
        Position::BB => 7,
    }
}

/// The place of an action in a row of the table of tallies.
pub open spec fn action_index(a: Action) -> int {
    match a {
        Action::Open => 0,
        Action::Call => 1,
        Action::Defend => 2,
        Action::ThreeBet => 3,
        Action::FourBet => 4,
    }
}

/// The slot of a (position, action) pair among the forty tallies.
pub open spec fn slot(p: Position, a: Action) -> int {
    position_index(p) * 5 + action_index(a)
}

/// Sum of the first components (answers judged correct) of the tallies.
pub open spec fn sum_correct(v: Seq<(u32, u32)>) -> int
    decreases v.len(),
{
    if v.len() == 0 {
        0
    } else {
        sum_correct(v.drop_last()) + v.last().0
    }
}

/// Sum of the second components (answers given) of the tallies.
pub open spec fn sum_total(v: Seq<(u32, u32)>) -> int
    decreases v.len(),
{
    if v.len() == 0 {
        0
    } else {
        sum_total(v.drop_last()) + v.last().1
    }
}

/// The tally a map of tallies holds for slot `i`; (0, 0) where it holds none.
pub open spec fn tally_at(m: Map<u64, (u32, u32)>, i: int) -> (u32, u32) {
    if m.contains_key(i as u64) {
        m[i as u64]
    } else {
        (0u32, 0u32)
    }
}

/// A user's drill record: for each (position, action) pair that has been
/// drilled, how many answers were correct and how many were given, keyed
/// by the pair's slot.
#[derive(Debug)]
pub struct UserStats {
    stats: HashMap<u64, (u32, u32)>,
}

impl View for UserStats {
    type V = Seq<(u32, u32)>;

    /// The forty (correct, total) tallies, at `slot(position, action)`;
    /// (0, 0) for a pair with no answers.
    closed spec fn view(&self) -> Seq<(u32, u32)> {
        Seq::new(40, |i: int| tally_at(self.stats@, i))
    }
}

fn slot_of(p: Position, a: Action) -> (i: u64)
    ensures
        i as int == slot(p, a),
        i < 40,
{
    let pi: u64 = match p {
        Position::UTG => 0,
        Position::HJ => 1,
        Position::CO => 2,
        Position::MP => 3,
        Position::Defend => 4,
        Position::BTN => 5,
        Position::SB => 6,
        Position::BB => 7,
    };
    let ai: u64 = match a {
        Action::Open => 0,
        Action::Call => 1,
        Action::Defend => 2,
        Action::ThreeBet => 3,
        Action::FourBet => 4,
    };
    pi * 5 + ai
}

fn tally_of(m: &HashMap<u64, (u32, u32)>, k: u64) -> (r: (u32, u32))
    ensures
        r == tally_at(m@, k as int),
{
    match m.get(&k) {
        Some(e) => *e,
        None => (0, 0),
    }
}

impl UserStats {
    /// Tallies only for the forty slots, none of which counts more correct
    /// answers than answers.
    #[verifier::type_invariant]
    closed spec fn well_formed(self) -> bool {
        forall|k: u64|
            #[trigger] self.stats@.contains_key(k) ==> k < 40 && self.stats@[k].0 <= self.stats@[k].1
    }

    /// A record with no answers.
    pub fn new() -> (s: Self)
        ensures
            s@.len() == 40,
            forall|i: int| 0 <= i < 40 ==> #[trigger] s@[i] == (0u32, 0u32),
    {
        Self { stats: HashMap::new() }
    }

    /// Records one answer for (`pos`, `action`), counting it as correct or not.
    pub fn record(&mut self, pos: Position, action: Action, correct: bool)
        requires
            old(self)@[slot(pos, action)].1 < u32::MAX,
        ensures
            final(self)@ == old(self)@.update(
                slot(pos, action),
                (
                    (old(self)@[slot(pos, action)].0 + if correct { 1int } else { 0int }) as u32,
                    (old(self)@[slot(pos, action)].1 + 1) as u32,
                ),
            ),
    {
        proof {
            use_type_invariant(&*self);
        }
        let k = slot_of(pos, action);
        let (c, t) = tally_of(&self.stats, k);
        let c2 = if correct { c + 1 } else { c };
        let entry = (c2, t + 1);
        let mut m = self.stats.clone();
        m.insert(k, entry);
        let ghost before = self@;
        self.stats = m;
        assert(self@ =~= before.update(k as int, entry));
    }

    /// The (correct, total) tally of (`pos`, `action`); (0, 0) if nothing was recorded.
    pub fn get(&self, pos: Position, action: Action) -> (r: (u32, u32))
        ensures
            r == self@[slot(pos, action)],
            r.0 <= r.1,
            self@.len() == 40,
    {
        proof {
            use_type_invariant(self);
        }
        tally_of(&self.stats, slot_of(pos, action))
    }

    /// The numbers of correct answers and of answers over all pairs.
    pub fn totals(&self) -> (r: (u32, u32))
        requires
            sum_total(self@) <= u32::MAX,
        ensures
            r.0 as int == sum_correct(self@),
            r.1 as int == sum_total(self@),
            r.0 <= r.1,
    {
        proof {
            use_type_invariant(self);
        }
        let ghost v = self@;
        let mut correct: u32 = 0;
        let mut total: u32 = 0;
        let mut i: u64 = 0;
        while i < 40
            invariant
                i <= 40,
                v == self@,
                v.len() == 40,
                forall|j: int| 0 <= j < 40 ==> #[trigger] v[j] == tally_at(self.stats@, j),
                forall|j: int| 0 <= j < 40 ==> #[trigger] v[j].0 <= v[j].1,
                correct as int == sum_correct(v.take(i as int)),
                total as int == sum_total(v.take(i as int)),
                correct <= total,
                sum_total(v) <= u32::MAX,
            decreases 40 - i,
        {
            assert(v.take(i + 1).drop_last() =~= v.take(i as int));
            proof {
                lemma_sum_total_prefix(v, i as int + 1);
            }
            let (c, t) = tally_of(&self.stats, i);
            assert((c, t) == v[i as int]);
            correct = correct + c;
            total = total + t;
            i = i + 1;
        }
        assert(v.take(40) =~= v);
        (correct, total)
    }
}

proof fn lemma_sum_total_prefix(v: Seq<(u32, u32)>, k: int)
    requires
        0 <= k <= v.len(),
    ensures
        sum_total(v.take(k)) <= sum_total(v),
    decreases v.len(),
{
    if k < v.len() {
        assert(v.drop_last().take(k) =~= v.take(k));
        lemma_sum_total_prefix(v.drop_last(), k);
    } else {
        assert(v.take(k) =~= v);
    }
}

} // verus!
