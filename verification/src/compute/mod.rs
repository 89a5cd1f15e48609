use vstd::prelude::*;

verus! {

/// Work for a pool of Monte Carlo workers.
#[derive(Debug, Clone)]
pub enum Task {
    MonteCarloSample { hand_id: u64, iterations: u32 },
    DataAggregation,
}

/// The tally of a Monte Carlo run for one hand.
#[derive(Debug, Clone)]
pub struct ResultChunk {
    pub hand_id: u64,
    pub wins: u64,
    pub ties: u64,
    pub total: u64,
}

} // verus!
