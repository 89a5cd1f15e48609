//! Verified core of a poker training tool: cards and their text notation,
//! decks, hand ranking for Hold'em and Omaha, Monte Carlo showdown tallies,
//! range and hand-code expansion, and drill bookkeeping.

pub mod compute;
pub mod poker;
pub mod ux;
pub mod variants;
