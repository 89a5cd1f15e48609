pub mod board;
pub mod cards;
pub mod deck;
pub mod drill;
pub mod drill_result;
pub mod equity;
pub mod gto_range;
pub mod hand;
pub mod parse;
pub mod random;
pub mod range;
pub mod ranking;
pub mod text;
pub mod user_stats;
pub mod util;
