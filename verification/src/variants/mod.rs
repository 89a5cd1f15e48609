pub mod nlhe;
pub mod plo;

use vstd::prelude::*;
use crate::poker::cards::Card;

verus! {

/// A player's hole cards: two for Hold'em, four for Omaha.
#[derive(Debug)]
pub enum HoleCards {
    Holdem([Card; 2]),
    Omaha([Card; 4]),
}

} // verus!
