use vstd::prelude::*;
use crate::poker::cards::Card;
use crate::poker::text::str_equals;
use crate::variants::HoleCards;

verus! {

/// Why an equity request cannot be run.
#[derive(Debug, Clone, Copy, PartialEq, Eq, Structural)]
pub enum RunError {
    /// No hero card could be read.
    InvalidHeroHand,
    /// Omaha needs four hero cards.
    PloNeedsFourCards,
    /// Hold'em needs two hero cards.
    NlheNeedsTwoCards,
}

/// Decides how an equity request is run: with no hero cards it is refused;
/// for the variant `"plo"` the first four cards are the Omaha hand (fewer
/// than four are refused); for any other variant the first two cards are
/// the Hold'em hand (fewer than two are refused).
pub fn prepare_run(hero: &[Card], variant: &str) -> (r: Result<HoleCards, RunError>)
    ensures
        hero@.len() == 0 ==> r == Err::<HoleCards, RunError>(RunError::InvalidHeroHand),
        hero@.len() > 0 && variant@ == "plo"@ && hero@.len() < 4 ==> r == Err::<HoleCards, RunError>(
            RunError::PloNeedsFourCards,
        ),
        hero@.len() >= 4 && variant@ == "plo"@ ==> (r matches Ok(HoleCards::Omaha(h)) && h@
            == hero@.take(4)),
        hero@.len() == 1 && variant@ != "plo"@ ==> r == Err::<HoleCards, RunError>(
            RunError::NlheNeedsTwoCards,
        ),
        hero@.len() >= 2 && variant@ != "plo"@ ==> (r matches Ok(HoleCards::Holdem(h)) && h@
            == hero@.take(2)),
{
    if hero.len() == 0 {
        return Err(RunError::InvalidHeroHand);
    }
    if str_equals(variant, "plo") {
        if hero.len() < 4 {
            return Err(RunError::PloNeedsFourCards);
        }
        let h = [hero[0], hero[1], hero[2], hero[3]];
        assert(h@ =~= hero@.take(4));
        Ok(HoleCards::Omaha(h))
    } else {
        if hero.len() < 2 {
            return Err(RunError::NlheNeedsTwoCards);
        }
        let h = [hero[0], hero[1]];
        assert(h@ =~= hero@.take(2));
        Ok(HoleCards::Holdem(h))
    }
}

} // verus!
