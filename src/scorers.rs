use vstd::prelude::*;

use crate::scoreboard::RoundScoreSection;
use crate::Round;

pub mod ali;
pub mod flor;
pub mod rey;
pub mod secansa;
pub mod truc;

verus! {

/// Computes what one game of a round is worth, and to which team.
pub trait Scorer {
    /// Whether the round can be scored: the dealer sits at the table where the
    /// cards decide, and the points fit the score's range.
    spec fn can_score(&self, round: &Round) -> bool;

    /// The section that the game gives in the round, if it is scored.
    spec fn score_of(&self, round: &Round) -> Option<RoundScoreSection>;

    fn get_score(&self, round: &Round) -> (r: Option<RoundScoreSection>)
        requires
            self.can_score(round),
        ensures
            r == self.score_of(round),
    ;
}

} // verus!
