use vstd::prelude::*;

use crate::deck::Card;
use crate::hands::flor::{is_flor_spec, Flor};
use crate::scoreboard::RoundScoreSection;
use crate::scorers::Scorer;
use crate::{team_at, team_of_position, Round, Seat, Team};

verus! {

/// The bet agreed on the game. A team in it is the winner declared when the
/// other team declined the bet; without one, the cards decide.
#[derive(Debug, Clone, Copy, PartialEq, Eq, Structural)]
pub enum AgreedBet {
    /// Announced, and not raised.
    Announced(Option<Team>),
    /// Raised once.
    Envit(Option<Team>),
    /// Raised to what the leading team still lacks to win the cama.
    Resto,
}

/// Scores the game from the bet agreed on it, if any.
#[derive(Debug)]
pub struct FlorScorer {
    pub agreed_bet: Option<AgreedBet>,
}

impl Default for FlorScorer {
    fn default() -> (s: FlorScorer)
        ensures
            s.agreed_bet is None,
    {
        FlorScorer { agreed_bet: None }
    }
}

impl FlorScorer {
    pub fn set_bet(&mut self, agreed_bet: AgreedBet)
        ensures
            final(self).agreed_bet == Some(agreed_bet),
    {
        self.agreed_bet = Some(agreed_bet);
    }
}

/// How many of the first `n` seats hold a flor, counting only the seats of
/// `team` when one is given.
pub open spec fn flor_count(seats: Seq<Seat>, marker: Card, team: Option<Team>, n: int) -> nat
    decreases n,
{
    if n <= 0 || n > seats.len() {
        0
    } else {
        flor_count(seats, marker, team, n - 1) + if (team is None || team == Some(team_at(n - 1)))
            && is_flor_spec(seats[n - 1].face_up_cards@, marker) {
            1nat
        } else {
            0nat
        }
    }
}

/// What the leading team still lacks to win the cama.
pub open spec fn resto(round: &Round) -> int {
    round.cama_win_score - round.cama_leading_score
}

/// The section that the flor gives in a round under a bet: the declared
/// winner, or else the team with the best flor; 3 points for each flor of the
/// winning team when announced, for each flor at the table when raised, plus
/// the resto when that was the bet.
pub open spec fn flor_score(bet: Option<AgreedBet>, round: &Round) -> Option<RoundScoreSection> {
    match bet {
        None => None,
        Some(b) => {
            let declared = match b {
                AgreedBet::Announced(w) => w,
                AgreedBet::Envit(w) => w,
                AgreedBet::Resto => None,
            };
            let winner = match declared {
                Some(t) => Some(t),
                None => round.spec_winner_from_cards::<Flor>(),
            };
            let n = round.seats@.len() as int;
            let all = flor_count(round.seats@, round.marker, None, n);
            match winner {
                None => None,
                Some(t) => {
                    let points = match b {
                        AgreedBet::Announced(_) => 3 * flor_count(
                            round.seats@,
                            round.marker,
                            Some(t),
                            n,
                        ) as int,
                        AgreedBet::Envit(_) => 3 * all as int,
                        AgreedBet::Resto => 3 * all as int + resto(round),
                    };
                    Some(RoundScoreSection(t, points as u8))
                },
            }
        },
    }
}

impl FlorScorer {
    fn count(round: &Round, team: Option<Team>) -> (r: u8)
        requires
            3 * round.seats@.len() <= u8::MAX,
        ensures
            r == flor_count(round.seats@, round.marker, team, round.seats@.len() as int),
            r <= round.seats@.len(),
    {
        let mut c: u8 = 0;
        let mut i: usize = 0;
        while i < round.seats.len()
            invariant
                i <= round.seats@.len(),
                3 * round.seats@.len() <= u8::MAX,
                c == flor_count(round.seats@, round.marker, team, i as int),
                c <= i,
            decreases round.seats@.len() - i,
        {
            let counts = match team {
                Some(t) => team_of_position(i) == t,
                None => true,
            };
            if counts && Flor::from_cards(round.seats[i].face_up_cards.as_slice(), round.marker).is_some() {
                c = c + 1;
            }
            i = i + 1;
        }
        c
    }
}

impl Scorer for FlorScorer {
    open spec fn can_score(&self, round: &Round) -> bool {
        &&& round.dealer_seated()
        &&& round.cama_leading_score <= round.cama_win_score
        &&& 3 * round.seats@.len() + resto(round) <= u8::MAX
    }

    open spec fn score_of(&self, round: &Round) -> Option<RoundScoreSection> {
        flor_score(self.agreed_bet, round)
    }

    fn get_score(&self, round: &Round) -> (r: Option<RoundScoreSection>) {
        let game_bet = match self.agreed_bet {
            Some(b) => b,
            None => {
                return None;
            },
        };
        let bet_winner = match game_bet {
            AgreedBet::Announced(w) => w,
            AgreedBet::Envit(w) => w,
            AgreedBet::Resto => None,
        };
        let cards_winner = round.get_winner_from_cards::<Flor>();
        let winner = match (bet_winner, cards_winner) {
            (Some(w), _) => w,
            (None, Some(w)) => w,
            _ => {
                return None;
            },
        };
        let winner_flor_count = Self::count(round, Some(winner));
        let total_flor_count = Self::count(round, None);
        let resto = round.cama_win_score - round.cama_leading_score;
        let score = match game_bet {
            AgreedBet::Announced(_) => winner_flor_count * 3,
            AgreedBet::Envit(_) => total_flor_count * 3,
            AgreedBet::Resto => total_flor_count * 3 + resto,
        };
        Some(RoundScoreSection(winner, score))
    }
}

} // verus!
