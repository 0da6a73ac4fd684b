use vstd::prelude::*;

use crate::deck::Card;
use crate::hands::ali::{ali_cards, group_score, Ali};
use crate::scoreboard::RoundScoreSection;
use crate::scorers::Scorer;
use crate::{team_at, team_of_position, Round, Seat, Team};

verus! {

/// The bet agreed on the game. A team in it is the winner declared when the
/// other team declined the bet; without one, the cards decide.
#[derive(Debug, Clone, Copy, PartialEq, Eq, Structural)]
pub enum AgreedBet {
    /// Announced, and not raised.
    Announced(Option<Team>),
    /// Raised once.
    Envit(Option<Team>),
    /// Raised to a number of stakes, at least one.
    Val(u8, Option<Team>),
}

/// Scores the game from the bet agreed on it, if any.
#[derive(Debug)]
pub struct AliScorer {
    pub agreed_bet: Option<AgreedBet>,
}

impl Default for AliScorer {
    fn default() -> (s: AliScorer)
        ensures
            s.agreed_bet is None,
    {
        AliScorer { agreed_bet: None }
    }
}

impl AliScorer {
    pub fn set_bet(&mut self, agreed_bet: AgreedBet)
        ensures
            final(self).agreed_bet == Some(agreed_bet),
    {
        self.agreed_bet = Some(agreed_bet);
    }
}

/// The points of the ali formed by a seat's cards, 0 when there is none.
pub open spec fn seat_points(cards: Seq<Card>) -> nat {
    match ali_cards(cards) {
        Some(g) => group_score(g),
        None => 0nat,
    }
}

/// The points of the alis of `team` among the first `n` seats.
pub open spec fn team_points(seats: Seq<Seat>, team: Team, n: int) -> nat
    decreases n,
{
    if n <= 0 || n > seats.len() {
        0
    } else {
        team_points(seats, team, n - 1) + if team_at(n - 1) == team {
            seat_points(seats[n - 1].face_up_cards@)
        } else {
            0nat
        }
    }
}

/// Points added by the size of the bet.
pub open spec fn bet_extra(bet: AgreedBet) -> int {
    match bet {
        AgreedBet::Announced(_) => 0,
        AgreedBet::Envit(_) => 1,
        AgreedBet::Val(n, _) => n - 1,
    }
}

/// The section that the ali gives in a round under a bet: the declared
/// winner, or else the team with the best ali; the points of the winning
/// team's alis plus what the size of the bet adds.
pub open spec fn ali_score(bet: Option<AgreedBet>, round: &Round) -> Option<RoundScoreSection> {
    match bet {
        None => None,
        Some(b) => {
            let declared = match b {
                AgreedBet::Announced(w) => w,
                AgreedBet::Envit(w) => w,
                AgreedBet::Val(_, w) => w,
            };
            let winner = match declared {
                Some(t) => Some(t),
                None => round.spec_winner_from_cards::<Ali>(),
            };
            match winner {
                None => None,
                Some(t) => Some(
                    RoundScoreSection(
                        t,
                        (team_points(round.seats@, t, round.seats@.len() as int) + bet_extra(
                            b,
                        )) as u8,
                    ),
                ),
            }
        },
    }
}

impl AliScorer {
    fn points(round: &Round, team: Team) -> (r: u8)
        requires
            6 * round.seats@.len() <= u8::MAX,
        ensures
            r == team_points(round.seats@, team, round.seats@.len() as int),
            r <= 6 * round.seats@.len(),
    {
        let mut total: u8 = 0;
        let mut i: usize = 0;
        while i < round.seats.len()
            invariant
                i <= round.seats@.len(),
                6 * round.seats@.len() <= u8::MAX,
                total == team_points(round.seats@, team, i as int),
                total <= 6 * i,
            decreases round.seats@.len() - i,
        {
            if team_of_position(i) == team {
                match Ali::from_cards_slice(round.seats[i].face_up_cards.as_slice()) {
                    Some(h) => {
                        total = total + h.score();
                    },
                    None => {},
                }
            }
            i = i + 1;
        }
        total
    }
}

impl Scorer for AliScorer {
    open spec fn can_score(&self, round: &Round) -> bool {
        &&& round.dealer_seated()
        &&& 6 * round.seats@.len() <= u8::MAX
        &&& self.agreed_bet matches Some(b) ==> 0 <= bet_extra(b) && 6 * round.seats@.len()
            + bet_extra(b) <= u8::MAX
    }

    open spec fn score_of(&self, round: &Round) -> Option<RoundScoreSection> {
        ali_score(self.agreed_bet, round)
    }

    fn get_score(&self, round: &Round) -> (r: Option<RoundScoreSection>) {
        let game_bet = match self.agreed_bet {
            Some(b) => b,
            None => {
                return None;
            },
        };
        let bet_winner = match game_bet {
            AgreedBet::Announced(w) => w,
            AgreedBet::Envit(w) => w,
            AgreedBet::Val(_, w) => w,
        };
        let cards_winner = round.get_winner_from_cards::<Ali>();
        let winner = match (bet_winner, cards_winner) {
            (Some(w), _) => w,
            (None, Some(w)) => w,
            _ => {
                return None;
            },
        };
        let games_value = Self::points(round, winner);
        let extra: u8 = match game_bet {
            AgreedBet::Envit(_) => 1,
            AgreedBet::Val(n, _) => n - 1,
            _ => 0,
        };
        Some(RoundScoreSection(winner, games_value + extra))
    }
}

} // verus!
