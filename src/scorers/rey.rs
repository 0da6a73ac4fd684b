use vstd::prelude::*;

use crate::deck::{Card, Value};
use crate::scoreboard::RoundScoreSection;
use crate::scorers::Scorer;
use crate::{team_at, Round, Team};

verus! {

/// Scores the reyes shown in a round; it needs no bet.
#[derive(Debug, Default)]
pub struct ReyScorer;

/// How many reyes there are among the cards.
pub open spec fn rey_count(cards: Seq<Card>) -> nat
    decreases cards.len(),
{
    if cards.len() == 0 {
        0
    } else {
        rey_count(cards.drop_last()) + if cards.last().value == Value::Rey {
            1nat
        } else {
            0nat
        }
    }
}

/// The reyes shown by the `k`-th seat in play order.
pub open spec fn reyes_of(round: &Round, k: int) -> nat {
    rey_count(round.seats@[round.spec_play_order()[k]].face_up_cards@)
}

/// The first seat in play order, from the `k`-th on, that shows a rey.
pub open spec fn first_rey_from(round: &Round, k: int) -> Option<int>
    decreases round.seats@.len() - k,
{
    if k < 0 || k >= round.seats@.len() {
        None
    } else if reyes_of(round, k) > 0 {
        Some(k)
    } else {
        first_rey_from(round, k + 1)
    }
}

/// The reyes shown by the first `k` seats in play order, counting only the
/// seats of `team` when one is given.
pub open spec fn reyes_shown(round: &Round, team: Option<Team>, k: int) -> nat
    decreases k,
{
    if k <= 0 || k > round.seats@.len() {
        0
    } else {
        reyes_shown(round, team, k - 1) + if team is None || team == Some(
            team_at(round.spec_play_order()[k - 1]),
        ) {
            reyes_of(round, k - 1)
        } else {
            0nat
        }
    }
}

/// The section that the reyes give: to the team of the first seat in play
/// order that shows one, a point for each rey its team shows.
pub open spec fn rey_score(round: &Round) -> Option<RoundScoreSection> {
    match first_rey_from(round, 0) {
        None => None,
        Some(k) => {
            let t = team_at(round.spec_play_order()[k]);
            Some(RoundScoreSection(t, reyes_shown(round, Some(t), round.seats@.len() as int) as u8))
        },
    }
}

proof fn lemma_reyes_shown_bound(round: &Round, t: Team, k: int)
    requires
        0 <= k <= round.seats@.len(),
    ensures
        reyes_shown(round, Some(t), k) <= reyes_shown(round, None, k),
    decreases k,
{
    if k > 0 {
        lemma_reyes_shown_bound(round, t, k - 1);
    }
}

proof fn lemma_reyes_shown_mono(round: &Round, team: Option<Team>, k: int, m: int)
    requires
        0 <= k <= m <= round.seats@.len(),
    ensures
        reyes_shown(round, team, k) <= reyes_shown(round, team, m),
    decreases m - k,
{
    if k < m {
        lemma_reyes_shown_mono(round, team, k, m - 1);
    }
}

fn count_reyes(cards: &Vec<Card>) -> (r: usize)
    ensures
        r == rey_count(cards@),
{
    let mut r: usize = 0;
    let mut i: usize = 0;
    while i < cards.len()
        invariant
            i <= cards@.len(),
            r == rey_count(cards@.take(i as int)),
            r <= i,
        decreases cards@.len() - i,
    {
        assert(cards@.take(i as int + 1).drop_last() =~= cards@.take(i as int));
        if cards[i].value == Value::Rey {
            r = r + 1;
        }
        i = i + 1;
    }
    assert(cards@.take(cards@.len() as int) =~= cards@);
    r
}

impl Scorer for ReyScorer {
    open spec fn can_score(&self, round: &Round) -> bool {
        &&& round.dealer_seated()
        &&& reyes_shown(round, None, round.seats@.len() as int) <= u8::MAX
    }

    open spec fn score_of(&self, round: &Round) -> Option<RoundScoreSection> {
        rey_score(round)
    }

    fn get_score(&self, round: &Round) -> (r: Option<RoundScoreSection>) {
        let order = round.iter_from_hand();
        let n = order.len();
        let mut k: usize = 0;
        let mut found: Option<Team> = None;
        while k < n
            invariant_except_break
                found is None,
                first_rey_from(round, 0) == first_rey_from(round, k as int),
            invariant
                n == order@.len(),
                n == round.seats@.len(),
                k <= n,
                forall|j: int|
                    0 <= j < n ==> #[trigger] order@[j] == (
                        team_at(round.spec_play_order()[j]),
                        round.spec_play_order()[j] as usize,
                    ),
                forall|j: int| 0 <= j < n ==> 0 <= #[trigger] round.spec_play_order()[j] < n,
            ensures
                found is None ==> first_rey_from(round, 0) is None,
                found matches Some(t) ==> first_rey_from(round, 0) matches Some(f) && 0 <= f < n
                    && t == team_at(round.spec_play_order()[f]),
            decreases n - k,
        {
            let (team, pos) = order[k];
            if count_reyes(&round.seats[pos].face_up_cards) > 0 {
                assert(reyes_of(round, k as int) > 0);
                found = Some(team);
                break;
            }
            k = k + 1;
        }
        let winner_team = match found {
            Some(t) => t,
            None => {
                return None;
            },
        };
        let mut count: usize = 0;
        let mut j: usize = 0;
        while j < n
            invariant
                n == order@.len(),
                n == round.seats@.len(),
                j <= n,
                forall|i: int|
                    0 <= i < n ==> #[trigger] order@[i] == (
                        team_at(round.spec_play_order()[i]),
                        round.spec_play_order()[i] as usize,
                    ),
                forall|i: int| 0 <= i < n ==> 0 <= #[trigger] round.spec_play_order()[i] < n,
                count == reyes_shown(round, Some(winner_team), j as int),
                reyes_shown(round, None, n as int) <= u8::MAX,
                reyes_shown(round, Some(winner_team), j as int) <= reyes_shown(round, None, j as int),
            decreases n - j,
        {
            proof {
                lemma_reyes_shown_bound(round, winner_team, j as int + 1);
                lemma_reyes_shown_mono(round, None, j as int + 1, n as int);
            }
            let (team, pos) = order[j];
            if team == winner_team {
                count = count + count_reyes(&round.seats[pos].face_up_cards);
            }
            j = j + 1;
        }
        Some(RoundScoreSection(winner_team, count as u8))
    }
}

} // verus!
