use vstd::prelude::*;

use crate::deck::{Card, Suit, Value};
use crate::scoreboard::RoundScoreSection;
use crate::scorers::Scorer;
use crate::{team_at, team_of_position, Round, Seat, Team};

verus! {

/// Strength of a card in a trick, lowest first. It depends on the marker.
#[derive(Debug, Clone, Copy, PartialEq, Eq, PartialOrd, Ord, Structural)]
pub enum TrucValue {
    Cuatro,
    Cinco,
    Seis,
    SieteBobo,
    Sota,
    Caballo,
    Rey,
    AsBobo,
    Dos,
    Tres,
    SieteOros,
    SieteEspadas,
    AsBastos,
    AsEspadas,
    Perica,
    Perico,
}

/// The trick strength of a card under a marker.
pub open spec fn truc_value_of(card: Card, marker: Card) -> TrucValue {
    if card.spec_is_perico(marker) {
        TrucValue::Perico
    } else if card.spec_is_perica(marker) {
        TrucValue::Perica
    } else {
        match card.value {
            Value::Uno => if card.suit == Suit::Espadas {
                TrucValue::AsEspadas
            } else if card.suit == Suit::Bastos {
                TrucValue::AsBastos
            } else {
                TrucValue::AsBobo
            },
            Value::Siete => if card.suit == Suit::Espadas {
                TrucValue::SieteEspadas
            } else if card.suit == Suit::Oros {
                TrucValue::SieteOros
            } else {
                TrucValue::SieteBobo
            },
            Value::Tres => TrucValue::Tres,
            Value::Dos => TrucValue::Dos,
            Value::Rey => TrucValue::Rey,
            Value::Caballo => TrucValue::Caballo,
            Value::Sota => TrucValue::Sota,
            Value::Seis => TrucValue::Seis,
            Value::Cinco => TrucValue::Cinco,
            Value::Cuatro => TrucValue::Cuatro,
        }
    }
}

impl TrucValue {
    /// Position in the order `Cuatro < Cinco < ... < Perica < Perico`.
    pub open spec fn level(self) -> nat {
        match self {
            TrucValue::Cuatro => 0,
            TrucValue::Cinco => 1,
            TrucValue::Seis => 2,
            TrucValue::SieteBobo => 3,
            TrucValue::Sota => 4,
            TrucValue::Caballo => 5,
            TrucValue::Rey => 6,
            TrucValue::AsBobo => 7,
            TrucValue::Dos => 8,
            TrucValue::Tres => 9,
            TrucValue::SieteOros => 10,
            TrucValue::SieteEspadas => 11,
            TrucValue::AsBastos => 12,
            TrucValue::AsEspadas => 13,
            TrucValue::Perica => 14,
            TrucValue::Perico => 15,
        }
    }

    pub fn new(card: Card, marker: Card) -> (r: TrucValue)
        ensures
            r == truc_value_of(card, marker),
    {
        if card.is_perico(marker) {
            TrucValue::Perico
        } else if card.is_perica(marker) {
            TrucValue::Perica
        } else {
            match (card.value, card.suit) {
                (Value::Uno, Suit::Espadas) => TrucValue::AsEspadas,
                (Value::Uno, Suit::Bastos) => TrucValue::AsBastos,
                (Value::Siete, Suit::Espadas) => TrucValue::SieteEspadas,
                (Value::Siete, Suit::Oros) => TrucValue::SieteOros,
                (Value::Tres, _) => TrucValue::Tres,
                (Value::Dos, _) => TrucValue::Dos,
                (Value::Uno, _) => TrucValue::AsBobo,
                (Value::Rey, _) => TrucValue::Rey,
                (Value::Caballo, _) => TrucValue::Caballo,
                (Value::Sota, _) => TrucValue::Sota,
                (Value::Siete, _) => TrucValue::SieteBobo,
                (Value::Seis, _) => TrucValue::Seis,
                (Value::Cinco, _) => TrucValue::Cinco,
                (Value::Cuatro, _) => TrucValue::Cuatro,
            }
        }
    }

    /// The strength as an integer, for comparisons.
    pub fn strength(&self) -> (r: u8)
        ensures
            r as nat == self.level(),
    {
        match *self {
            TrucValue::Cuatro => 0,
            TrucValue::Cinco => 1,
            TrucValue::Seis => 2,
            TrucValue::SieteBobo => 3,
            TrucValue::Sota => 4,
            TrucValue::Caballo => 5,
            TrucValue::Rey => 6,
            TrucValue::AsBobo => 7,
            TrucValue::Dos => 8,
            TrucValue::Tres => 9,
            TrucValue::SieteOros => 10,
            TrucValue::SieteEspadas => 11,
            TrucValue::AsBastos => 12,
            TrucValue::AsEspadas => 13,
            TrucValue::Perica => 14,
            TrucValue::Perico => 15,
        }
    }
}

/// The bet agreed on truc.
#[derive(Debug, Clone, Copy, PartialEq, Eq, Structural)]
pub enum Bet {
    NoBet,
    Truc(Option<Team>),
    Retruc(Option<Team>),
    NouVal,
}

impl Default for Bet {
    fn default() -> (b: Bet)
        ensures
            b == Bet::NoBet,
    {
        Bet::NoBet
    }
}

impl Bet {
    /// Points of the truc at this bet.
    pub open spec fn spec_score(self) -> u8 {
        match self {
            Bet::NoBet => 1,
            Bet::Truc(_) => 3,
            Bet::Retruc(_) => 6,
            Bet::NouVal => 9,
        }
    }

    pub fn get_score(&self) -> (r: u8)
        ensures
            r == self.spec_score(),
    {
        match self {
            Bet::NoBet => 1,
            Bet::Truc(_) => 3,
            Bet::Retruc(_) => 6,
            Bet::NouVal => 9,
        }
    }
}

/// Scores the truc from the bet agreed on it.
#[derive(Debug)]
pub struct TrucScorer {
    pub agreed_bet: Bet,
}

impl Default for TrucScorer {
    fn default() -> (s: TrucScorer)
        ensures
            s.agreed_bet == Bet::NoBet,
    {
        TrucScorer { agreed_bet: Bet::NoBet }
    }
}

impl TrucScorer {
    pub fn set_bet(&mut self, agreed_bet: Bet)
        ensures
            final(self).agreed_bet == agreed_bet,
    {
        self.agreed_bet = agreed_bet;
    }
}

/// The outcome of one trick.
#[derive(Debug, Clone, Copy, PartialEq, Eq, Structural)]
pub enum BazaWinner {
    Team1,
    Team2,
    Parda,
}

/// A card played in a trick, with the team that played it.
#[derive(Debug, Clone, Copy, PartialEq, Eq, Structural)]
pub struct BazaCard {
    pub card: TrucValue,
    pub team: Team,
}

/// One trick: the cards shown at the same position by every seat.
#[derive(Debug, Clone, PartialEq, Eq)]
pub struct Baza {
    pub cards: Vec<BazaCard>,
}

/// The highest strength among the cards of a trick (0 when there are none).
pub open spec fn top_level(cards: Seq<BazaCard>) -> nat
    decreases cards.len(),
{
    if cards.len() == 0 {
        0
    } else {
        let rest = top_level(cards.drop_last());
        let last = cards.last().card.level();
        if last > rest {
            last
        } else {
            rest
        }
    }
}

/// Whether every card of the highest strength was played by `team`.
pub open spec fn top_cards_all_of(cards: Seq<BazaCard>, team: Team) -> bool {
    forall|i: int|
        0 <= i < cards.len() && #[trigger] cards[i].card.level() == top_level(cards)
            ==> cards[i].team == team
}

/// The outcome of a trick: a tie when it is empty or when both teams hold a
/// card of the highest strength, else the team that holds it.
pub open spec fn baza_outcome(cards: Seq<BazaCard>) -> BazaWinner {
    if cards.len() == 0 {
        BazaWinner::Parda
    } else if top_cards_all_of(cards, Team::Team1) {
        BazaWinner::Team1
    } else if top_cards_all_of(cards, Team::Team2) {
        BazaWinner::Team2
    } else {
        BazaWinner::Parda
    }
}

impl Baza {
    pub open spec fn outcome(&self) -> BazaWinner {
        baza_outcome(self.cards@)
    }

    /// The trick formed by the given cards, each with its team.
    pub fn new(baza: &[(Card, Team)], marker: Card) -> (r: Baza)
        ensures
            r.cards@.len() == baza@.len(),
            forall|i: int|
                0 <= i < baza@.len() ==> #[trigger] r.cards@[i] == (BazaCard {
                    card: truc_value_of(baza@[i].0, marker),
                    team: baza@[i].1,
                }),
    {
        let mut cards: Vec<BazaCard> = Vec::new();
        let mut i: usize = 0;
        while i < baza.len()
            invariant
                i <= baza@.len(),
                cards@.len() == i,
                forall|k: int|
                    0 <= k < i ==> #[trigger] cards@[k] == (BazaCard {
                        card: truc_value_of(baza@[k].0, marker),
                        team: baza@[k].1,
                    }),
            decreases baza@.len() - i,
        {
            let (card, team) = baza[i];
            cards.push(BazaCard { card: TrucValue::new(card, marker), team });
            i = i + 1;
        }
        Baza { cards }
    }

    /// The team that won the trick, or a tie.
    pub fn winner(&self) -> (r: BazaWinner)
        ensures
            r == self.outcome(),
    {
        let cards = &self.cards;
        if cards.len() == 0 {
            return BazaWinner::Parda;
        }
        let mut top: u8 = 0;
        let mut i: usize = 0;
        while i < cards.len()
            invariant
                i <= cards@.len(),
                top as nat == top_level(cards@.take(i as int)),
            decreases cards@.len() - i,
        {
            assert(cards@.take(i as int + 1).drop_last() =~= cards@.take(i as int));
            let s = cards[i].card.strength();
            if s > top {
                top = s;
            }
            i = i + 1;
        }
        assert(cards@.take(cards@.len() as int) =~= cards@);
        let mut team1 = true;
        let mut team2 = true;
        let mut j: usize = 0;
        while j < cards.len()
            invariant
                j <= cards@.len(),
                top as nat == top_level(cards@),
                team1 == (forall|k: int|
                    0 <= k < j && #[trigger] cards@[k].card.level() == top_level(cards@)
                        ==> cards@[k].team == Team::Team1),
                team2 == (forall|k: int|
                    0 <= k < j && #[trigger] cards@[k].card.level() == top_level(cards@)
                        ==> cards@[k].team == Team::Team2),
            decreases cards@.len() - j,
        {
            if cards[j].card.strength() == top {
                match cards[j].team {
                    Team::Team1 => {
                        team2 = false;
                    },
                    Team::Team2 => {
                        team1 = false;
                    },
                }
            }
            j = j + 1;
        }
        if team1 {
            BazaWinner::Team1
        } else if team2 {
            BazaWinner::Team2
        } else {
            BazaWinner::Parda
        }
    }
}

/// Tricks counted over the first `n` outcomes: a win counts for its team, a
/// tie for both.
pub open spec fn tally(bazas: Seq<BazaWinner>, n: int) -> (int, int)
    decreases n,
{
    if n <= 0 {
        (0, 0)
    } else {
        let (a, b) = tally(bazas, n - 1);
        match bazas[n - 1] {
            BazaWinner::Team1 => (a + 1, b),
            BazaWinner::Team2 => (a, b + 1),
            BazaWinner::Parda => (a + 1, b + 1),
        }
    }
}

/// The team that has the match won after the first `n` tricks: at least two
/// and more than the other team.
pub open spec fn decided_after(bazas: Seq<BazaWinner>, n: int) -> Option<Team> {
    let (a, b) = tally(bazas, n);
    if a >= 2 && a > b {
        Some(Team::Team1)
    } else if b >= 2 && b > a {
        Some(Team::Team2)
    } else {
        None
    }
}

/// The first decision among the prefixes longer than `i`.
pub open spec fn first_decision(bazas: Seq<BazaWinner>, i: int) -> Option<Team>
    decreases bazas.len() - i,
{
    if i >= bazas.len() {
        None
    } else {
        match decided_after(bazas, i + 1) {
            Some(t) => Some(t),
            None => first_decision(bazas, i + 1),
        }
    }
}

/// The winner of a sequence of tricks: the first team to have the match won;
/// failing that, with three tricks or more, the winner of the first trick.
pub open spec fn truc_outcome(bazas: Seq<BazaWinner>) -> Option<Team> {
    match first_decision(bazas, 0) {
        Some(t) => Some(t),
        None => if bazas.len() >= 3 {
            match bazas[0] {
                BazaWinner::Team1 => Some(Team::Team1),
                BazaWinner::Team2 => Some(Team::Team2),
                BazaWinner::Parda => None,
            }
        } else {
            None
        },
    }
}

/// The team that wins the match of tricks, if any.
pub fn get_truc_winner(bazas: &[BazaWinner]) -> (r: Option<Team>)
    ensures
        r == truc_outcome(bazas@),
{
    let mut a: usize = 0;
    let mut b: usize = 0;
    let mut i: usize = 0;
    while i < bazas.len()
        invariant
            i <= bazas@.len(),
            a <= i && b <= i,
            (a as int, b as int) == tally(bazas@, i as int),
            first_decision(bazas@, 0) == first_decision(bazas@, i as int),
        decreases bazas@.len() - i,
    {
        match bazas[i] {
            BazaWinner::Team1 => {
                a = a + 1;
            },
            BazaWinner::Team2 => {
                b = b + 1;
            },
            BazaWinner::Parda => {
                a = a + 1;
                b = b + 1;
            },
        }
        i = i + 1;
        if a >= 2 && a > b {
            return Some(Team::Team1);
        } else if b >= 2 && b > a {
            return Some(Team::Team2);
        }
    }
    if bazas.len() >= 3 {
        match bazas[0] {
            BazaWinner::Team1 => Some(Team::Team1),
            BazaWinner::Team2 => Some(Team::Team2),
            BazaWinner::Parda => None,
        }
    } else {
        None
    }
}

/// The cards shown at position `i` by the first `n` seats, in table order,
/// each with the seat's team.
pub open spec fn shown_at(seats: Seq<Seat>, i: int, n: int) -> Seq<(Card, Team)>
    decreases n,
{
    if n <= 0 || n > seats.len() {
        Seq::empty()
    } else {
        let prev = shown_at(seats, i, n - 1);
        if 0 <= i < seats[n - 1].face_up_cards@.len() {
            prev.push((seats[n - 1].face_up_cards@[i], team_at(n - 1)))
        } else {
            prev
        }
    }
}

/// The most cards shown by one of the first `n` seats.
pub open spec fn most_shown(seats: Seq<Seat>, n: int) -> nat
    decreases n,
{
    if n <= 0 || n > seats.len() {
        0
    } else {
        let prev = most_shown(seats, n - 1);
        let here = seats[n - 1].face_up_cards@.len();
        if here > prev {
            here
        } else {
            prev
        }
    }
}

/// The cards of a trick with their strength under the marker.
pub open spec fn baza_cards_of(shown: Seq<(Card, Team)>, marker: Card) -> Seq<BazaCard> {
    shown.map_values(|p: (Card, Team)| BazaCard { card: truc_value_of(p.0, marker), team: p.1 })
}

/// The outcome of each trick of a round.
pub open spec fn baza_outcomes(round: &Round) -> Seq<BazaWinner> {
    let n = round.seats@.len() as int;
    Seq::new(
        most_shown(round.seats@, n),
        |i: int| baza_outcome(baza_cards_of(shown_at(round.seats@, i, n), round.marker)),
    )
}

/// The section that the truc gives: to the winner of the tricks, the points
/// of the bet.
pub open spec fn truc_score(bet: Bet, round: &Round) -> Option<RoundScoreSection> {
    if round.seats@.len() == 0 {
        None
    } else {
        match truc_outcome(baza_outcomes(round)) {
            Some(t) => Some(RoundScoreSection(t, bet.spec_score())),
            None => None,
        }
    }
}

impl TrucScorer {
    fn max_cards(round: &Round) -> (r: usize)
        ensures
            r == most_shown(round.seats@, round.seats@.len() as int),
    {
        let mut m: usize = 0;
        let mut i: usize = 0;
        while i < round.seats.len()
            invariant
                i <= round.seats@.len(),
                m == most_shown(round.seats@, i as int),
            decreases round.seats@.len() - i,
        {
            let here = round.seats[i].face_up_cards.len();
            if here > m {
                m = here;
            }
            i = i + 1;
        }
        m
    }

    fn cards_at(round: &Round, i: usize) -> (r: Vec<(Card, Team)>)
        ensures
            r@ == shown_at(round.seats@, i as int, round.seats@.len() as int),
    {
        let mut r: Vec<(Card, Team)> = Vec::new();
        let mut j: usize = 0;
        while j < round.seats.len()
            invariant
                j <= round.seats@.len(),
                r@ == shown_at(round.seats@, i as int, j as int),
            decreases round.seats@.len() - j,
        {
            if i < round.seats[j].face_up_cards.len() {
                r.push((round.seats[j].face_up_cards[i], team_of_position(j)));
            }
            j = j + 1;
        }
        r
    }
}

impl Scorer for TrucScorer {
    open spec fn can_score(&self, round: &Round) -> bool {
        true
    }

    open spec fn score_of(&self, round: &Round) -> Option<RoundScoreSection> {
        truc_score(self.agreed_bet, round)
    }

    fn get_score(&self, round: &Round) -> (r: Option<RoundScoreSection>) {
        if round.seats.len() == 0 {
            return None;
        }
        let max_cards = Self::max_cards(round);
        let ghost outcomes = baza_outcomes(round);
        let mut bazas: Vec<BazaWinner> = Vec::new();
        let mut i: usize = 0;
        while i < max_cards
            invariant
                i <= max_cards,
                max_cards == outcomes.len(),
                outcomes == baza_outcomes(round),
                bazas@ == outcomes.take(i as int),
            decreases max_cards - i,
        {
            let shown = Self::cards_at(round, i);
            let baza = Baza::new(shown.as_slice(), round.marker);
            assert(baza.cards@ =~= baza_cards_of(shown@, round.marker));
            bazas.push(baza.winner());
            assert(bazas@ =~= outcomes.take(i as int + 1));
            i = i + 1;
        }
        assert(bazas@ =~= outcomes);
        let winner = get_truc_winner(bazas.as_slice());
        let winner_score = self.agreed_bet.get_score();
        match winner {
            Some(w) => Some(RoundScoreSection(w, winner_score)),
            None => None,
        }
    }
}

} // verus!
