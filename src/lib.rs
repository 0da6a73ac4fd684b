use vstd::prelude::*;

pub mod deck;
pub mod hands;
pub mod scoreboard;
pub mod scorers;

use crate::deck::{Card, Deck};
use crate::hands::Hand;
use crate::scoreboard::{sum_team1, sum_team2, cama_deltas, RoundScore, Scoreboard};
use crate::scorers::ali::AliScorer;
use crate::scorers::flor::FlorScorer;
use crate::scorers::rey::ReyScorer;
use crate::scorers::secansa::SecansaScorer;
use crate::scorers::truc::TrucScorer;
use crate::scorers::Scorer;

verus! {

/// The two teams; seats alternate between them around the table.
#[derive(Debug, Clone, Copy, PartialEq, Eq, Structural)]
pub enum Team {
    Team1,
    Team2,
}

/// The team of the seat at a table position: even positions play for `Team1`.
pub open spec fn team_at(pos: int) -> Team {
    if pos % 2 == 0 {
        Team::Team1
    } else {
        Team::Team2
    }
}

/// Someone taking part in the game.
#[derive(Debug, PartialEq, Eq)]
pub struct Player {
    pub name: String,
}

impl Player {
    pub fn new(name: &str) -> (p: Player)
        ensures
            p.name@ == name@,
    {
        Player { name: name.to_owned() }
    }
}

/// A place at the table: the player sitting there (an index into the game's
/// players), the cards in hand and the cards shown, in the order shown.
#[derive(Debug, Clone, PartialEq, Eq)]
pub struct Seat {
    pub player: usize,
    pub hand: Vec<Card>,
    pub face_up_cards: Vec<Card>,
}

/// The first position at which `c` stands in `s`, or `s.len()`.
pub open spec fn position_of(s: Seq<Card>, c: Card) -> int
    decreases s.len(),
{
    if s.len() == 0 {
        0
    } else {
        let p = position_of(s.drop_last(), c);
        if p < s.len() - 1 {
            p
        } else if s.last() == c {
            s.len() - 1
        } else {
            s.len() as int
        }
    }
}

proof fn lemma_position_of(s: Seq<Card>, c: Card)
    ensures
        0 <= position_of(s, c) <= s.len(),
        position_of(s, c) < s.len() ==> s[position_of(s, c)] == c,
        forall|k: int| 0 <= k < position_of(s, c) ==> s[k] != c,
    decreases s.len(),
{
    if s.len() > 0 {
        lemma_position_of(s.drop_last(), c);
        assert forall|k: int| 0 <= k < position_of(s, c) implies s[k] != c by {
            if k < s.len() - 1 {
                assert(s[k] == s.drop_last()[k]);
            }
        }
    }
}

impl Seat {
    pub fn new(player: usize) -> (s: Seat)
        ensures
            s.player == player,
            s.hand@.len() == 0,
            s.face_up_cards@.len() == 0,
    {
        Seat { player, hand: Vec::new(), face_up_cards: Vec::new() }
    }

    /// The team of the seat at position `seat_number`.
    pub fn get_team(&self, seat_number: u8) -> (t: Team)
        ensures
            t == team_at(seat_number as int),
    {
        if seat_number % 2 == 0 {
            Team::Team1
        } else {
            Team::Team2
        }
    }

    /// Takes the first copy of `card` out of the hand, if the hand holds it.
    pub fn discard(&mut self, card: Card) -> (r: Option<Card>)
        ensures
            final(self).player == old(self).player,
            final(self).face_up_cards@ == old(self).face_up_cards@,
            position_of(old(self).hand@, card) < old(self).hand@.len() ==> r == Some(card)
                && final(self).hand@ == old(self).hand@.remove(position_of(old(self).hand@, card)),
            position_of(old(self).hand@, card) == old(self).hand@.len() ==> r is None
                && final(self).hand@ == old(self).hand@,
    {
        proof {
            lemma_position_of(self.hand@, card);
        }
        let mut i: usize = 0;
        while i < self.hand.len()
            invariant
                i <= self.hand@.len(),
                self.hand@ == old(self).hand@,
                self.player == old(self).player,
                self.face_up_cards@ == old(self).face_up_cards@,
                forall|k: int| 0 <= k < i ==> self.hand@[k] != card,
            decreases self.hand@.len() - i,
        {
            if self.hand[i] == card {
                proof {
                    lemma_position_of(self.hand@, card);
                    assert(position_of(self.hand@, card) == i);
                }
                return Some(self.hand.remove(i));
            }
            i = i + 1;
        }
        None
    }

    /// Moves `card` from the hand to the shown cards, if the hand holds it.
    pub fn show_card(&mut self, card: Card) -> (r: Option<Card>)
        ensures
            final(self).player == old(self).player,
            position_of(old(self).hand@, card) < old(self).hand@.len() ==> r == Some(card)
                && final(self).hand@ == old(self).hand@.remove(position_of(old(self).hand@, card))
                && final(self).face_up_cards@ == old(self).face_up_cards@.push(card),
            position_of(old(self).hand@, card) == old(self).hand@.len() ==> r is None
                && final(self).hand@ == old(self).hand@ && final(self).face_up_cards@ == old(
                self,
            ).face_up_cards@,
    {
        proof {
            lemma_position_of(self.hand@, card);
        }
        if self.discard(card).is_some() {
            self.face_up_cards.push(card);
            Some(card)
        } else {
            None
        }
    }
}

/// The players and the scoreboard of a game.
#[derive(Debug)]
pub struct Game {
    pub players: Vec<Player>,
    pub scoreboard: Scoreboard,
}

impl Game {
    pub fn new(players: Vec<Player>) -> (g: Game)
        ensures
            g.players@ == players@,
            g.scoreboard.wf(),
            g.scoreboard@ == seq![seq![Seq::<RoundScore>::empty()]],
            g.scoreboard.game_config.cama_win_score == 40,
    {
        Game { players, scoreboard: Scoreboard::default() }
    }
}

/// The first seat, from `i` on, where `player` sits; `seats.len()` if none.
pub open spec fn seat_of(seats: Seq<Seat>, player: usize, i: int) -> int
    decreases seats.len() - i,
{
    if i < 0 || i >= seats.len() {
        seats.len() as int
    } else if seats[i].player == player {
        i
    } else {
        seat_of(seats, player, i + 1)
    }
}

proof fn lemma_seat_of(seats: Seq<Seat>, player: usize, i: int)
    requires
        0 <= i <= seats.len(),
    ensures
        i <= seat_of(seats, player, i) <= seats.len(),
        seat_of(seats, player, i) < seats.len() ==> seats[seat_of(seats, player, i)].player
            == player,
        forall|k: int| i <= k < seat_of(seats, player, i) ==> #[trigger] seats[k].player != player,
    decreases seats.len() - i,
{
    if i < seats.len() {
        lemma_seat_of(seats, player, i + 1);
    }
}

/// The table position of the seat that plays `k`-th, starting with the seat
/// right after the dealer's.
pub open spec fn play_position(dealer: int, n: int, k: int) -> int {
    (dealer + 1 + k) % n
}

/// Among the first `n` entries, the first that holds the greatest value;
/// later entries replace it only when strictly greater.
pub open spec fn first_best(ss: Seq<Option<int>>, n: int) -> Option<int>
    decreases n,
{
    if n <= 0 || n > ss.len() {
        None
    } else {
        let b = first_best(ss, n - 1);
        match ss[n - 1] {
            Some(v) => match b {
                Some(k) => if v > ss[k]->0 {
                    Some(n - 1)
                } else {
                    b
                },
                None => Some(n - 1),
            },
            None => b,
        }
    }
}

proof fn lemma_first_best(ss: Seq<Option<int>>, n: int)
    requires
        0 <= n <= ss.len(),
    ensures
        first_best(ss, n) is None ==> forall|j: int| 0 <= j < n ==> #[trigger] ss[j] is None,
        first_best(ss, n) matches Some(k) ==> {
            &&& 0 <= k < n
            &&& ss[k] is Some
            &&& forall|j: int| 0 <= j < n && #[trigger] ss[j] is Some ==> ss[j]->0 <= ss[k]->0
            &&& forall|j: int| 0 <= j < k && #[trigger] ss[j] is Some ==> ss[j]->0 < ss[k]->0
        },
    decreases n,
{
    if n > 0 {
        lemma_first_best(ss, n - 1);
    }
}

/// How many cards a deck of `len` keeps after `k` are asked from it.
pub open spec fn cards_left(len: int, k: int) -> int {
    if k <= len {
        len - k
    } else {
        0
    }
}

/// The cards that the seat at position `j` of `n` receives in `rounds`
/// rounds of dealing from `deck`, drawn from its end: in round `r` it gets the
/// card drawn `r * n + j`-th, while the deck lasts.
pub open spec fn dealt(deck: Seq<Card>, n: int, j: int, rounds: int) -> Seq<Card>
    decreases rounds,
{
    if rounds <= 0 {
        Seq::empty()
    } else {
        let prev = dealt(deck, n, j, rounds - 1);
        let k = (rounds - 1) * n + j;
        if k < deck.len() {
            prev.push(deck[deck.len() - 1 - k])
        } else {
            prev
        }
    }
}

/// Seats in play order, from the seat after the dealer's round the table.
pub open spec fn play_order(dealer: int, n: int) -> Seq<int> {
    Seq::new(n as nat, |k: int| play_position(dealer, n, k))
}

/// A round: the seats, the dealer, the deck, the marker, the bets agreed on
/// each game, and the current cama's threshold and leading score.
pub struct Round {
    pub seats: Vec<Seat>,
    pub dealer: usize,
    pub deck: Deck,
    pub marker: Card,
    pub flor_scorer: FlorScorer,
    pub secansa_scorer: SecansaScorer,
    pub ali_scorer: AliScorer,
    pub truc_scorer: TrucScorer,
    pub cama_win_score: u8,
    pub cama_leading_score: u8,
}

impl Round {
    /// Whether the dealer sits at the table.
    pub open spec fn dealer_seated(&self) -> bool {
        seat_of(self.seats@, self.dealer, 0) < self.seats@.len()
    }

    /// The first seat where the dealer sits.
    pub open spec fn spec_dealer_position(&self) -> int {
        seat_of(self.seats@, self.dealer, 0)
    }

    /// Table positions in play order.
    pub open spec fn spec_play_order(&self) -> Seq<int> {
        play_order(self.spec_dealer_position(), self.seats@.len() as int)
    }

    /// The strength of each seat's hand of kind `H`, in play order.
    pub open spec fn strengths<H: Hand>(&self) -> Seq<Option<int>> {
        self.spec_play_order().map_values(
            |p: int| H::hand_strength(self.seats@[p].face_up_cards@, self.marker),
        )
    }

    /// The team of the first seat in play order holding the strongest hand of
    /// kind `H`.
    pub open spec fn spec_winner_from_cards<H: Hand>(&self) -> Option<Team> {
        match first_best(self.strengths::<H>(), self.seats@.len() as int) {
            Some(k) => Some(team_at(self.spec_play_order()[k])),
            None => None,
        }
    }

    /// Starts a round with the game's players seated in order; the marker is
    /// drawn from the deck.
    pub fn new(game: &Game, dealer: usize, deck: Deck) -> (r: Round)
        requires
            deck@.len() > 0,
            game.scoreboard.wf(),
            sum_team1(cama_deltas(game.scoreboard@.last().last())) <= u8::MAX,
            sum_team2(cama_deltas(game.scoreboard@.last().last())) <= u8::MAX,
        ensures
            r.seats@.len() == game.players@.len(),
            forall|i: int|
                0 <= i < r.seats@.len() ==> (#[trigger] r.seats@[i]).player == i
                    && r.seats@[i].hand@.len() == 0 && r.seats@[i].face_up_cards@.len() == 0,
            r.dealer == dealer,
            r.marker == deck@.last(),
            r.deck@ == deck@.drop_last(),
            r.flor_scorer.agreed_bet is None,
            r.secansa_scorer.agreed_bet is None,
            r.ali_scorer.agreed_bet is None,
            r.truc_scorer.agreed_bet == crate::scorers::truc::Bet::NoBet,
            r.cama_win_score == game.scoreboard.game_config.cama_win_score,
            r.cama_leading_score == if sum_team1(cama_deltas(game.scoreboard@.last().last()))
                >= sum_team2(cama_deltas(game.scoreboard@.last().last())) {
                sum_team1(cama_deltas(game.scoreboard@.last().last()))
            } else {
                sum_team2(cama_deltas(game.scoreboard@.last().last()))
            },
    {
        let mut seats: Vec<Seat> = Vec::new();
        let mut i: usize = 0;
        while i < game.players.len()
            invariant
                i <= game.players@.len(),
                seats@.len() == i,
                forall|k: int|
                    0 <= k < i ==> (#[trigger] seats@[k]).player == k && seats@[k].hand@.len()
                        == 0 && seats@[k].face_up_cards@.len() == 0,
            decreases game.players@.len() - i,
        {
            seats.push(Seat::new(i));
            i = i + 1;
        }
        let mut deck = deck;
        let marker = deck.draw().unwrap();
        let cama_score = game.scoreboard.current_cama_score();
        Round {
            seats,
            dealer,
            deck,
            marker,
            flor_scorer: FlorScorer::default(),
            secansa_scorer: SecansaScorer::default(),
            ali_scorer: AliScorer::default(),
            truc_scorer: TrucScorer::default(),
            cama_win_score: game.scoreboard.game_config.cama_win_score,
            cama_leading_score: cama_score.max(),
        }
    }

    /// The first seat where the dealer sits.
    pub fn dealer_position(&self) -> (r: usize)
        requires
            self.dealer_seated(),
        ensures
            r == self.spec_dealer_position(),
            r < self.seats@.len(),
            self.seats@[r as int].player == self.dealer,
    {
        proof {
            lemma_seat_of(self.seats@, self.dealer, 0);
        }
        let mut i: usize = 0;
        while i < self.seats.len()
            invariant
                i <= self.seats@.len(),
                seat_of(self.seats@, self.dealer, 0) == seat_of(self.seats@, self.dealer, i as int),
                seat_of(self.seats@, self.dealer, 0) < self.seats@.len(),
            decreases self.seats@.len() - i,
        {
            if self.seats[i].player == self.dealer {
                return i;
            }
            i = i + 1;
        }
        i
    }

    /// Deals `num_cards` rounds of one card to each seat, in table order,
    /// while the deck lasts.
    pub fn deal(&mut self, num_cards: usize)
        ensures
            final(self).seats@.len() == old(self).seats@.len(),
            final(self).dealer == old(self).dealer,
            final(self).marker == old(self).marker,
            final(self).deck@ == old(self).deck@.take(
                cards_left(
                    old(self).deck@.len() as int,
                    num_cards * old(self).seats@.len(),
                ),
            ),
            forall|i: int|
                0 <= i < final(self).seats@.len() ==> {
                    &&& (#[trigger] final(self).seats@[i]).player == old(self).seats@[i].player
                    &&& final(self).seats@[i].face_up_cards@ == old(self).seats@[i].face_up_cards@
                    &&& final(self).seats@[i].hand@ == old(self).seats@[i].hand@ + dealt(
                        old(self).deck@,
                        old(self).seats@.len() as int,
                        i,
                        num_cards as int,
                    )
                },
    {
        let n = self.seats.len();
        let ghost deck = old(self).deck@;
        let ghost len = deck.len() as int;
        let mut r: usize = 0;
        while r < num_cards
            invariant
                r <= num_cards,
                n == self.seats@.len(),
                self.seats@.len() == old(self).seats@.len(),
                deck == old(self).deck@,
                len == deck.len(),
                self.dealer == old(self).dealer,
                self.marker == old(self).marker,
                self.deck@ == deck.take(cards_left(len, r * n)),
                forall|i: int|
                    0 <= i < n ==> {
                        &&& (#[trigger] self.seats@[i]).player == old(self).seats@[i].player
                        &&& self.seats@[i].face_up_cards@ == old(self).seats@[i].face_up_cards@
                        &&& self.seats@[i].hand@ == old(self).seats@[i].hand@ + dealt(
                            deck,
                            n as int,
                            i,
                            r as int,
                        )
                    },
            decreases num_cards - r,
        {
            let mut j: usize = 0;
            while j < n
                invariant
                    j <= n,
                    r < num_cards,
                    n == self.seats@.len(),
                    self.seats@.len() == old(self).seats@.len(),
                    deck == old(self).deck@,
                    len == deck.len(),
                    self.dealer == old(self).dealer,
                    self.marker == old(self).marker,
                    self.deck@ == deck.take(cards_left(len, r * n + j)),
                    forall|i: int|
                        0 <= i < n ==> {
                            &&& (#[trigger] self.seats@[i]).player == old(self).seats@[i].player
                            &&& self.seats@[i].face_up_cards@ == old(
                                self,
                            ).seats@[i].face_up_cards@
                            &&& self.seats@[i].hand@ == old(self).seats@[i].hand@ + dealt(
                                deck,
                                n as int,
                                i,
                                if i < j {
                                    r + 1
                                } else {
                                    r as int
                                },
                            )
                        },
                decreases n - j,
            {
                let ghost k = r * n + j;
                let ghost before = self.seats@;
                let drawn = self.deck.draw();
                proof {
                    assert(r * n + j + 1 == k + 1);
                    if k < len {
                        assert(drawn == Some(deck[len - 1 - k]));
                        assert(self.deck@ =~= deck.take(cards_left(len, k + 1)));
                    } else {
                        assert(self.deck@ == deck.take(cards_left(len, k + 1)));
                    }
                    assert(dealt(deck, n as int, j as int, r + 1) == if k < len {
                        dealt(deck, n as int, j as int, r as int).push(deck[len - 1 - k])
                    } else {
                        dealt(deck, n as int, j as int, r as int)
                    });
                }
                if let Some(card) = drawn {
                    self.seats[j].hand.push(card);
                }
                proof {
                    assert forall|i: int| 0 <= i < n implies {
                        &&& (#[trigger] self.seats@[i]).player == old(self).seats@[i].player
                        &&& self.seats@[i].face_up_cards@ == old(self).seats@[i].face_up_cards@
                        &&& self.seats@[i].hand@ == old(self).seats@[i].hand@ + dealt(
                            deck,
                            n as int,
                            i,
                            if i < j + 1 {
                                r + 1
                            } else {
                                r as int
                            },
                        )
                    } by {
                        if i != j {
                            assert(self.seats@[i] == before[i]);
                        } else {
                            assert(self.seats@[i].hand@ =~= old(self).seats@[i].hand@ + dealt(
                                deck,
                                n as int,
                                i,
                                r + 1,
                            ));
                        }
                    }
                }
                j = j + 1;
            }
            proof {
                assert((r + 1) * n == r * n + n) by (nonlinear_arith);
            }
            r = r + 1;
        }
    }

    /// Whether every seat has played all its cards.
    pub fn is_finished(&self) -> (r: bool)
        ensures
            r == forall|i: int|
                0 <= i < self.seats@.len() ==> #[trigger] self.seats@[i].hand@.len() == 0,
    {
        let mut i: usize = 0;
        while i < self.seats.len()
            invariant
                i <= self.seats@.len(),
                forall|k: int| 0 <= k < i ==> #[trigger] self.seats@[k].hand@.len() == 0,
            decreases self.seats@.len() - i,
        {
            if self.seats[i].hand.len() != 0 {
                return false;
            }
            i = i + 1;
        }
        true
    }

    /// Each seat's team, in table order.
    pub fn iter_with_team(&self) -> (r: Vec<(Team, usize)>)
        ensures
            r@.len() == self.seats@.len(),
            forall|i: int| 0 <= i < r@.len() ==> #[trigger] r@[i] == (team_at(i), i as usize),
    {
        let mut r: Vec<(Team, usize)> = Vec::new();
        let mut i: usize = 0;
        while i < self.seats.len()
            invariant
                i <= self.seats@.len(),
                r@.len() == i,
                forall|k: int| 0 <= k < i ==> #[trigger] r@[k] == (team_at(k), k as usize),
            decreases self.seats@.len() - i,
        {
            r.push((team_of_position(i), i));
            i = i + 1;
        }
        r
    }

    /// Each seat's team and position, in play order: from the seat after the
    /// dealer's, round the table.
    pub fn iter_from_hand(&self) -> (r: Vec<(Team, usize)>)
        requires
            self.dealer_seated(),
        ensures
            r@.len() == self.seats@.len(),
            forall|k: int|
                0 <= k < r@.len() ==> #[trigger] r@[k] == (
                    team_at(self.spec_play_order()[k]),
                    self.spec_play_order()[k] as usize,
                ),
            forall|k: int| 0 <= k < r@.len() ==> 0 <= #[trigger] self.spec_play_order()[k] < self.seats@.len(),
    {
        let n = self.seats.len();
        let d = self.dealer_position();
        let start: usize = if d + 1 == n {
            0
        } else {
            d + 1
        };
        let mut r: Vec<(Team, usize)> = Vec::new();
        let mut k: usize = 0;
        while k < n
            invariant
                n == self.seats@.len(),
                d < n,
                d == self.spec_dealer_position(),
                start == if d + 1 == n {
                    0
                } else {
                    d + 1
                },
                k <= n,
                r@.len() == k,
                forall|j: int|
                    0 <= j < k ==> #[trigger] r@[j] == (
                        team_at(play_position(d as int, n as int, j)),
                        play_position(d as int, n as int, j) as usize,
                    ),
            decreases n - k,
        {
            let pos: usize = if k < n - start {
                start + k
            } else {
                k - (n - start)
            };
            assert(pos == play_position(d as int, n as int, k as int)) by {
                let dd = d as int;
                let nn = n as int;
                let kk = k as int;
                if dd + 1 == nn {
                    assert((dd + 1 + kk) % nn == kk % nn) by {
                        vstd::arithmetic::div_mod::lemma_mod_add_multiples_vanish(kk, nn);
                    }
                    vstd::arithmetic::div_mod::lemma_small_mod(kk as nat, nn as nat);
                } else if dd + 1 + kk < nn {
                    vstd::arithmetic::div_mod::lemma_small_mod((dd + 1 + kk) as nat, nn as nat);
                } else {
                    vstd::arithmetic::div_mod::lemma_mod_add_multiples_vanish(dd + 1 + kk - nn, nn);
                    vstd::arithmetic::div_mod::lemma_small_mod((dd + 1 + kk - nn) as nat, nn as nat);
                }
            }
            r.push((team_of_position(pos), pos));
            k = k + 1;
        }
        proof {
            assert forall|j: int| 0 <= j < n implies 0 <= #[trigger] self.spec_play_order()[j] < n by {
                vstd::arithmetic::div_mod::lemma_mod_bound(d + 1 + j, n as int);
            }
        }
        r
    }

    /// The team of the first seat in play order holding the strongest hand of
    /// kind `H` among the cards shown; `None` when no seat holds one.
    pub fn get_winner_from_cards<H: Hand>(&self) -> (r: Option<Team>)
        requires
            self.dealer_seated(),
        ensures
            r == self.spec_winner_from_cards::<H>(),
    {
        let order = self.iter_from_hand();
        let n = order.len();
        let ghost ss = self.strengths::<H>();
        let mut best: Option<(Team, u8)> = None;
        let ghost mut best_k: Option<int> = None;
        let mut k: usize = 0;
        while k < n
            invariant
                n == order@.len(),
                n == self.seats@.len(),
                k <= n,
                ss == self.strengths::<H>(),
                ss.len() == n,
                forall|j: int|
                    0 <= j < n ==> #[trigger] order@[j] == (
                        team_at(self.spec_play_order()[j]),
                        self.spec_play_order()[j] as usize,
                    ),
                forall|j: int| 0 <= j < n ==> 0 <= #[trigger] self.spec_play_order()[j] < n,
                best_k == first_best(ss, k as int),
                best_k is None <==> best is None,
                best_k matches Some(bk) ==> 0 <= bk < k && ss[bk] is Some && (best matches Some(
                    (t, v),
                ) && t == team_at(self.spec_play_order()[bk]) && v as int == ss[bk]->0),
            decreases n - k,
        {
            let (team, pos) = order[k];
            let hand = H::from_cards(self.seats[pos].face_up_cards.as_slice(), self.marker);
            assert(ss[k as int] == H::hand_strength(
                self.seats@[pos as int].face_up_cards@,
                self.marker,
            ));
            match hand {
                Some(h) => {
                    let s = h.strength();
                    let better = match best {
                        Some((_, b)) => s > b,
                        None => true,
                    };
                    if better {
                        best = Some((team, s));
                        proof {
                            best_k = Some(k as int);
                        }
                    }
                },
                None => {},
            }
            k = k + 1;
        }
        match best {
            Some((team, _)) => Some(team),
            None => None,
        }
    }

    /// Whether every game's points fit the score's range.
    pub open spec fn scores_fit(&self) -> bool {
        &&& self.flor_scorer.can_score(self)
        &&& self.secansa_scorer.can_score(self)
        &&& self.ali_scorer.can_score(self)
        &&& ReyScorer.can_score(self)
    }

    /// The score of the round: each game's section, when the truc has a
    /// winner.
    pub open spec fn spec_round_score(&self) -> Option<RoundScore> {
        match self.truc_scorer.score_of(self) {
            None => None,
            Some(truc) => Some(
                RoundScore {
                    flor: self.flor_scorer.score_of(self),
                    secansa: self.secansa_scorer.score_of(self),
                    ali: self.ali_scorer.score_of(self),
                    rey: ReyScorer.score_of(self),
                    truc,
                },
            ),
        }
    }

    /// The score of every game of the round; `None` while the truc has no
    /// winner.
    pub fn get_round_score(&self) -> (r: Option<RoundScore>)
        requires
            self.scores_fit(),
        ensures
            r == self.spec_round_score(),
    {
        let truc = match self.truc_scorer.get_score(self) {
            Some(t) => t,
            None => {
                return None;
            },
        };
        let rey_scorer = ReyScorer;
        Some(
            RoundScore {
                flor: self.flor_scorer.get_score(self),
                secansa: self.secansa_scorer.get_score(self),
                ali: self.ali_scorer.get_score(self),
                rey: rey_scorer.get_score(self),
                truc,
            },
        )
    }

    pub fn set_flor_bet(&mut self, agreed_bet: crate::scorers::flor::AgreedBet)
        ensures
            final(self).flor_scorer.agreed_bet == Some(agreed_bet),
            final(self).seats == old(self).seats,
            final(self).marker == old(self).marker,
            final(self).dealer == old(self).dealer,
    {
        self.flor_scorer.set_bet(agreed_bet);
    }

    pub fn set_secansa_bet(&mut self, agreed_bet: crate::scorers::secansa::AgreedBet)
        ensures
            final(self).secansa_scorer.agreed_bet == Some(agreed_bet),
            final(self).seats == old(self).seats,
            final(self).marker == old(self).marker,
            final(self).dealer == old(self).dealer,
    {
        self.secansa_scorer.set_bet(agreed_bet);
    }

    pub fn set_ali_bet(&mut self, agreed_bet: crate::scorers::ali::AgreedBet)
        ensures
            final(self).ali_scorer.agreed_bet == Some(agreed_bet),
            final(self).seats == old(self).seats,
            final(self).marker == old(self).marker,
            final(self).dealer == old(self).dealer,
    {
        self.ali_scorer.set_bet(agreed_bet);
    }

    pub fn set_truc_bet(&mut self, agreed_bet: crate::scorers::truc::Bet)
        ensures
            final(self).truc_scorer.agreed_bet == agreed_bet,
            final(self).seats == old(self).seats,
            final(self).marker == old(self).marker,
            final(self).dealer == old(self).dealer,
    {
        self.truc_scorer.set_bet(agreed_bet);
    }
}

/// The cards decide for the seat that holds the strongest hand; when several
/// seats hold hands of that strength, for the one that plays first after the
/// dealer. No seat with a hand means no winner.
pub proof fn lemma_ties_go_to_first_in_play_order<H: Hand>(round: &Round)
    requires
        round.dealer_seated(),
    ensures
        round.spec_winner_from_cards::<H>() is None <==> forall|k: int|
            0 <= k < round.seats@.len() ==> #[trigger] round.strengths::<H>()[k] is None,
        round.spec_winner_from_cards::<H>() matches Some(t) ==> exists|k: int|
            0 <= k < round.seats@.len() && (#[trigger] round.strengths::<H>()[k]) is Some && t
                == team_at(round.spec_play_order()[k]) && (forall|j: int|
                0 <= j < round.seats@.len() && (#[trigger] round.strengths::<H>()[j]) is Some
                    ==> round.strengths::<H>()[j]->0 <= round.strengths::<H>()[k]->0) && (forall|
                j: int,
            |
                0 <= j < k && (#[trigger] round.strengths::<H>()[j]) is Some
                    ==> round.strengths::<H>()[j]->0 < round.strengths::<H>()[k]->0),
{
    let ss = round.strengths::<H>();
    let n = round.seats@.len() as int;
    lemma_first_best(ss, n);
    if let Some(k) = first_best(ss, n) {
        assert(ss[k] is Some);
    } else {
        assert forall|k: int| 0 <= k < n implies #[trigger] ss[k] is None by {}
    }
}

/// The team of the seat at a table position.
pub fn team_of_position(pos: usize) -> (t: Team)
    ensures
        t == team_at(pos as int),
{
    if pos % 2 == 0 {
        Team::Team1
    } else {
        Team::Team2
    }
}

} // verus!
