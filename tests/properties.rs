use truc::deck::{Card, Deck, Suit, Value};
use truc::hands::ali::Ali;
use truc::hands::flor::Flor;
use truc::hands::secansa::Secansa;
use truc::hands::Hand;
use truc::scoreboard::{Cama, GameConfig, RoundScore, RoundScoreSection, Scoreboard};
use truc::scorers::secansa::{AgreedBet, SecansaScorer};
use truc::scorers::truc::{get_truc_winner, Bet, BazaWinner, TrucScorer, TrucValue};
use truc::scorers::Scorer;
use truc::{Game, Player, Round, Seat, Team};

fn c(suit: Suit, value: Value) -> Card {
    Card { suit, value }
}

fn truc_only(team: Team, points: u8) -> RoundScore {
    RoundScore {
        rey: None,
        flor: None,
        secansa: None,
        ali: None,
        truc: RoundScoreSection(team, points),
    }
}

fn seat(player: usize, cards: Vec<Card>) -> Seat {
    Seat {
        player,
        hand: vec![],
        face_up_cards: cards,
    }
}

#[test]
fn promotions_are_the_same_on_repeated_calls() {
    let markers = [
        c(Suit::Oros, Value::Uno),
        c(Suit::Oros, Value::Caballo),
        c(Suit::Copas, Value::Sota),
    ];
    for marker in markers.iter() {
        for card in Deck::default().cards().iter() {
            assert_eq!(card.is_perico(*marker), card.is_perico(*marker));
            assert_eq!(card.is_perica(*marker), card.is_perica(*marker));
        }
    }
}

#[test]
fn promotion_rotates_when_marker_is_the_promoted_rank() {
    let marker = c(Suit::Copas, Value::Caballo);
    assert!(c(Suit::Copas, Value::Rey).is_perico(marker));
    assert!(!c(Suit::Copas, Value::Caballo).is_perico(marker));
    assert!(c(Suit::Copas, Value::Sota).is_perica(marker));
    let marker = c(Suit::Copas, Value::Sota);
    assert!(c(Suit::Copas, Value::Rey).is_perica(marker));
    assert!(c(Suit::Copas, Value::Caballo).is_perico(marker));
}

#[test]
fn next_rank_skips_nothing_and_ends_at_rey() {
    assert_eq!(Value::Siete.next(), Some(Value::Sota));
    assert_eq!(Value::Caballo.next(), Some(Value::Rey));
    assert_eq!(Value::Rey.next(), None);
}

#[test]
fn fresh_deck_has_forty_cards_and_draws_from_the_end() {
    let mut deck = Deck::default();
    assert_eq!(deck.remaining_cards(), 40);
    assert_eq!(deck.cards()[0], c(Suit::Oros, Value::Uno));
    assert_eq!(deck.draw(), Some(c(Suit::Espadas, Value::Rey)));
    assert_eq!(deck.remaining_cards(), 39);
    let mut empty = Deck::new(vec![]);
    assert_eq!(empty.draw(), None);
}

#[test]
fn flor_values_stay_within_twenty_and_forty_two() {
    let marker = c(Suit::Oros, Value::Uno);
    let lowest = Flor::from_cards(
        &[c(Suit::Copas, Value::Sota), c(Suit::Copas, Value::Caballo), c(Suit::Copas, Value::Rey)],
        marker,
    )
    .unwrap();
    assert_eq!(lowest.value(), 20);
    let highest = Flor::from_cards(
        &[c(Suit::Oros, Value::Caballo), c(Suit::Copas, Value::Siete), c(Suit::Copas, Value::Seis)],
        marker,
    )
    .unwrap();
    assert_eq!(highest.value(), 41);
    let with_both = Flor::from_cards(
        &[c(Suit::Oros, Value::Sota), c(Suit::Oros, Value::Caballo), c(Suit::Espadas, Value::Siete)],
        marker,
    )
    .unwrap();
    assert_eq!(with_both.value(), 42);
}

#[test]
fn flor_needs_exactly_three_cards() {
    let marker = c(Suit::Oros, Value::Uno);
    assert!(!Flor::is_flor(&[c(Suit::Copas, Value::Dos), c(Suit::Copas, Value::Tres)], marker));
    assert!(!Flor::is_flor(&[], marker));
    assert!(Flor::is_flor(
        &[c(Suit::Oros, Value::Sota), c(Suit::Oros, Value::Caballo), c(Suit::Copas, Value::Tres)],
        marker
    ));
}

#[test]
fn secansa_runs_of_three_and_two() {
    let three = Secansa::from_cards_slice(&[
        c(Suit::Oros, Value::Uno),
        c(Suit::Bastos, Value::Dos),
        c(Suit::Espadas, Value::Tres),
    ])
    .unwrap();
    assert_eq!(three.cards.len(), 3);
    let two = Secansa::from_cards_slice(&[
        c(Suit::Oros, Value::Uno),
        c(Suit::Bastos, Value::Dos),
        c(Suit::Espadas, Value::Cuatro),
    ])
    .unwrap();
    assert_eq!(two.cards, vec![c(Suit::Oros, Value::Uno), c(Suit::Bastos, Value::Dos)]);
}

#[test]
fn secansa_sorts_before_looking_for_runs() {
    let run = Secansa::from_cards_slice(&[
        c(Suit::Espadas, Value::Rey),
        c(Suit::Oros, Value::Sota),
        c(Suit::Bastos, Value::Caballo),
    ])
    .unwrap();
    assert_eq!(
        run.cards,
        vec![c(Suit::Oros, Value::Sota), c(Suit::Bastos, Value::Caballo), c(Suit::Espadas, Value::Rey)]
    );
    assert_eq!(*run.highest_card(), c(Suit::Espadas, Value::Rey));
}

#[test]
fn three_card_secansa_outranks_any_two_card_one() {
    let low_three = Secansa::from_cards_slice(&[
        c(Suit::Oros, Value::Uno),
        c(Suit::Bastos, Value::Dos),
        c(Suit::Espadas, Value::Tres),
    ])
    .unwrap();
    let high_two = Secansa::from_cards_slice(&[
        c(Suit::Oros, Value::Caballo),
        c(Suit::Bastos, Value::Rey),
        c(Suit::Espadas, Value::Tres),
    ])
    .unwrap();
    assert!(low_three.strength() > high_two.strength());
    let low_two = Secansa::from_cards_slice(&[
        c(Suit::Oros, Value::Uno),
        c(Suit::Bastos, Value::Dos),
        c(Suit::Espadas, Value::Siete),
    ])
    .unwrap();
    assert!(high_two.strength() > low_two.strength());
}

#[test]
fn ali_scores_for_scenarios() {
    let aces = Ali::from_cards_slice(&[
        c(Suit::Oros, Value::Uno),
        c(Suit::Bastos, Value::Uno),
        c(Suit::Espadas, Value::Uno),
    ])
    .unwrap();
    assert_eq!(aces.score(), 6);
    let pair = Ali::from_cards_slice(&[
        c(Suit::Oros, Value::Rey),
        c(Suit::Bastos, Value::Cuatro),
        c(Suit::Espadas, Value::Cuatro),
    ])
    .unwrap();
    assert_eq!(pair.score(), 1);
    assert_eq!(
        pair.cards,
        vec![c(Suit::Bastos, Value::Cuatro), c(Suit::Espadas, Value::Cuatro)]
    );
}

#[test]
fn three_of_a_rank_outranks_a_pair_of_unos() {
    let low_three = Ali::from_cards_slice(&[
        c(Suit::Oros, Value::Dos),
        c(Suit::Bastos, Value::Dos),
        c(Suit::Espadas, Value::Dos),
    ])
    .unwrap();
    let uno_pair = Ali::from_cards_slice(&[
        c(Suit::Oros, Value::Uno),
        c(Suit::Bastos, Value::Uno),
        c(Suit::Espadas, Value::Rey),
    ])
    .unwrap();
    let rey_pair = Ali::from_cards_slice(&[
        c(Suit::Oros, Value::Rey),
        c(Suit::Bastos, Value::Rey),
        c(Suit::Espadas, Value::Dos),
    ])
    .unwrap();
    assert!(low_three.strength() > uno_pair.strength());
    assert!(uno_pair.strength() > rey_pair.strength());
}

#[test]
fn truc_order_of_the_named_cards() {
    let marker = c(Suit::Oros, Value::Uno);
    let as_espadas = TrucValue::new(c(Suit::Espadas, Value::Uno), marker).strength();
    let as_bastos = TrucValue::new(c(Suit::Bastos, Value::Uno), marker).strength();
    let siete_espadas = TrucValue::new(c(Suit::Espadas, Value::Siete), marker).strength();
    let siete_oros = TrucValue::new(c(Suit::Oros, Value::Siete), marker).strength();
    assert!(as_espadas > as_bastos);
    assert!(as_bastos > siete_espadas);
    assert!(siete_espadas > siete_oros);
    assert_eq!(TrucValue::new(c(Suit::Oros, Value::Caballo), marker), TrucValue::Perico);
    assert_eq!(TrucValue::new(c(Suit::Oros, Value::Sota), marker), TrucValue::Perica);
    assert_eq!(TrucValue::new(c(Suit::Copas, Value::Uno), marker), TrucValue::AsBobo);
    assert_eq!(TrucValue::new(c(Suit::Copas, Value::Cuatro), marker).strength(), 0);
}

#[test]
fn truc_first_trick_breaks_an_open_match() {
    assert_eq!(
        get_truc_winner(&[BazaWinner::Team1, BazaWinner::Team2, BazaWinner::Parda]),
        Some(Team::Team1)
    );
    assert_eq!(get_truc_winner(&[BazaWinner::Team1, BazaWinner::Team2]), None);
}

#[test]
fn truc_bet_levels() {
    assert_eq!(Bet::NoBet.get_score(), 1);
    assert_eq!(Bet::Truc(None).get_score(), 3);
    assert_eq!(Bet::Retruc(None).get_score(), 6);
    assert_eq!(Bet::NouVal.get_score(), 9);
}

#[test]
fn truc_without_seats_scores_nothing() {
    let game = Game::new(vec![Player::new("a")]);
    let mut round = Round::new(&game, 0, Deck::default());
    round.seats = vec![];
    assert_eq!(TrucScorer::default().get_score(&round), None);
}

#[test]
fn truc_scores_the_bet_for_the_trick_winner() {
    let game = Game::new(vec![Player::new("a"), Player::new("b")]);
    let mut round = Round::new(&game, 0, Deck::default());
    round.marker = c(Suit::Oros, Value::Uno);
    round.seats = vec![
        seat(0, vec![c(Suit::Espadas, Value::Uno), c(Suit::Copas, Value::Cuatro)]),
        seat(1, vec![c(Suit::Bastos, Value::Uno), c(Suit::Copas, Value::Tres)]),
    ];
    let mut scorer = TrucScorer::default();
    assert_eq!(scorer.get_score(&round), None);
    round.seats[1].face_up_cards.push(c(Suit::Oros, Value::Caballo));
    scorer.set_bet(Bet::Retruc(None));
    assert_eq!(scorer.get_score(&round), Some(RoundScoreSection(Team::Team2, 6)));
}

#[test]
fn tie_goes_to_the_first_seat_after_the_dealer() {
    let game = Game::new(vec![Player::new("a"), Player::new("b"), Player::new("c")]);
    let mut round = Round::new(&game, 0, Deck::default());
    let run = vec![c(Suit::Oros, Value::Sota), c(Suit::Copas, Value::Caballo), c(Suit::Bastos, Value::Rey)];
    round.seats = vec![seat(0, vec![]), seat(1, run.clone()), seat(2, run.clone())];
    assert_eq!(round.get_winner_from_cards::<Secansa>(), Some(Team::Team2));
    round.dealer = 1;
    assert_eq!(round.get_winner_from_cards::<Secansa>(), Some(Team::Team1));
}

#[test]
fn play_order_starts_after_the_dealer() {
    let game = Game::new(vec![Player::new("a"), Player::new("b"), Player::new("c"), Player::new("d")]);
    let round = Round::new(&game, 2, Deck::default());
    assert_eq!(
        round.iter_from_hand(),
        vec![(Team::Team2, 3), (Team::Team1, 0), (Team::Team2, 1), (Team::Team1, 2)]
    );
    assert_eq!(
        round.iter_with_team(),
        vec![(Team::Team1, 0), (Team::Team2, 1), (Team::Team1, 2), (Team::Team2, 3)]
    );
}

#[test]
fn secansa_val_bet_adds_one_less_than_its_stakes() {
    let game = Game::new(vec![Player::new("a")]);
    let mut round = Round::new(&game, 0, Deck::default());
    round.seats = vec![seat(
        0,
        vec![c(Suit::Copas, Value::Tres), c(Suit::Copas, Value::Cinco), c(Suit::Copas, Value::Cuatro)],
    )];
    let mut scorer = SecansaScorer::default();
    scorer.set_bet(AgreedBet::Val(4, None));
    assert_eq!(scorer.get_score(&round), Some(RoundScoreSection(Team::Team1, 6)));
    scorer.set_bet(AgreedBet::Val(1, Some(Team::Team2)));
    assert_eq!(scorer.get_score(&round), Some(RoundScoreSection(Team::Team2, 0)));
}

#[test]
fn forty_points_seal_the_cama_and_two_camas_the_coto() {
    let mut scoreboard: Scoreboard = Default::default();
    scoreboard.annotate(truc_only(Team::Team1, 40));
    assert_eq!(scoreboard.cotos.len(), 1);
    assert_eq!(scoreboard.get_current_coto().cames.len(), 2);
    assert!(scoreboard.get_current_coto().get_current_cama().rounds.is_empty());
    scoreboard.annotate(truc_only(Team::Team1, 40));
    assert_eq!(scoreboard.cotos.len(), 2);
    assert_eq!(scoreboard.cotos[0].winner(scoreboard.game_config), Some(Team::Team1));
    assert_eq!(scoreboard.winner(scoreboard.game_config), None);
}

#[test]
fn annotating_leaves_sealed_units_alone() {
    let mut scoreboard: Scoreboard = Default::default();
    scoreboard.annotate(truc_only(Team::Team2, 40));
    let sealed = scoreboard.get_current_coto().cames[0].clone();
    scoreboard.annotate(truc_only(Team::Team1, 3));
    scoreboard.annotate(truc_only(Team::Team1, 40));
    let coto = scoreboard.cotos[0].clone();
    scoreboard.annotate(truc_only(Team::Team2, 40));
    assert_eq!(scoreboard.cotos.len(), 2);
    assert_eq!(scoreboard.cotos[0].cames[0], sealed);
    assert_eq!(scoreboard.cotos[0].cames[1].rounds.len(), 2);
    assert_eq!(scoreboard.cotos[0].cames[0], coto.cames[0]);
    assert_eq!(scoreboard.cotos[0].cames[1], coto.cames[1]);
}

#[test]
fn game_is_won_after_two_cotos() {
    let mut scoreboard: Scoreboard = Default::default();
    for _ in 0..4 {
        scoreboard.annotate(truc_only(Team::Team2, 40));
    }
    assert_eq!(scoreboard.winner(scoreboard.game_config), Some(Team::Team2));
    assert_eq!(scoreboard.winner(scoreboard.game_config), Some(Team::Team2));
}

#[test]
fn cama_score_and_leader() {
    let mut cama = Cama::default();
    cama.annotate(RoundScore {
        rey: Some(RoundScoreSection(Team::Team2, 2)),
        flor: None,
        secansa: None,
        ali: None,
        truc: RoundScoreSection(Team::Team1, 9),
    });
    let score = cama.score();
    assert_eq!(score.team1, 9);
    assert_eq!(score.team2, 2);
    assert_eq!(score.max(), 9);
    let config = GameConfig {
        game_win_score: 1,
        coto_win_score: 1,
        cama_win_score: 2,
    };
    assert_eq!(cama.winner(config), Some(Team::Team2));
}

#[test]
fn default_config_thresholds() {
    let config = GameConfig::default();
    assert_eq!(config.cama_win_score, 40);
    assert_eq!(config.coto_win_score, 2);
    assert_eq!(config.game_win_score, 2);
}

#[test]
fn round_deal_takes_cards_from_the_deck_in_turn() {
    let game = Game::new(vec![Player::new("a"), Player::new("b")]);
    let mut round = Round::new(&game, 0, Deck::new(vec![
        c(Suit::Oros, Value::Uno),
        c(Suit::Oros, Value::Dos),
        c(Suit::Oros, Value::Tres),
        c(Suit::Oros, Value::Cuatro),
    ]));
    assert_eq!(round.marker, c(Suit::Oros, Value::Cuatro));
    round.deal(2);
    assert_eq!(round.seats[0].hand, vec![c(Suit::Oros, Value::Tres), c(Suit::Oros, Value::Uno)]);
    assert_eq!(round.seats[1].hand, vec![c(Suit::Oros, Value::Dos)]);
    assert_eq!(round.deck.remaining_cards(), 0);
    assert!(!round.is_finished());
}

#[test]
fn show_card_moves_the_first_copy() {
    let card = c(Suit::Copas, Value::Dos);
    let mut s = Seat {
        player: 0,
        hand: vec![c(Suit::Oros, Value::Uno), card, card],
        face_up_cards: vec![],
    };
    assert_eq!(s.show_card(card), Some(card));
    assert_eq!(s.hand, vec![c(Suit::Oros, Value::Uno), card]);
    assert_eq!(s.face_up_cards, vec![card]);
}

#[test]
fn ali_groups_equal_ranks_that_are_not_neighbours() {
    let pair = Ali::from_cards_slice(&[
        c(Suit::Oros, Value::Cuatro),
        c(Suit::Bastos, Value::Rey),
        c(Suit::Espadas, Value::Cuatro),
    ])
    .unwrap();
    assert_eq!(
        pair.cards,
        vec![c(Suit::Oros, Value::Cuatro), c(Suit::Espadas, Value::Cuatro)]
    );
    let two_pairs = Ali::from_cards_slice(&[
        c(Suit::Oros, Value::Rey),
        c(Suit::Bastos, Value::Dos),
        c(Suit::Copas, Value::Rey),
        c(Suit::Espadas, Value::Dos),
    ])
    .unwrap();
    assert_eq!(two_pairs.cards, vec![c(Suit::Oros, Value::Rey), c(Suit::Copas, Value::Rey)]);
}
