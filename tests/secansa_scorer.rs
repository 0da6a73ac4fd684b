use truc::deck::{Card, Deck, Suit, Value};
use truc::hands::ali::Ali;
use truc::hands::flor::Flor;
use truc::hands::secansa::Secansa;
use truc::scoreboard::{RoundScore, RoundScoreSection};
use truc::scorers::ali as ali_scoring;
use truc::scorers::flor as flor_scoring;
use truc::scorers::secansa as secansa_scoring;
use truc::scorers::Scorer;
use truc::scorers::secansa::{AgreedBet, SecansaScorer};
use truc::{Game, Player, Round, Seat, Team};

fn c(suit: Suit, value: Value) -> Card {
    Card { suit, value }
}

#[test]
fn secansa_test_set_secansa_bet() {
    let mut secansa_scorer = SecansaScorer::default();
    let bet = AgreedBet::Envit(Some(Team::Team1));

    assert!(secansa_scorer.agreed_bet.is_none());

    secansa_scorer.set_bet(bet);

    assert!(secansa_scorer.agreed_bet.is_some());

    assert_eq!(secansa_scorer.agreed_bet, Some(bet));
}

fn secansa_tests_round_fixture(game: &Game) -> Round {
    let mut round = Round::new(game, 0, Deck::default());

    round.seats = vec![
        Seat {
            player: 0,
            hand: vec![],
            face_up_cards: vec![
                c(Suit::Oros, Value::Cinco),
                c(Suit::Copas, Value::Seis),
                c(Suit::Copas, Value::Sota),
            ],
        },
        Seat {
            player: 0,
            hand: vec![],
            face_up_cards: vec![
                c(Suit::Oros, Value::Sota),
                c(Suit::Bastos, Value::Caballo),
                c(Suit::Espadas, Value::Rey),
            ],
        },
        Seat {
            player: 0,
            hand: vec![],
            face_up_cards: vec![
                c(Suit::Oros, Value::Sota),
                c(Suit::Espadas, Value::Caballo),
                c(Suit::Bastos, Value::Rey),
            ],
        },
        Seat {
            player: 0,
            hand: vec![],
            face_up_cards: vec![
                c(Suit::Copas, Value::Cinco),
                c(Suit::Oros, Value::Seis),
                c(Suit::Copas, Value::Siete),
            ],
        },
    ];

    round
}

#[test]
fn get_secansa_score_not_announced() {
    let game = Game::new(vec![Player::new("a"), Player::new("b")]);
    let round = secansa_tests_round_fixture(&game);
    let secansa_scorer = SecansaScorer::default();

    assert!(secansa_scorer.get_score(&round).is_none())
}

#[test]
fn get_secansa_score_announced_no_secansa() {
    // This situation should be impossible! Testing as it can be done in code anyway
    let game = Game::new(vec![Player::new("a"), Player::new("b")]);
    let mut round = Round::new(&game, 0, Deck::default());

    let mut secansa_scorer = SecansaScorer::default();
    secansa_scorer.set_bet(AgreedBet::Envit(None));

    round.seats = vec![
        // No secansa
        Seat {
            player: 0,
            face_up_cards: vec![
                c(Suit::Copas, Value::Siete),
                c(Suit::Bastos, Value::Tres),
                c(round.marker.suit, Value::Caballo),
            ],
            hand: vec![],
        },
    ];

    assert!(secansa_scorer.get_score(&round).is_none())
}

#[test]
fn get_secansa_score_announced_won_bet() {
    let game = Game::new(vec![Player::new("a"), Player::new("b")]);
    let round = secansa_tests_round_fixture(&game);

    let mut secansa_scorer = SecansaScorer::default();
    secansa_scorer.set_bet(AgreedBet::Announced(Some(Team::Team1)));

    let expected = Some(RoundScoreSection(Team::Team1, 4));
    assert_eq!(secansa_scorer.get_score(&round), expected);
}

#[test]
fn get_secansa_score_announced_won_from_cards() {
    let game = Game::new(vec![Player::new("a"), Player::new("b")]);
    let round = secansa_tests_round_fixture(&game);

    let mut secansa_scorer = SecansaScorer::default();
    secansa_scorer.set_bet(AgreedBet::Announced(None));

    let expected = Some(RoundScoreSection(Team::Team2, 6));
    assert_eq!(secansa_scorer.get_score(&round), expected);
}

#[test]
fn get_secansa_score_envit_won_bet() {
    let game = Game::new(vec![Player::new("a"), Player::new("b")]);
    let round = secansa_tests_round_fixture(&game);

    let mut secansa_scorer = SecansaScorer::default();
    secansa_scorer.set_bet(AgreedBet::Envit(Some(Team::Team1)));

    let expected = Some(RoundScoreSection(Team::Team1, 5));
    assert_eq!(secansa_scorer.get_score(&round), expected);
}

#[test]
fn get_secansa_score_envit_won_from_cards() {
    let game = Game::new(vec![Player::new("a"), Player::new("b")]);
    let round = secansa_tests_round_fixture(&game);

    let mut secansa_scorer = SecansaScorer::default();
    secansa_scorer.set_bet(AgreedBet::Envit(None));

    let expected = Some(RoundScoreSection(Team::Team2, 7));
    assert_eq!(secansa_scorer.get_score(&round), expected);
}

#[test]
fn get_secansa_score_tres_val_won_bet() {
    let game = Game::new(vec![Player::new("a"), Player::new("b")]);
    let round = secansa_tests_round_fixture(&game);

    let mut secansa_scorer = SecansaScorer::default();
    secansa_scorer.set_bet(AgreedBet::Val(3, Some(Team::Team1)));

    let expected = Some(RoundScoreSection(Team::Team1, 6));
    assert_eq!(secansa_scorer.get_score(&round), expected);
}

#[test]
fn get_secansa_score_tres_val_won_from_cards() {
    let game = Game::new(vec![Player::new("a"), Player::new("b")]);
    let round = secansa_tests_round_fixture(&game);

    let mut secansa_scorer = SecansaScorer::default();
    secansa_scorer.set_bet(AgreedBet::Val(3, None));

    let expected = Some(RoundScoreSection(Team::Team2, 8));
    assert_eq!(secansa_scorer.get_score(&round), expected);
}
