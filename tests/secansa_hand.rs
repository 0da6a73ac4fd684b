use truc::hands::secansa::Secansa;
use truc::hands::Hand;
use truc::deck::{Card, Suit, Value};

fn c(suit: Suit, value: Value) -> Card {
    Card { suit, value }
}

#[test]
fn secansa_is_secansa_3_true() {
    let hand = [
        c(Suit::Oros, Value::Uno),
        c(Suit::Bastos, Value::Dos),
        c(Suit::Espadas, Value::Tres),
    ];
    assert!(Secansa::sorted_secansa_cards(&hand).is_some());

    let hand = [
        c(Suit::Copas, Value::Sota),
        c(Suit::Bastos, Value::Caballo),
        c(Suit::Espadas, Value::Rey),
    ];
    assert!(Secansa::sorted_secansa_cards(&hand).is_some());
}

#[test]
fn secansa_is_secansa_2_true() {
    let hand = [
        c(Suit::Oros, Value::Uno),
        c(Suit::Bastos, Value::Dos),
        c(Suit::Espadas, Value::Cuatro),
    ];
    assert!(Secansa::sorted_secansa_cards(&hand).is_some());

    let hand = [
        c(Suit::Copas, Value::Siete),
        c(Suit::Bastos, Value::Caballo),
        c(Suit::Espadas, Value::Rey),
    ];
    assert!(Secansa::sorted_secansa_cards(&hand).is_some());
}

#[test]
fn secansa_is_secansa_false() {
    let hand = [
        c(Suit::Oros, Value::Uno),
        c(Suit::Bastos, Value::Tres),
        c(Suit::Espadas, Value::Cinco),
    ];
    assert!(Secansa::sorted_secansa_cards(&hand).is_none());

    let hand = [
        c(Suit::Copas, Value::Sota),
        c(Suit::Bastos, Value::Sota),
        c(Suit::Espadas, Value::Rey),
    ];
    assert!(Secansa::sorted_secansa_cards(&hand).is_none());
}

#[test]
fn secansa_is_secansa_3_cards_true() {
    let hand = [
        c(Suit::Oros, Value::Uno),
        c(Suit::Bastos, Value::Dos),
        c(Suit::Espadas, Value::Tres),
    ];
    assert!(
        Secansa::from_cards_slice(&hand)
            .unwrap()
            .is_secansa_3_cards()
    );
}

#[test]
fn secansa_is_secansa_3_cards_false() {
    let hand = [
        c(Suit::Oros, Value::Uno),
        c(Suit::Bastos, Value::Dos),
        c(Suit::Espadas, Value::Cuatro),
    ];
    assert!(!Secansa::from_cards_slice(&hand)
        .unwrap()
        .is_secansa_3_cards());
}

#[test]
fn secansa_score_2_cards() {
    let hand = [
        c(Suit::Oros, Value::Uno),
        c(Suit::Bastos, Value::Dos),
        c(Suit::Espadas, Value::Cuatro),
    ];
    assert_eq!(Secansa::from_cards_slice(&hand).unwrap().score(), 1);
}

#[test]
fn secansa_score_3_cards() {
    let hand = [
        c(Suit::Oros, Value::Uno),
        c(Suit::Bastos, Value::Dos),
        c(Suit::Espadas, Value::Tres),
    ];
    assert_eq!(Secansa::from_cards_slice(&hand).unwrap().score(), 3);
}

#[test]
fn secansa_secansa_ordering() {
    let secansa_3_cards = Secansa::from_cards_slice(&[
        c(Suit::Oros, Value::Uno),
        c(Suit::Bastos, Value::Dos),
        c(Suit::Espadas, Value::Tres),
    ]);
    let secansa_real = Secansa::from_cards_slice(&[
        c(Suit::Oros, Value::Uno),
        c(Suit::Bastos, Value::Dos),
        c(Suit::Espadas, Value::Tres),
    ]);
    let secansa_2_top = Secansa::from_cards_slice(&[
        c(Suit::Oros, Value::Sota),
        c(Suit::Bastos, Value::Caballo),
        c(Suit::Espadas, Value::Tres),
    ]);
    let secansa_2_low = Secansa::from_cards_slice(&[
        c(Suit::Oros, Value::Dos),
        c(Suit::Bastos, Value::Uno),
        c(Suit::Espadas, Value::Cinco),
    ]);
    let secansa_2_low_with_high_card = Secansa::from_cards_slice(&[
        c(Suit::Oros, Value::Dos),
        c(Suit::Bastos, Value::Tres),
        c(Suit::Espadas, Value::Rey),
    ]);
    let expected = [
        &secansa_2_low,
        &secansa_2_low_with_high_card,
        &secansa_2_top,
        &secansa_3_cards,
        &secansa_real,
    ];
    let mut result = [
        &secansa_3_cards,
        &secansa_2_low_with_high_card,
        &secansa_2_top,
        &secansa_real,
        &secansa_2_low,
    ];
    result.sort_by_key(|s| s.as_ref().map(|s| s.strength()));
    assert_eq!(expected, result);
}
