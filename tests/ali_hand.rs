use truc::hands::ali::Ali;
use truc::hands::Hand;
use truc::deck::{Card, Suit, Value};

fn c(suit: Suit, value: Value) -> Card {
    Card { suit, value }
}

#[test]
fn ali_is_ali_3_true() {
    let hand = [
        c(Suit::Oros, Value::Uno),
        c(Suit::Bastos, Value::Uno),
        c(Suit::Espadas, Value::Uno),
    ];
    assert!(Ali::from_cards_slice(&hand).is_some());

    let hand = [
        c(Suit::Copas, Value::Rey),
        c(Suit::Bastos, Value::Rey),
        c(Suit::Espadas, Value::Rey),
    ];
    assert!(Ali::from_cards_slice(&hand).is_some());
}

#[test]
fn ali_is_ali_2_true() {
    let hand = [
        c(Suit::Oros, Value::Uno),
        c(Suit::Bastos, Value::Uno),
        c(Suit::Oros, Value::Cuatro),
    ];
    assert!(Ali::from_cards_slice(&hand).is_some());

    let hand = [
        c(Suit::Copas, Value::Siete),
        c(Suit::Bastos, Value::Rey),
        c(Suit::Copas, Value::Rey),
    ];
    assert!(Ali::from_cards_slice(&hand).is_some());
}

#[test]
fn ali_is_ali_false() {
    let hand = [
        c(Suit::Oros, Value::Uno),
        c(Suit::Bastos, Value::Tres),
        c(Suit::Espadas, Value::Cinco),
    ];
    assert!(Ali::from_cards_slice(&hand).is_none());

    let hand = [
        c(Suit::Copas, Value::Caballo),
        c(Suit::Bastos, Value::Sota),
        c(Suit::Espadas, Value::Rey),
    ];
    assert!(Ali::from_cards_slice(&hand).is_none());
}

#[test]
fn is_ali_3_cards_true() {
    let hand = [
        c(Suit::Oros, Value::Uno),
        c(Suit::Bastos, Value::Uno),
        c(Suit::Espadas, Value::Uno),
    ];
    assert!(Ali::from_cards_slice(&hand).unwrap().is_ali_3_cards());
}

#[test]
fn is_ali_3_cards_false() {
    let hand = [
        c(Suit::Oros, Value::Rey),
        c(Suit::Bastos, Value::Cuatro),
        c(Suit::Espadas, Value::Cuatro),
    ];
    assert!(!Ali::from_cards_slice(&hand).unwrap().is_ali_3_cards());
}

#[test]
fn ali_score_2_cards() {
    let hand = [
        c(Suit::Oros, Value::Rey),
        c(Suit::Bastos, Value::Cuatro),
        c(Suit::Espadas, Value::Cuatro),
    ];
    assert_eq!(Ali::from_cards_slice(&hand).unwrap().score(), 1);
}

#[test]
fn ali_score_2_aces() {
    let hand = [
        c(Suit::Oros, Value::Rey),
        c(Suit::Bastos, Value::Uno),
        c(Suit::Espadas, Value::Uno),
    ];
    assert_eq!(Ali::from_cards_slice(&hand).unwrap().score(), 3);
}

#[test]
fn ali_score_3_cards() {
    let hand = [
        c(Suit::Oros, Value::Cuatro),
        c(Suit::Bastos, Value::Cuatro),
        c(Suit::Espadas, Value::Cuatro),
    ];
    assert_eq!(Ali::from_cards_slice(&hand).unwrap().score(), 3);
}

#[test]
fn ali_score_3_aces() {
    let hand = [
        c(Suit::Oros, Value::Uno),
        c(Suit::Bastos, Value::Uno),
        c(Suit::Espadas, Value::Uno),
    ];
    assert_eq!(Ali::from_cards_slice(&hand).unwrap().score(), 6);
}

#[test]
fn ali_ordering() {
    let ali_3_reyes = Ali::from_cards_slice(&[
        c(Suit::Oros, Value::Rey),
        c(Suit::Bastos, Value::Rey),
        c(Suit::Espadas, Value::Rey),
    ]);
    let ali_3_unos = Ali::from_cards_slice(&[
        c(Suit::Oros, Value::Uno),
        c(Suit::Bastos, Value::Uno),
        c(Suit::Espadas, Value::Uno),
    ]);
    let ali_3_normal = Ali::from_cards_slice(&[
        c(Suit::Oros, Value::Seis),
        c(Suit::Bastos, Value::Seis),
        c(Suit::Espadas, Value::Seis),
    ]);
    let ali_3_low = Ali::from_cards_slice(&[
        c(Suit::Oros, Value::Dos),
        c(Suit::Bastos, Value::Dos),
        c(Suit::Espadas, Value::Dos),
    ]);
    let ali_2_reyes = Ali::from_cards_slice(&[
        c(Suit::Oros, Value::Rey),
        c(Suit::Bastos, Value::Tres),
        c(Suit::Espadas, Value::Rey),
    ]);
    let ali_2_unos = Ali::from_cards_slice(&[
        c(Suit::Oros, Value::Uno),
        c(Suit::Bastos, Value::Uno),
        c(Suit::Espadas, Value::Rey),
    ]);
    let ali_2_normal = Ali::from_cards_slice(&[
        c(Suit::Oros, Value::Cinco),
        c(Suit::Bastos, Value::Cinco),
        c(Suit::Espadas, Value::Seis),
    ]);
    let ali_2_low = Ali::from_cards_slice(&[
        c(Suit::Oros, Value::Dos),
        c(Suit::Bastos, Value::Tres),
        c(Suit::Espadas, Value::Dos),
    ]);
    let expected = [
        &ali_2_low,
        &ali_2_normal,
        &ali_2_reyes,
        &ali_2_unos,
        &ali_3_low,
        &ali_3_normal,
        &ali_3_reyes,
        &ali_3_unos,
    ];
    let mut result = [
        &ali_3_unos,
        &ali_2_low,
        &ali_3_reyes,
        &ali_2_unos,
        &ali_2_normal,
        &ali_3_normal,
        &ali_3_low,
        &ali_2_reyes,
    ];
    result.sort_by_key(|a| a.as_ref().map(|a| a.strength()));
    assert_eq!(expected, result);
}
