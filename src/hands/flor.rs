use vstd::prelude::*;

use itertools::Itertools;

use crate::deck::{Card, Suit, Value};
use crate::hands::Hand;

verus! {

/// Whether a card is wild for suit matching: the perico or the perica.
pub open spec fn is_wild(card: Card, marker: Card) -> bool {
    card.spec_is_perico(marker) || card.spec_is_perica(marker)
}

/// Three cards form a flor when the cards that are not wild share a suit.
pub open spec fn is_flor_spec(cards: Seq<Card>, marker: Card) -> bool {
    &&& cards.len() == 3
    &&& forall|i: int, j: int|
        0 <= i < 3 && 0 <= j < 3 && !is_wild(cards[i], marker) && !is_wild(cards[j], marker)
            ==> #[trigger] cards[i].suit == #[trigger] cards[j].suit
}

/// What a card adds to a flor: its face up to siete, 7 for the perica sota,
/// 8 for the perico caballo, nothing for any other figure.
pub open spec fn card_points(card: Card, marker: Card) -> nat {
    match card.value {
        Value::Sota => if card.spec_is_perica(marker) {
            7
        } else {
            0
        },
        Value::Caballo => if card.spec_is_perico(marker) {
            8
        } else {
            0
        },
        Value::Rey => 0,
        _ => card.value.rank() + 1,
    }
}

/// The value of a flor: 20 plus the points of its three cards.
pub open spec fn flor_value(cards: Seq<Card>, marker: Card) -> nat {
    20 + card_points(cards[0], marker) + card_points(cards[1], marker) + card_points(
        cards[2],
        marker,
    )
}

/// Relies on `Itertools::all_equal` from itertools: true exactly when no two
/// items differ, in particular for no items.
#[verifier::external_body]
fn all_same_suit(suits: &Vec<Suit>) -> (r: bool)
    ensures
        r == (forall|i: int, j: int|
            0 <= i < suits@.len() && 0 <= j < suits@.len() ==> suits@[i] == suits@[j]),
{
    suits.iter().all_equal()
}

/// Three cards of one suit, not counting the perico and the perica.
#[derive(Debug, PartialEq, Eq)]
pub struct Flor {
    pub cards: Vec<Card>,
    pub marker: Card,
}

impl Flor {
    pub open spec fn wf(&self) -> bool {
        is_flor_spec(self.cards@, self.marker)
    }

    pub open spec fn spec_value(&self) -> nat {
        flor_value(self.cards@, self.marker)
    }

    pub fn is_flor(cards: &[Card], marker: Card) -> (r: bool)
        ensures
            r == is_flor_spec(cards@, marker),
    {
        if cards.len() != 3 {
            return false;
        }
        let mut suits: Vec<Suit> = Vec::new();
        let ghost mut from: Seq<int> = Seq::empty();
        let mut i: usize = 0;
        while i < 3
            invariant
                cards@.len() == 3,
                i <= 3,
                suits@.len() == from.len(),
                forall|k: int| 0 <= k < from.len() ==> 0 <= #[trigger] from[k] < i,
                forall|k: int| 0 <= k < from.len() ==> !is_wild(cards@[from[k]], marker),
                forall|k: int| 0 <= k < from.len() ==> #[trigger] suits@[k] == cards@[from[k]].suit,
                forall|c: int|
                    0 <= c < i && !is_wild(#[trigger] cards@[c], marker) ==> exists|k: int|
                        0 <= k < from.len() && from[k] == c,
            decreases 3 - i,
        {
            let card = cards[i];
            let ghost old_from = from;
            if !card.is_perico(marker) && !card.is_perica(marker) {
                suits.push(card.suit);
                proof {
                    from = from.push(i as int);
                }
            }
            proof {
                assert forall|c: int|
                    0 <= c < i + 1 && !is_wild(#[trigger] cards@[c], marker) implies exists|k: int|
                        0 <= k < from.len() && from[k] == c by {
                    if c == i {
                        assert(from[from.len() - 1] == c);
                    } else {
                        let k = choose|k: int| 0 <= k < old_from.len() && old_from[k] == c;
                        assert(from[k] == c);
                    }
                }
            }
            i = i + 1;
        }
        let r = all_same_suit(&suits);
        proof {
            if r {
                assert forall|a: int, b: int|
                    0 <= a < 3 && 0 <= b < 3 && !is_wild(cards@[a], marker) && !is_wild(
                        cards@[b],
                        marker,
                    ) implies #[trigger] cards@[a].suit == #[trigger] cards@[b].suit by {
                    let ka = choose|k: int| 0 <= k < from.len() && from[k] == a;
                    let kb = choose|k: int| 0 <= k < from.len() && from[k] == b;
                    assert(suits@[ka] == suits@[kb]);
                }
            } else {
                let (ka, kb) = choose|ka: int, kb: int|
                    0 <= ka < suits@.len() && 0 <= kb < suits@.len() && suits@[ka] != suits@[kb];
                assert(cards@[from[ka]].suit != cards@[from[kb]].suit);
            }
        }
        r
    }

    /// The flor formed by `cards`, if they form one.
    pub fn from_cards(cards: &[Card], marker: Card) -> (r: Option<Flor>)
        ensures
            r is Some <==> is_flor_spec(cards@, marker),
            r matches Some(f) ==> f.cards@ == cards@ && f.marker == marker,
    {
        if Self::is_flor(cards, marker) {
            Some(Flor { cards: vstd::slice::slice_to_vec(cards), marker })
        } else {
            None
        }
    }

    fn card_value(card: Card, marker: Card) -> (r: u8)
        ensures
            r as nat == card_points(card, marker),
    {
        match card.value {
            Value::Uno => 1,
            Value::Dos => 2,
            Value::Tres => 3,
            Value::Cuatro => 4,
            Value::Cinco => 5,
            Value::Seis => 6,
            Value::Siete => 7,
            Value::Sota => if card.is_perica(marker) {
                7
            } else {
                0
            },
            Value::Caballo => if card.is_perico(marker) {
                8
            } else {
                0
            },
            Value::Rey => 0,
        }
    }

    /// The value of the flor, counted from 20.
    pub fn value(&self) -> (r: u8)
        requires
            self.wf(),
        ensures
            r as nat == self.spec_value(),
    {
        let a = Self::card_value(self.cards[0], self.marker);
        let b = Self::card_value(self.cards[1], self.marker);
        let c = Self::card_value(self.cards[2], self.marker);
        20 + a + b + c
    }
}

/// The strength of a flor is its value.
pub open spec fn flor_hand_strength(cards: Seq<Card>, marker: Card) -> Option<int> {
    if is_flor_spec(cards, marker) {
        Some(flor_value(cards, marker) as int)
    } else {
        None
    }
}

impl Hand for Flor {
    open spec fn hand_strength(cards: Seq<Card>, marker: Card) -> Option<int> {
        flor_hand_strength(cards, marker)
    }

    open spec fn spec_strength(&self) -> int {
        if self.wf() {
            self.spec_value() as int
        } else {
            0
        }
    }

    fn from_cards(cards: &[Card], marker: Card) -> (r: Option<Flor>) {
        Flor::from_cards(cards, marker)
    }

    fn strength(&self) -> (r: u8) {
        if Flor::is_flor(self.cards.as_slice(), self.marker) {
            self.value()
        } else {
            0
        }
    }
}

/// A flor of three different cards, as a deck deals them, is worth between
/// 20 and 42: no card adds more than 8, and only the perico adds 8, so three
/// cards add at most 8 + 7 + 7.
pub proof fn lemma_flor_value_bounds(cards: Seq<Card>, marker: Card)
    requires
        is_flor_spec(cards, marker),
        cards[0] != cards[1],
        cards[0] != cards[2],
        cards[1] != cards[2],
    ensures
        20 <= flor_value(cards, marker) <= 42,
{
    let a = cards[0];
    let b = cards[1];
    let c = cards[2];
    assert(card_points(a, marker) <= 8 && card_points(b, marker) <= 8 && card_points(c, marker)
        <= 8);
    assert(card_points(a, marker) == 8 ==> a.spec_is_perico(marker));
    assert(card_points(b, marker) == 8 ==> b.spec_is_perico(marker));
    assert(card_points(c, marker) == 8 ==> c.spec_is_perico(marker));
    assert(card_points(a, marker) == 8 && card_points(b, marker) == 8 ==> a == b);
    assert(card_points(a, marker) == 8 && card_points(c, marker) == 8 ==> a == c);
    assert(card_points(b, marker) == 8 && card_points(c, marker) == 8 ==> b == c);
}

/// Without the perico, a flor is worth at most 41.
pub proof fn lemma_flor_value_without_perico(cards: Seq<Card>, marker: Card)
    requires
        is_flor_spec(cards, marker),
        forall|i: int| 0 <= i < 3 ==> !(#[trigger] cards[i]).spec_is_perico(marker),
    ensures
        20 <= flor_value(cards, marker) <= 41,
{
    assert(!cards[0].spec_is_perico(marker));
    assert(!cards[1].spec_is_perico(marker));
    assert(!cards[2].spec_is_perico(marker));
}

} // verus!
