use vstd::prelude::*;

verus! {

/// The four suits of the deck.
#[derive(Debug, Clone, Copy, PartialEq, Eq, Structural)]
pub enum Suit {
    Bastos,
    Copas,
    Oros,
    Espadas,
}

/// The ten ranks of the deck, lowest first. There are no eights or nines.
#[derive(Debug, Clone, Copy, PartialEq, Eq, PartialOrd, Ord, Structural)]
pub enum Value {
    Uno,
    Dos,
    Tres,
    Cuatro,
    Cinco,
    Seis,
    Siete,
    Sota,
    Caballo,
    Rey,
}

impl Value {
    /// Position of the rank in the order `Uno < Dos < ... < Caballo < Rey`.
    pub open spec fn rank(self) -> nat {
        match self {
            Value::Uno => 0,
            Value::Dos => 1,
            Value::Tres => 2,
            Value::Cuatro => 3,
            Value::Cinco => 4,
            Value::Seis => 5,
            Value::Siete => 6,
            Value::Sota => 7,
            Value::Caballo => 8,
            Value::Rey => 9,
        }
    }

    /// The rank of the given position.
    pub open spec fn of_rank(r: nat) -> Value {
        if r == 0 {
            Value::Uno
        } else if r == 1 {
            Value::Dos
        } else if r == 2 {
            Value::Tres
        } else if r == 3 {
            Value::Cuatro
        } else if r == 4 {
            Value::Cinco
        } else if r == 5 {
            Value::Seis
        } else if r == 6 {
            Value::Siete
        } else if r == 7 {
            Value::Sota
        } else if r == 8 {
            Value::Caballo
        } else {
            Value::Rey
        }
    }

    /// The following rank, if any.
    pub open spec fn spec_next(self) -> Option<Value> {
        if self.rank() < 9 {
            Some(Value::of_rank(self.rank() + 1))
        } else {
            None
        }
    }

    /// Whether `other` is the rank right after `self`.
    pub open spec fn precedes(self, other: Value) -> bool {
        other.rank() == self.rank() + 1
    }

    /// The rank's position as an integer.
    pub fn index(&self) -> (r: u8)
        ensures
            r as nat == self.rank(),
    {
        match *self {
            Value::Uno => 0,
            Value::Dos => 1,
            Value::Tres => 2,
            Value::Cuatro => 3,
            Value::Cinco => 4,
            Value::Seis => 5,
            Value::Siete => 6,
            Value::Sota => 7,
            Value::Caballo => 8,
            Value::Rey => 9,
        }
    }

    /// The rank that follows this one; `None` for `Rey`.
    pub fn next(&self) -> (r: Option<Value>)
        ensures
            r == self.spec_next(),
            r matches Some(n) ==> self.precedes(n),
            r is None <==> *self == Value::Rey,
    {
        match *self {
            Value::Uno => Some(Value::Dos),
            Value::Dos => Some(Value::Tres),
            Value::Tres => Some(Value::Cuatro),
            Value::Cuatro => Some(Value::Cinco),
            Value::Cinco => Some(Value::Seis),
            Value::Seis => Some(Value::Siete),
            Value::Siete => Some(Value::Sota),
            Value::Sota => Some(Value::Caballo),
            Value::Caballo => Some(Value::Rey),
            Value::Rey => None,
        }
    }
}

/// A card of the deck.
#[derive(Debug, Clone, Copy, PartialEq, Eq, Structural)]
pub struct Card {
    pub suit: Suit,
    pub value: Value,
}

impl Card {
    /// The perico: the caballo of the marker's suit, or its rey when the marker
    /// itself is the caballo.
    pub open spec fn spec_is_perico(self, marker: Card) -> bool {
        if marker.value == Value::Caballo {
            self.suit == marker.suit && self.value == Value::Rey
        } else {
            self.suit == marker.suit && self.value == Value::Caballo
        }
    }

    /// The perica: the sota of the marker's suit, or its rey when the marker
    /// itself is the sota.
    pub open spec fn spec_is_perica(self, marker: Card) -> bool {
        if marker.value == Value::Sota {
            self.suit == marker.suit && self.value == Value::Rey
        } else {
            self.suit == marker.suit && self.value == Value::Sota
        }
    }

    pub fn is_perico(&self, marker: Card) -> (r: bool)
        ensures
            r == self.spec_is_perico(marker),
    {
        match marker.value {
            Value::Caballo => self.suit == marker.suit && self.value == Value::Rey,
            _ => self.suit == marker.suit && self.value == Value::Caballo,
        }
    }

    pub fn is_perica(&self, marker: Card) -> (r: bool)
        ensures
            r == self.spec_is_perica(marker),
    {
        match marker.value {
            Value::Sota => self.suit == marker.suit && self.value == Value::Rey,
            _ => self.suit == marker.suit && self.value == Value::Sota,
        }
    }
}

/// Whether a card is the perico or the perica depends on the card and the
/// marker alone: equal inputs give equal answers.
pub proof fn lemma_promotions_depend_on_card_and_marker(c1: Card, m1: Card, c2: Card, m2: Card)
    requires
        c1 == c2,
        m1 == m2,
    ensures
        c1.spec_is_perico(m1) == c2.spec_is_perico(m2),
        c1.spec_is_perica(m1) == c2.spec_is_perica(m2),
{
}

/// The suit at a position of the deck's fresh order.
pub open spec fn suit_at(i: int) -> Suit {
    if i == 0 {
        Suit::Oros
    } else if i == 1 {
        Suit::Copas
    } else if i == 2 {
        Suit::Bastos
    } else {
        Suit::Espadas
    }
}

/// A fresh deck: for each suit in the order Oros, Copas, Bastos, Espadas,
/// each rank from Uno to Rey.
pub open spec fn fresh_deck() -> Seq<Card> {
    Seq::new(40, |i: int| Card { suit: suit_at(i / 10), value: Value::of_rank((i % 10) as nat) })
}

fn suit_of_index(i: usize) -> (s: Suit)
    requires
        i < 4,
    ensures
        s == suit_at(i as int),
{
    if i == 0 {
        Suit::Oros
    } else if i == 1 {
        Suit::Copas
    } else if i == 2 {
        Suit::Bastos
    } else {
        Suit::Espadas
    }
}

fn value_of_index(i: usize) -> (v: Value)
    requires
        i < 10,
    ensures
        v == Value::of_rank(i as nat),
{
    if i == 0 {
        Value::Uno
    } else if i == 1 {
        Value::Dos
    } else if i == 2 {
        Value::Tres
    } else if i == 3 {
        Value::Cuatro
    } else if i == 4 {
        Value::Cinco
    } else if i == 5 {
        Value::Seis
    } else if i == 6 {
        Value::Siete
    } else if i == 7 {
        Value::Sota
    } else if i == 8 {
        Value::Caballo
    } else {
        Value::Rey
    }
}

/// A pile of cards, drawn from the end.
#[derive(Debug, Clone, PartialEq, Eq)]
pub struct Deck {
    cards: Vec<Card>,
}

impl View for Deck {
    type V = Seq<Card>;

    closed spec fn view(&self) -> Seq<Card> {
        self.cards@
    }
}

impl Deck {
    /// A deck holding the given cards; the last one is drawn first.
    pub fn new(cards: Vec<Card>) -> (d: Deck)
        ensures
            d@ == cards@,
    {
        Deck { cards }
    }

    /// The cards still in the deck; the last one is drawn first.
    pub fn cards(&self) -> (r: &Vec<Card>)
        ensures
            r@ == self@,
    {
        &self.cards
    }

    pub fn remaining_cards(&self) -> (r: usize)
        ensures
            r == self@.len(),
    {
        self.cards.len()
    }

    /// Takes the top card, if there is one.
    pub fn draw(&mut self) -> (r: Option<Card>)
        ensures
            old(self)@.len() == 0 ==> r is None && final(self)@ == old(self)@,
            old(self)@.len() > 0 ==> r == Some(old(self)@.last()) && final(self)@
                == old(self)@.drop_last(),
    {
        self.cards.pop()
    }
}

impl Default for Deck {
    /// The forty cards in their fresh order.
    fn default() -> (d: Deck)
        ensures
            d@ == fresh_deck(),
    {
        let mut cards: Vec<Card> = Vec::new();
        for s in 0..4usize
            invariant
                cards@.len() == 10 * s,
                forall|k: int| 0 <= k < cards@.len() ==> cards@[k] == fresh_deck()[k],
        {
            for v in 0..10usize
                invariant
                    s < 4,
                    cards@.len() == 10 * s + v,
                    forall|k: int| 0 <= k < cards@.len() ==> cards@[k] == fresh_deck()[k],
            {
                let card = Card { suit: suit_of_index(s), value: value_of_index(v) };
                proof {
                    let k = 10 * s + v;
                    assert(k / 10 == s && k % 10 == v) by (nonlinear_arith)
                        requires
                            k == 10 * s + v,
                            v < 10,
                    ;
                }
                cards.push(card);
            }
        }
        assert(cards@ =~= fresh_deck());
        Deck { cards }
    }
}

} // verus!
