use vstd::prelude::*;

use crate::deck::Card;

pub mod ali;
pub mod flor;
pub mod secansa;

verus! {

/// A hand that a seat can form with its face-up cards in one of the
/// card-based games. Hands of one kind are ordered by their strength.
pub trait Hand: Sized {
    /// The strength of the hand formed by `cards` under `marker`, or `None`
    /// when they form no hand of this kind.
    spec fn hand_strength(cards: Seq<Card>, marker: Card) -> Option<int>;

    spec fn spec_strength(&self) -> int;

    fn from_cards(cards: &[Card], marker: Card) -> (r: Option<Self>)
        ensures
            r is Some <==> Self::hand_strength(cards@, marker) is Some,
            r matches Some(h) ==> Self::hand_strength(cards@, marker) == Some(h.spec_strength()),
    ;

    fn strength(&self) -> (r: u8)
        ensures
            r as int == self.spec_strength(),
    ;
}

} // verus!
