use vstd::prelude::*;

use crate::deck::{Card, Value};
use crate::hands::Hand;

verus! {

/// `s` with `c` placed after every trailing card of rank greater than its own.
pub open spec fn insert_by_rank(s: Seq<Card>, c: Card) -> Seq<Card>
    decreases s.len(),
{
    if s.len() == 0 {
        seq![c]
    } else if s.last().value.rank() <= c.value.rank() {
        s.push(c)
    } else {
        insert_by_rank(s.drop_last(), c).push(s.last())
    }
}

/// The cards sorted by rank; cards of equal rank keep their order.
pub open spec fn sort_by_rank(s: Seq<Card>) -> Seq<Card>
    decreases s.len(),
{
    if s.len() == 0 {
        s
    } else {
        insert_by_rank(sort_by_rank(s.drop_last()), s.last())
    }
}

/// For each two neighbours among the first `n` cards whose ranks follow one
/// another, both cards, in order.
pub open spec fn neighbour_pairs(s: Seq<Card>, n: int) -> Seq<Card>
    decreases n,
{
    if n < 2 || n > s.len() {
        Seq::empty()
    } else if s[n - 2].value.precedes(s[n - 1].value) {
        neighbour_pairs(s, n - 1).push(s[n - 2]).push(s[n - 1])
    } else {
        neighbour_pairs(s, n - 1)
    }
}

/// `s` without repeats of a card right after itself.
pub open spec fn dedup(s: Seq<Card>) -> Seq<Card>
    decreases s.len(),
{
    if s.len() == 0 {
        s
    } else {
        let d = dedup(s.drop_last());
        if d.len() > 0 && d.last() == s.last() {
            d
        } else {
            d.push(s.last())
        }
    }
}

/// The cards of the runs in a hand: sorted by rank, the cards that have a
/// neighbour of the next or previous rank.
pub open spec fn run_cards(cards: Seq<Card>) -> Seq<Card> {
    let sorted = sort_by_rank(cards);
    dedup(neighbour_pairs(sorted, sorted.len() as int))
}

/// The cards form a secansa when at least two of them are consecutive.
pub open spec fn is_secansa_spec(cards: Seq<Card>) -> bool {
    run_cards(cards).len() >= 2
}

/// The strength of a run: three cards beat any two, then the top rank decides.
pub open spec fn run_strength(run: Seq<Card>) -> int {
    (if run.len() == 3 {
        10int
    } else {
        0int
    }) + run.last().value.rank()
}

/// `insert_by_rank` places the card at the first position, from the end,
/// after which every card ranks higher.
proof fn lemma_insert_at(s: Seq<Card>, c: Card, p: int)
    requires
        0 <= p <= s.len(),
        p == 0 || s[p - 1].value.rank() <= c.value.rank(),
        forall|k: int| p <= k < s.len() ==> #[trigger] s[k].value.rank() > c.value.rank(),
    ensures
        insert_by_rank(s, c) == s.insert(p, c),
    decreases s.len(),
{
    if s.len() == 0 {
        assert(s.insert(p, c) =~= seq![c]);
    } else if s.last().value.rank() <= c.value.rank() {
        assert(p == s.len());
        assert(s.insert(p, c) =~= s.push(c));
    } else {
        let t = s.drop_last();
        assert forall|k: int| p <= k < t.len() implies #[trigger] t[k].value.rank()
            > c.value.rank() by {
            assert(t[k] == s[k]);
        }
        lemma_insert_at(t, c, p);
        assert(t.insert(p, c).push(s.last()) =~= s.insert(p, c));
    }
}

fn insert_sorted(v: &mut Vec<Card>, c: Card)
    ensures
        final(v)@ == insert_by_rank(old(v)@, c),
{
    let mut p: usize = v.len();
    let cr = c.value.index();
    while p > 0 && v[p - 1].value.index() > cr
        invariant
            p <= v@.len(),
            v@ == old(v)@,
            cr as nat == c.value.rank(),
            forall|k: int| p <= k < v@.len() ==> #[trigger] v@[k].value.rank() > c.value.rank(),
        decreases p,
    {
        p = p - 1;
    }
    proof {
        lemma_insert_at(v@, c, p as int);
    }
    v.insert(p, c);
}

/// A run of consecutive ranks among a seat's cards.
#[derive(Debug, PartialEq, Eq)]
pub struct Secansa {
    pub cards: Vec<Card>,
}

/// The bet agreed on a secansa.
#[derive(Debug, Clone, Copy, PartialEq, Eq, Structural)]
pub enum Bet {
    Announced,
    Envit,
    Val(u8),
}

impl Secansa {
    pub open spec fn wf(&self) -> bool {
        self.cards@.len() >= 2
    }

    pub open spec fn spec_strength(&self) -> int {
        run_strength(self.cards@)
    }

    pub open spec fn spec_score(&self) -> nat {
        if self.cards@.len() == 3 {
            3
        } else {
            1
        }
    }

    /// The secansa formed by `cards`, if any.
    pub fn from_cards_slice(cards: &[Card]) -> (r: Option<Secansa>)
        ensures
            r is Some <==> is_secansa_spec(cards@),
            r matches Some(s) ==> s.cards@ == run_cards(cards@),
    {
        match Self::sorted_secansa_cards(cards) {
            Some(run) => Some(Secansa { cards: run }),
            None => None,
        }
    }

    pub fn is_secansa_3_cards(&self) -> (r: bool)
        ensures
            r == (self.cards@.len() == 3),
    {
        self.cards.len() == 3
    }

    /// The card of highest rank in the run.
    pub fn highest_card(&self) -> (r: &Card)
        requires
            self.wf(),
        ensures
            *r == self.cards@.last(),
    {
        let n = self.cards.len();
        &self.cards[n - 1]
    }

    fn sort_cards(cards: &[Card]) -> (r: Vec<Card>)
        ensures
            r@ == sort_by_rank(cards@),
    {
        let mut sorted: Vec<Card> = Vec::new();
        let mut i: usize = 0;
        while i < cards.len()
            invariant
                i <= cards@.len(),
                sorted@ == sort_by_rank(cards@.take(i as int)),
            decreases cards@.len() - i,
        {
            assert(cards@.take(i as int + 1).drop_last() =~= cards@.take(i as int));
            insert_sorted(&mut sorted, cards[i]);
            i = i + 1;
        }
        assert(cards@.take(cards@.len() as int) =~= cards@);
        sorted
    }

    /// The cards of the runs among `cards`, sorted by rank, when there are at
    /// least two of them.
    pub fn sorted_secansa_cards(cards: &[Card]) -> (r: Option<Vec<Card>>)
        ensures
            r is Some <==> is_secansa_spec(cards@),
            r matches Some(v) ==> v@ == run_cards(cards@),
    {
        let sorted = Self::sort_cards(cards);
        let mut pairs: Vec<Card> = Vec::new();
        let mut i: usize = 1;
        while i < sorted.len()
            invariant
                1 <= i,
                i <= sorted@.len() || sorted@.len() == 0,
                pairs@ == neighbour_pairs(sorted@, i as int),
            decreases sorted@.len() - i,
        {
            let a = sorted[i - 1];
            let b = sorted[i];
            let linked = match a.value.next() {
                Some(n) => n == b.value,
                None => false,
            };
            if linked {
                pairs.push(a);
                pairs.push(b);
            }
            i = i + 1;
        }
        proof {
            if sorted@.len() >= 1 {
                assert(i == sorted@.len());
            }
        }
        let mut run: Vec<Card> = Vec::new();
        let mut j: usize = 0;
        while j < pairs.len()
            invariant
                j <= pairs@.len(),
                run@ == dedup(pairs@.take(j as int)),
            decreases pairs@.len() - j,
        {
            assert(pairs@.take(j as int + 1).drop_last() =~= pairs@.take(j as int));
            let c = pairs[j];
            let n = run.len();
            if n == 0 || run[n - 1] != c {
                run.push(c);
            }
            j = j + 1;
        }
        assert(pairs@.take(pairs@.len() as int) =~= pairs@);
        if run.len() >= 2 {
            Some(run)
        } else {
            None
        }
    }

    /// Points of the secansa: 3 for a run of three cards, else 1.
    pub fn score(&self) -> (r: u8)
        ensures
            r as nat == self.spec_score(),
    {
        if self.is_secansa_3_cards() {
            3
        } else {
            1
        }
    }
}

/// The strength of the secansa formed by `cards`, if any.
pub open spec fn secansa_hand_strength(cards: Seq<Card>) -> Option<int> {
    if is_secansa_spec(cards) {
        Some(run_strength(run_cards(cards)))
    } else {
        None
    }
}

impl Hand for Secansa {
    open spec fn hand_strength(cards: Seq<Card>, marker: Card) -> Option<int> {
        secansa_hand_strength(cards)
    }

    open spec fn spec_strength(&self) -> int {
        if self.cards@.len() == 0 {
            0
        } else {
            run_strength(self.cards@)
        }
    }

    fn from_cards(cards: &[Card], marker: Card) -> (r: Option<Secansa>) {
        Secansa::from_cards_slice(cards)
    }

    fn strength(&self) -> (r: u8) {
        let n = self.cards.len();
        if n == 0 {
            return 0;
        }
        let top = self.cards[n - 1].value.index();
        if n == 3 {
            10 + top
        } else {
            top
        }
    }
}

/// A run of three cards outranks any run of two; between runs of the same
/// length the higher top rank wins, and equal top ranks tie.
pub proof fn lemma_secansa_ordering(a: Secansa, b: Secansa)
    requires
        a.wf(),
        b.wf(),
    ensures
        a.cards@.len() == 3 && b.cards@.len() != 3 ==> a.spec_strength() > b.spec_strength(),
        (a.cards@.len() == 3) == (b.cards@.len() == 3) ==> (a.spec_strength() > b.spec_strength()
            <==> a.cards@.last().value.rank() > b.cards@.last().value.rank()) && (
        a.spec_strength() == b.spec_strength() <==> a.cards@.last().value.rank()
            == b.cards@.last().value.rank()),
{
}

} // verus!
