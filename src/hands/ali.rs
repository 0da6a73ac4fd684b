use vstd::prelude::*;

use itertools::Itertools;

use crate::deck::{Card, Value};
use crate::hands::secansa::sort_by_rank;
use crate::hands::Hand;

verus! {

/// `s` cut into runs of consecutive cards of equal rank, in order.
pub open spec fn rank_groups(s: Seq<Card>) -> Seq<Seq<Card>>
    decreases s.len(),
{
    if s.len() == 0 {
        Seq::empty()
    } else {
        let g = rank_groups(s.drop_last());
        if s.len() > 1 && s[s.len() - 2].value == s.last().value {
            g.update(g.len() - 1, g.last().push(s.last()))
        } else {
            g.push(seq![s.last()])
        }
    }
}

/// Among the first `n` groups, the last of the largest ones that hold two
/// cards or more.
pub open spec fn largest_group(gs: Seq<Seq<Card>>, n: int) -> Option<int>
    decreases n,
{
    if n <= 0 || n > gs.len() {
        None
    } else {
        let prev = largest_group(gs, n - 1);
        if gs[n - 1].len() >= 2 && (prev is None || gs[n - 1].len() >= gs[prev->0].len()) {
            Some(n - 1)
        } else {
            prev
        }
    }
}

/// The ali of a hand: the cards sorted by rank and grouped by equal rank, the
/// largest group of two cards or more; of two equal groups, the higher rank.
pub open spec fn ali_cards(s: Seq<Card>) -> Option<Seq<Card>> {
    let gs = rank_groups(sort_by_rank(s));
    match largest_group(gs, gs.len() as int) {
        Some(i) => Some(gs[i]),
        None => None,
    }
}

/// Strength of a group of equal ranks: three cards beat any two; then the uno
/// is highest, and the other ranks go in their order.
pub open spec fn group_strength(group: Seq<Card>) -> int {
    (if group.len() == 3 {
        20int
    } else {
        0int
    }) + (if group[0].value == Value::Uno {
        10int
    } else {
        group[0].value.rank() as int
    })
}

/// Points of a group: 6 for three unos, 3 for another three or two unos,
/// 1 for another pair.
pub open spec fn group_score(group: Seq<Card>) -> nat {
    let three = group.len() == 3;
    let aces = forall|i: int| 0 <= i < group.len() ==> #[trigger] group[i].value == Value::Uno;
    if three && aces {
        6
    } else if three || aces {
        3
    } else {
        1
    }
}

proof fn lemma_rank_groups(s: Seq<Card>)
    ensures
        forall|i: int|
            0 <= i < rank_groups(s).len() ==> (#[trigger] rank_groups(s)[i]).len() > 0,
        forall|i: int, k: int|
            0 <= i < rank_groups(s).len() && 0 <= k < rank_groups(s)[i].len()
                ==> #[trigger] rank_groups(s)[i][k].value == rank_groups(s)[i][0].value,
        s.len() > 0 ==> rank_groups(s).len() > 0 && rank_groups(s).last().last() == s.last(),
    decreases s.len(),
{
    if s.len() > 0 {
        let t = s.drop_last();
        lemma_rank_groups(t);
        let g = rank_groups(t);
        let r = rank_groups(s);
        if s.len() > 1 && s[s.len() - 2].value == s.last().value {
            assert(t.last() == s[s.len() - 2]);
            let last = g.last().push(s.last());
            assert(r == g.update(g.len() - 1, last));
            assert forall|i: int, k: int| 0 <= i < r.len() && 0 <= k < r[i].len() implies #[trigger] r[i][k].value
                == r[i][0].value by {
                if i == g.len() - 1 {
                    assert(g.last()[g.last().len() - 1] == t.last());
                    if k < g.last().len() {
                        assert(g[i][k].value == g[i][0].value);
                    }
                } else {
                    assert(g[i][k].value == g[i][0].value);
                }
            }
        } else {
            assert forall|i: int, k: int| 0 <= i < r.len() && 0 <= k < r[i].len() implies #[trigger] r[i][k].value
                == r[i][0].value by {
                if i < g.len() {
                    assert(g[i][k].value == g[i][0].value);
                }
            }
        }
    }
}

proof fn lemma_largest_group(gs: Seq<Seq<Card>>, n: int)
    requires
        0 <= n <= gs.len(),
    ensures
        largest_group(gs, n) matches Some(i) ==> 0 <= i < n && gs[i].len() >= 2,
    decreases n,
{
    if n > 0 {
        lemma_largest_group(gs, n - 1);
    }
}

/// Relies on `Itertools::sorted_by_key` from itertools: a stable sort by the
/// key, here the rank, so cards of equal rank keep their order.
#[verifier::external_body]
fn sort_by_value(cards: &[Card]) -> (r: Vec<Card>)
    ensures
        r@ == sort_by_rank(cards@),
{
    cards.iter().cloned().sorted_by_key(|c| c.value.index()).collect()
}

/// Relies on `Itertools::group_by` from itertools: each run of consecutive
/// cards with equal keys, here the rank, forms one group, in order.
#[verifier::external_body]
fn group_by_value(sorted: &Vec<Card>) -> (r: Vec<Vec<Card>>)
    ensures
        r@.len() == rank_groups(sorted@).len(),
        forall|i: int| 0 <= i < r@.len() ==> (#[trigger] r@[i])@ == rank_groups(sorted@)[i],
{
    let groups = sorted.iter().group_by(|c| c.value.index());
    let r: Vec<Vec<Card>> = (&groups).into_iter().map(|(_, g)| g.cloned().collect()).collect();
    r
}

/// Cards of equal rank.
#[derive(Debug, PartialEq, Eq)]
pub struct Ali {
    pub cards: Vec<Card>,
}

impl Ali {
    /// Two or more cards, all of one rank.
    pub open spec fn wf(&self) -> bool {
        &&& self.cards@.len() >= 2
        &&& forall|i: int|
            0 <= i < self.cards@.len() ==> #[trigger] self.cards@[i].value == self.cards@[0].value
    }

    pub open spec fn spec_strength(&self) -> int {
        group_strength(self.cards@)
    }

    pub open spec fn spec_score(&self) -> nat {
        group_score(self.cards@)
    }

    /// The largest group of cards of equal rank, if it holds two cards or more.
    pub fn from_cards_slice(cards: &[Card]) -> (r: Option<Ali>)
        ensures
            r is Some <==> ali_cards(cards@) is Some,
            r matches Some(a) ==> Some(a.cards@) == ali_cards(cards@) && a.wf(),
    {
        let sorted = sort_by_value(cards);
        let mut groups = group_by_value(&sorted);
        let ghost gs = rank_groups(sorted@);
        let mut best: Option<usize> = None;
        let mut best_len: usize = 0;
        let mut i: usize = 0;
        while i < groups.len()
            invariant
                i <= groups@.len(),
                groups@.len() == gs.len(),
                forall|k: int| 0 <= k < groups@.len() ==> (#[trigger] groups@[k])@ == gs[k],
                best == match largest_group(gs, i as int) {
                    Some(b) => Some(b as usize),
                    None => None::<usize>,
                },
                best matches Some(b) ==> b < i && best_len == gs[b as int].len(),
            decreases groups@.len() - i,
        {
            proof {
                lemma_largest_group(gs, i as int);
            }
            let n = groups[i].len();
            if n >= 2 && (best.is_none() || n >= best_len) {
                best = Some(i);
                best_len = n;
            }
            i = i + 1;
        }
        proof {
            lemma_largest_group(gs, gs.len() as int);
            lemma_rank_groups(sorted@);
        }
        match best {
            Some(b) => {
                let group = groups.remove(b);
                Some(Ali { cards: group })
            },
            None => None,
        }
    }

    pub fn is_ali_3_cards(&self) -> (r: bool)
        ensures
            r == (self.cards@.len() == 3),
    {
        self.cards.len() == 3
    }

    /// Whether every card of the group is an uno.
    pub fn is_ali_aces(&self) -> (r: bool)
        ensures
            r == (forall|i: int|
                0 <= i < self.cards@.len() ==> #[trigger] self.cards@[i].value == Value::Uno),
    {
        let mut i: usize = 0;
        while i < self.cards.len()
            invariant
                i <= self.cards@.len(),
                forall|k: int| 0 <= k < i ==> #[trigger] self.cards@[k].value == Value::Uno,
            decreases self.cards@.len() - i,
        {
            if self.cards[i].value != Value::Uno {
                return false;
            }
            i = i + 1;
        }
        true
    }

    /// Points of the ali: 6 for three unos, 3 for another three or two unos,
    /// 1 for another pair.
    pub fn score(&self) -> (r: u8)
        ensures
            r as nat == self.spec_score(),
    {
        match (self.is_ali_3_cards(), self.is_ali_aces()) {
            (true, true) => 6,
            (true, false) | (false, true) => 3,
            (false, false) => 1,
        }
    }
}

/// Whether at least two of the cards share a rank.
pub fn is_ali(cards: &[Card]) -> (r: bool)
    ensures
        r == ali_cards(cards@) is Some,
{
    Ali::from_cards_slice(cards).is_some()
}

impl Hand for Ali {
    open spec fn hand_strength(cards: Seq<Card>, marker: Card) -> Option<int> {
        match ali_cards(cards) {
            Some(g) => Some(group_strength(g)),
            None => None,
        }
    }

    open spec fn spec_strength(&self) -> int {
        if self.cards@.len() == 0 {
            0
        } else {
            group_strength(self.cards@)
        }
    }

    fn from_cards(cards: &[Card], marker: Card) -> (r: Option<Ali>) {
        Ali::from_cards_slice(cards)
    }

    fn strength(&self) -> (r: u8) {
        if self.cards.len() == 0 {
            return 0;
        }
        let v = self.cards[0].value;
        let base: u8 = if self.cards.len() == 3 {
            20
        } else {
            0
        };
        match v {
            Value::Uno => base + 10,
            _ => base + v.index(),
        }
    }
}

/// Three cards of a rank outrank any pair, whatever the ranks; between
/// groups of the same size the uno is highest, then the ranks go in order.
pub proof fn lemma_ali_ordering(a: Ali, b: Ali)
    requires
        a.wf(),
        b.wf(),
        a.cards@.len() <= 3,
        b.cards@.len() <= 3,
    ensures
        a.cards@.len() == 3 && b.cards@.len() == 2 ==> a.spec_strength() > b.spec_strength(),
        a.cards@.len() == b.cards@.len() ==> {
            let va = a.cards@[0].value;
            let vb = b.cards@[0].value;
            &&& (va == Value::Uno && vb != Value::Uno ==> a.spec_strength() > b.spec_strength())
            &&& (va != Value::Uno && vb != Value::Uno ==> (a.spec_strength() > b.spec_strength()
                <==> va.rank() > vb.rank()))
            &&& (va == vb ==> a.spec_strength() == b.spec_strength())
        },
{
}

} // verus!
