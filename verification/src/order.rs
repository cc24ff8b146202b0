//! The total order on hands: category strength first, then the cards'
//! ranks position by position.
//!
//! Because the evaluator always lists pattern cards before kickers and
//! kickers in descending rank order, this positional comparison is a
//! complete tie-break and needs no per-category kicker logic. The proof
//! functions here show that the order is reflexive, antisymmetric and
//! transitive, with equality meaning a true tie (a split pot).

use vstd::prelude::*;
use core::cmp::Ordering;
use crate::card::{Card, Hand, Hand_Category, spec_strength};

verus! {

/// Compares two card sequences position by position by rank alone,
/// starting at position `i`; suits never matter for strength.
pub open spec fn spec_cmp_ranks(x: Seq<Card>, y: Seq<Card>, i: int) -> Ordering
    decreases x.len() - i,
{
    if i < 0 || i >= x.len() || i >= y.len() {
        Ordering::Equal
    } else if x[i].val < y[i].val {
        Ordering::Less
    } else if x[i].val > y[i].val {
        Ordering::Greater
    } else {
        spec_cmp_ranks(x, y, i + 1)
    }
}

/// The order on a category and card list: the stronger category wins;
/// within one category the cards are compared position by position.
#[verifier::opaque]
pub open spec fn spec_compare_parts(
    ca: Hand_Category,
    xa: Seq<Card>,
    cb: Hand_Category,
    xb: Seq<Card>,
) -> Ordering {
    if spec_strength(ca) < spec_strength(cb) {
        Ordering::Less
    } else if spec_strength(ca) > spec_strength(cb) {
        Ordering::Greater
    } else {
        spec_cmp_ranks(xa, xb, 0)
    }
}

/// The order on hands: the stronger category wins; within one category the
/// hands' cards are compared position by position by rank.
pub open spec fn spec_compare(a: Hand, b: Hand) -> Ordering {
    spec_compare_parts(a.category, a.cards@, b.category, b.cards@)
}

impl Hand {
    /// Ranks this hand against another of the same deal.
    #[verifier::loop_isolation(false)]
    pub fn compare(&self, other: &Hand) -> (r: Ordering)
        ensures
            r == spec_compare(*self, *other),
    {
        proof {
            reveal(spec_compare_parts);
        }
        let sa = self.category.strength();
        let sb = other.category.strength();
        if sa < sb {
            return Ordering::Less;
        }
        if sa > sb {
            return Ordering::Greater;
        }
        let n = if self.cards.len() < other.cards.len() {
            self.cards.len()
        } else {
            other.cards.len()
        };
        let mut i: usize = 0;
        while i < n
            invariant
                i <= n,
                spec_cmp_ranks(self.cards@, other.cards@, 0) == spec_cmp_ranks(
                    self.cards@,
                    other.cards@,
                    i as int,
                ),
            decreases n - i,
        {
            if self.cards[i].val < other.cards[i].val {
                return Ordering::Less;
            }
            if self.cards[i].val > other.cards[i].val {
                return Ordering::Greater;
            }
            i = i + 1;
        }
        Ordering::Equal
    }
}

/// Positional rank comparison of a sequence with itself is a tie.
proof fn lemma_cmp_ranks_reflexive(x: Seq<Card>, i: int)
    ensures
        spec_cmp_ranks(x, x, i) == Ordering::Equal,
    decreases x.len() - i,
{
    if 0 <= i < x.len() {
        lemma_cmp_ranks_reflexive(x, i + 1);
    }
}

/// Swapping the operands of the positional comparison reverses its answer.
proof fn lemma_cmp_ranks_swap(x: Seq<Card>, y: Seq<Card>, i: int)
    ensures
        spec_cmp_ranks(x, y, i) == Ordering::Less <==> spec_cmp_ranks(y, x, i)
            == Ordering::Greater,
        spec_cmp_ranks(x, y, i) == Ordering::Equal <==> spec_cmp_ranks(y, x, i)
            == Ordering::Equal,
    decreases x.len() - i,
{
    if 0 <= i < x.len() && i < y.len() && x[i].val == y[i].val {
        lemma_cmp_ranks_swap(x, y, i + 1);
    }
}

/// The positional comparison answers a tie exactly when the two sequences
/// agree rank by rank from position `i` on.
proof fn lemma_cmp_ranks_tie(x: Seq<Card>, y: Seq<Card>, i: int)
    requires
        0 <= i,
        x.len() == y.len(),
    ensures
        spec_cmp_ranks(x, y, i) == Ordering::Equal <==> (forall|j: int|
            i <= j < x.len() ==> x[j].val == (#[trigger] y[j]).val),
    decreases x.len() - i,
{
    if 0 <= i < x.len() && x[i].val == y[i].val {
        lemma_cmp_ranks_tie(x, y, i + 1);
    }
}

/// The positional comparison is transitive on its non-strict side.
proof fn lemma_cmp_ranks_transitive(x: Seq<Card>, y: Seq<Card>, z: Seq<Card>, i: int)
    requires
        x.len() == y.len(),
        y.len() == z.len(),
        spec_cmp_ranks(x, y, i) != Ordering::Greater,
        spec_cmp_ranks(y, z, i) != Ordering::Greater,
    ensures
        spec_cmp_ranks(x, z, i) != Ordering::Greater,
        spec_cmp_ranks(x, y, i) == Ordering::Less || spec_cmp_ranks(y, z, i) == Ordering::Less
            ==> spec_cmp_ranks(x, z, i) == Ordering::Less,
    decreases x.len() - i,
{
    if 0 <= i < x.len() {
        if x[i].val == y[i].val && y[i].val == z[i].val {
            lemma_cmp_ranks_transitive(x, y, z, i + 1);
        }
    }
}

/// Comparing a category and card list with itself is a tie.
pub proof fn lemma_parts_reflexive(c: Hand_Category, x: Seq<Card>)
    ensures
        spec_compare_parts(c, x, c, x) == Ordering::Equal,
{
    reveal(spec_compare_parts);
    lemma_cmp_ranks_reflexive(x, 0);
}

/// Swapping the operands of the parts comparison reverses its answer.
pub proof fn lemma_parts_antisymmetric(ca: Hand_Category, xa: Seq<Card>, cb: Hand_Category, xb: Seq<Card>)
    ensures
        spec_compare_parts(ca, xa, cb, xb) == Ordering::Less <==> spec_compare_parts(cb, xb, ca, xa)
            == Ordering::Greater,
        spec_compare_parts(ca, xa, cb, xb) == Ordering::Equal <==> spec_compare_parts(cb, xb, ca, xa)
            == Ordering::Equal,
{
    reveal(spec_compare_parts);
    lemma_cmp_ranks_swap(xa, xb, 0);
}

/// The parts comparison is transitive on its non-strict side.
pub proof fn lemma_parts_transitive(
    ca: Hand_Category,
    xa: Seq<Card>,
    cb: Hand_Category,
    xb: Seq<Card>,
    cc: Hand_Category,
    xc: Seq<Card>,
)
    requires
        xa.len() == xb.len(),
        xb.len() == xc.len(),
        spec_compare_parts(ca, xa, cb, xb) != Ordering::Greater,
        spec_compare_parts(cb, xb, cc, xc) != Ordering::Greater,
    ensures
        spec_compare_parts(ca, xa, cc, xc) != Ordering::Greater,
        spec_compare_parts(ca, xa, cb, xb) == Ordering::Less || spec_compare_parts(cb, xb, cc, xc)
            == Ordering::Less ==> spec_compare_parts(ca, xa, cc, xc) == Ordering::Less,
{
    reveal(spec_compare_parts);
    if spec_strength(ca) == spec_strength(cb) && spec_strength(cb) == spec_strength(cc) {
        lemma_cmp_ranks_transitive(xa, xb, xc, 0);
    }
}

/// Comparing a hand with itself is a tie.
pub proof fn lemma_compare_reflexive(a: Hand)
    ensures
        spec_compare(a, a) == Ordering::Equal,
{
    lemma_parts_reflexive(a.category, a.cards@);
}

/// Swapping the operands of `compare` reverses its answer, so the order
/// is antisymmetric: two hands each at most as strong as the other tie.
pub proof fn lemma_compare_antisymmetric(a: Hand, b: Hand)
    ensures
        spec_compare(a, b) == Ordering::Less <==> spec_compare(b, a) == Ordering::Greater,
        spec_compare(a, b) == Ordering::Equal <==> spec_compare(b, a) == Ordering::Equal,
{
    lemma_parts_antisymmetric(a.category, a.cards@, b.category, b.cards@);
}

/// A tie under `compare` is exactly a split pot: the same category and the
/// same rank at every one of the five positions.
pub proof fn lemma_compare_equal_is_tie(a: Hand, b: Hand)
    requires
        a.wf(),
        b.wf(),
    ensures
        spec_compare(a, b) == Ordering::Equal <==> (a.category == b.category && forall|j: int|
            0 <= j < 5 ==> a.cards@[j].val == (#[trigger] b.cards@[j]).val),
{
    reveal(spec_compare_parts);
    lemma_cmp_ranks_tie(a.cards@, b.cards@, 0);
}

/// The order on hands is transitive: a hand at most as strong as a second,
/// itself at most as strong as a third, is at most as strong as the third,
/// and strictly weaker if either step was strict.
pub proof fn lemma_compare_transitive(a: Hand, b: Hand, c: Hand)
    requires
        a.wf(),
        b.wf(),
        c.wf(),
        spec_compare(a, b) != Ordering::Greater,
        spec_compare(b, c) != Ordering::Greater,
    ensures
        spec_compare(a, c) != Ordering::Greater,
        spec_compare(a, b) == Ordering::Less || spec_compare(b, c) == Ordering::Less
            ==> spec_compare(a, c) == Ordering::Less,
{
    lemma_parts_transitive(a.category, a.cards@, b.category, b.cards@, c.category, c.cards@);
}

} // verus!
