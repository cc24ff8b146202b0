//! Global guarantees of the evaluator's model.
//!
//! `lemma_eval_order_independent` shows that evaluation depends only on
//! the multiset of the pool, and `lemma_category_is_best` shows that the
//! category the cascade returns is the strongest one achievable by any
//! five-card subset of the pool.

use vstd::prelude::*;
use vstd::multiset::Multiset;
use crate::card::{Card, Suit, Hand_Category, spec_strength};
use crate::model::{
    valid_pool, card_count, rank_count, suit_count_from, suit_count, spec_flush_suit,
    wheel_rank, rank_present, straight_to, straight_high_from, spec_straight_high,
    highest_with_count_from, highest_with_count, spec_second_pair, spec_category,
    spec_hand_cards,
};
use crate::eval::lemma_highest_with_count_props;

verus! {

/// Evaluation is order-independent: two pools holding the same cards in
/// any order (equal as multisets) are assigned the same category and the
/// same five cards in the same order.
pub proof fn lemma_eval_order_independent(p1: Seq<Card>, p2: Seq<Card>)
    requires
        p1.to_multiset() == p2.to_multiset(),
    ensures
        spec_category(p1.to_multiset()) == spec_category(p2.to_multiset()),
        spec_hand_cards(p1.to_multiset()) == spec_hand_cards(p2.to_multiset()),
{
}

/// No card occurs twice: the pool was drawn from a single standard deck.
pub open spec fn no_duplicates(m: Multiset<Card>) -> bool {
    forall|c: Card| m.count(c) <= 1
}

/// At most one suit reaches five cards; with a pool of at most nine cards
/// this always holds.
pub open spec fn single_flush_suit(m: Multiset<Card>) -> bool {
    forall|s1: Suit, s2: Suit| #[trigger]
        suit_count(m, s1) >= 5 && #[trigger] suit_count(m, s2) >= 5 ==> s1 == s2
}

/// Wherever two ranks each hold a triple, some rank holds an exact pair.
/// The cascade books a pool of two bare triples as three of a kind, not as
/// a full house, so the strongest-category claim is stated away from such
/// pools.
pub open spec fn trips_come_paired(m: Multiset<Card>) -> bool {
    (exists|v: int, w: int|
        2 <= v <= 14 && 2 <= w <= 14 && v != w && #[trigger] rank_count(m, v) >= 3
            && #[trigger] rank_count(m, w) >= 3) ==> (exists|u: int|
        2 <= u <= 14 && #[trigger] rank_count(m, u) == 2)
}

/// Whether the pool holds a five-card subset showing the pattern of the
/// given category (the pattern alone: a pool with two pairs also shows the
/// pattern of a single pair).
pub open spec fn spec_achievable(m: Multiset<Card>, cat: Hand_Category) -> bool {
    match cat {
        Hand_Category::High_Card => m.len() >= 5,
        Hand_Category::Pair => exists|v: int| 2 <= v <= 14 && #[trigger] rank_count(m, v) >= 2,
        Hand_Category::Two_Pair => exists|v: int, w: int|
            2 <= v <= 14 && 2 <= w <= 14 && v != w && #[trigger] rank_count(m, v) >= 2
                && #[trigger] rank_count(m, w) >= 2,
        Hand_Category::Three_of_a_Kind => exists|v: int|
            2 <= v <= 14 && #[trigger] rank_count(m, v) >= 3,
        Hand_Category::Straight => exists|h: int|
            5 <= h <= 14 && #[trigger] straight_to(m, None, h),
        Hand_Category::Flush => exists|s: Suit| #[trigger] suit_count(m, s) >= 5,
        Hand_Category::Full_House => exists|v: int, w: int|
            2 <= v <= 14 && 2 <= w <= 14 && v != w && #[trigger] rank_count(m, v) >= 3
                && #[trigger] rank_count(m, w) >= 2,
        Hand_Category::Four_of_a_Kind => exists|v: int|
            2 <= v <= 14 && #[trigger] rank_count(m, v) >= 4,
        Hand_Category::Straight_Flush => exists|s: Suit, h: int|
            5 <= h <= 14 && #[trigger] straight_to(m, Some(s), h),
    }
}

/// What a `straight_high_from` answer means: the found rank ends a
/// straight and no higher rank in range does.
proof fn lemma_straight_high_props(m: Multiset<Card>, fs: Option<Suit>, h: int)
    ensures
        match straight_high_from(m, fs, h) {
            Some(g) => 5 <= g <= h && straight_to(m, fs, g),
            None => forall|w: int| 5 <= w <= h ==> !#[trigger] straight_to(m, fs, w),
        },
    decreases h,
{
    if h >= 5 && !straight_to(m, fs, h) {
        lemma_straight_high_props(m, fs, h - 1);
    }
}

/// Suit counts only shrink as the starting rank rises.
proof fn lemma_suit_count_from_mono(m: Multiset<Card>, s: Suit, a: int, b: int)
    requires
        a <= b,
    ensures
        suit_count_from(m, s, a) >= suit_count_from(m, s, b),
    decreases b - a,
{
    if a < b {
        lemma_suit_count_from_mono(m, s, a + 1, b);
    }
}

/// A straight within one suit needs five cards of that suit.
proof fn lemma_straight_needs_flush(m: Multiset<Card>, s: Suit, h: int)
    requires
        5 <= h <= 14,
        straight_to(m, Some(s), h),
    ensures
        suit_count(m, s) >= 5,
{
    if h == 5 {
        // the wheel: ranks 2, 3, 4, 5 and the Ace
        assert(rank_present(m, Some(s), 1));
        assert(rank_present(m, Some(s), 2));
        assert(rank_present(m, Some(s), 3));
        assert(rank_present(m, Some(s), 4));
        assert(rank_present(m, Some(s), 5));
        assert(suit_count_from(m, s, 14) == card_count(m, s, 14) + suit_count_from(m, s, 15));
        lemma_suit_count_from_mono(m, s, 6, 14);
        assert(suit_count_from(m, s, 5) == card_count(m, s, 5) + suit_count_from(m, s, 6));
        assert(suit_count_from(m, s, 4) == card_count(m, s, 4) + suit_count_from(m, s, 5));
        assert(suit_count_from(m, s, 3) == card_count(m, s, 3) + suit_count_from(m, s, 4));
        assert(suit_count_from(m, s, 2) == card_count(m, s, 2) + suit_count_from(m, s, 3));
    } else {
        assert(rank_present(m, Some(s), h - 4));
        assert(rank_present(m, Some(s), h - 3));
        assert(rank_present(m, Some(s), h - 2));
        assert(rank_present(m, Some(s), h - 1));
        assert(rank_present(m, Some(s), h));
        lemma_suit_count_from_mono(m, s, 2, h - 4);
        assert(suit_count_from(m, s, h) == card_count(m, s, h) + suit_count_from(m, s, h + 1));
        assert(suit_count_from(m, s, h - 1) == card_count(m, s, h - 1) + suit_count_from(m, s, h));
        assert(suit_count_from(m, s, h - 2) == card_count(m, s, h - 2) + suit_count_from(
            m,
            s,
            h - 1,
        ));
        assert(suit_count_from(m, s, h - 3) == card_count(m, s, h - 3) + suit_count_from(
            m,
            s,
            h - 2,
        ));
        assert(suit_count_from(m, s, h - 4) == card_count(m, s, h - 4) + suit_count_from(
            m,
            s,
            h - 3,
        ));
    }
}

/// The strongest category claim, part one: the category the cascade
/// returns is achievable by a five-card subset of the pool.
///
/// Part two: no strictly stronger category is achievable. The claim needs
/// a pool from a single deck with a single flush candidate, and steps
/// around pools of two bare triples, which the cascade books as three of
/// a kind (see `trips_come_paired`).
pub proof fn lemma_category_is_best(m: Multiset<Card>)
    requires
        valid_pool(m),
        m.len() >= 5,
        no_duplicates(m),
        single_flush_suit(m),
        trips_come_paired(m),
    ensures
        spec_achievable(m, spec_category(m)),
        forall|cat: Hand_Category| #[trigger]
            spec_achievable(m, cat) ==> spec_strength(cat) <= spec_strength(spec_category(m)),
{
    let fs = spec_flush_suit(m);
    let sh = spec_straight_high(m, fs);
    let cat = spec_category(m);
    lemma_straight_high_props(m, fs, 14);
    lemma_highest_with_count_props(m, 4, 14);
    lemma_highest_with_count_props(m, 3, 14);
    lemma_highest_with_count_props(m, 2, 14);
    if highest_with_count(m, 2) is Some {
        lemma_highest_with_count_props(m, 2, highest_with_count(m, 2)->0 - 1);
    }

    // with no duplicate cards each rank holds at most four cards
    assert forall|v: int| 2 <= v <= 14 implies #[trigger] rank_count(m, v) <= 4 by {
        assert(m.count(Card { suit: Suit::Spades, val: v as i32 }) <= 1);
        assert(m.count(Card { suit: Suit::Hearts, val: v as i32 }) <= 1);
        assert(m.count(Card { suit: Suit::Clubs, val: v as i32 }) <= 1);
        assert(m.count(Card { suit: Suit::Diamonds, val: v as i32 }) <= 1);
    }

    // part one: the returned category is achievable
    assert(spec_achievable(m, cat)) by {
        if fs is Some && sh is Some {
            assert(straight_to(m, Some(fs->0), sh->0));
        } else if highest_with_count(m, 4) is Some {
        } else if highest_with_count(m, 3) is Some && highest_with_count(m, 2) is Some {
        } else if fs is Some {
        } else if sh is Some {
        } else if highest_with_count(m, 3) is Some {
        } else if spec_second_pair(m) is Some {
            assert(rank_count(m, highest_with_count(m, 2)->0) >= 2);
            assert(rank_count(m, spec_second_pair(m)->0) >= 2);
        } else if highest_with_count(m, 2) is Some {
        } else {
        }
    }

    // part two: nothing stronger is achievable
    assert forall|c: Hand_Category| #[trigger]
        spec_achievable(m, c) implies spec_strength(c) <= spec_strength(cat) by {
        lemma_achievable_bounded(m, c);
    }
}

/// One step of the strongest-category claim: a category achievable in the
/// pool is at most as strong as the one the cascade returns.
proof fn lemma_achievable_bounded(m: Multiset<Card>, c: Hand_Category)
    requires
        valid_pool(m),
        m.len() >= 5,
        no_duplicates(m),
        single_flush_suit(m),
        trips_come_paired(m),
        spec_achievable(m, c),
    ensures
        spec_strength(c) <= spec_strength(spec_category(m)),
{
    let fs = spec_flush_suit(m);
    let sh = spec_straight_high(m, fs);
    let cat = spec_category(m);
    lemma_straight_high_props(m, fs, 14);
    lemma_highest_with_count_props(m, 4, 14);
    lemma_highest_with_count_props(m, 3, 14);
    lemma_highest_with_count_props(m, 2, 14);

    assert forall|v: int| 2 <= v <= 14 implies #[trigger] rank_count(m, v) <= 4 by {
        assert(m.count(Card { suit: Suit::Spades, val: v as i32 }) <= 1);
        assert(m.count(Card { suit: Suit::Hearts, val: v as i32 }) <= 1);
        assert(m.count(Card { suit: Suit::Clubs, val: v as i32 }) <= 1);
        assert(m.count(Card { suit: Suit::Diamonds, val: v as i32 }) <= 1);
    }

    match c {
        Hand_Category::High_Card => {
        },
        Hand_Category::Pair => {
            let v = choose|v: int| 2 <= v <= 14 && #[trigger] rank_count(m, v) >= 2;
            lemma_rank_count_forces(m, v);
        },
        Hand_Category::Two_Pair => {
            let (v, w) = choose|v: int, w: int|
                2 <= v <= 14 && 2 <= w <= 14 && v != w && #[trigger] rank_count(m, v) >= 2
                    && #[trigger] rank_count(m, w) >= 2;
            lemma_two_ranks_force(m, v, w);
        },
        Hand_Category::Three_of_a_Kind => {
            let v = choose|v: int| 2 <= v <= 14 && #[trigger] rank_count(m, v) >= 3;
            lemma_rank_count_forces(m, v);
        },
        Hand_Category::Straight => {
            if fs is None {
                let h = choose|h: int| 5 <= h <= 14 && #[trigger] straight_to(m, None, h);
                assert(sh is Some);
            }
            // with a flush candidate the cascade answers at least a flush
        },
        Hand_Category::Flush => {
            let s = choose|s: Suit| #[trigger] suit_count(m, s) >= 5;
            assert(fs is Some);
        },
        Hand_Category::Full_House => {
            let (v, w) = choose|v: int, w: int|
                2 <= v <= 14 && 2 <= w <= 14 && v != w && #[trigger] rank_count(m, v) >= 3
                    && #[trigger] rank_count(m, w) >= 2;
            lemma_two_ranks_force(m, v, w);
        },
        Hand_Category::Four_of_a_Kind => {
            let v = choose|v: int| 2 <= v <= 14 && #[trigger] rank_count(m, v) >= 4;
            lemma_rank_count_forces(m, v);
        },
        Hand_Category::Straight_Flush => {
            let (s, h) = choose|s: Suit, h: int|
                5 <= h <= 14 && #[trigger] straight_to(m, Some(s), h);
            lemma_straight_needs_flush(m, s, h);
            assert(fs == Some(s));
            assert(spec_straight_high(m, Some(s)) is Some) by {
                lemma_straight_high_props(m, Some(s), 14);
            }
        },
    }
}

/// A rank holding at least two cards forces the cascade at least as high
/// as that multiplicity's own category.
proof fn lemma_rank_count_forces(m: Multiset<Card>, v: int)
    requires
        valid_pool(m),
        no_duplicates(m),
        2 <= v <= 14,
        rank_count(m, v) >= 2,
        rank_count(m, v) <= 4,
    ensures
        rank_count(m, v) >= 2 ==> spec_strength(spec_category(m)) >= 1,
        rank_count(m, v) >= 3 ==> spec_strength(spec_category(m)) >= 3,
        rank_count(m, v) >= 4 ==> spec_strength(spec_category(m)) >= 7,
{
    lemma_highest_with_count_props(m, 4, 14);
    lemma_highest_with_count_props(m, 3, 14);
    lemma_highest_with_count_props(m, 2, 14);
    if spec_second_pair(m) is Some {
        assert(highest_with_count(m, 2) is Some);
    }
}

/// Two distinct ranks holding at least two cards each force the cascade at
/// least to two pair; a triple beside another multiple forces at least a
/// full house.
proof fn lemma_two_ranks_force(m: Multiset<Card>, v: int, w: int)
    requires
        valid_pool(m),
        no_duplicates(m),
        trips_come_paired(m),
        2 <= v <= 14,
        2 <= w <= 14,
        v != w,
        rank_count(m, v) >= 2,
        rank_count(m, w) >= 2,
        rank_count(m, v) <= 4,
        rank_count(m, w) <= 4,
    ensures
        spec_strength(spec_category(m)) >= 2,
        rank_count(m, v) >= 3 ==> spec_strength(spec_category(m)) >= 6,
{
    lemma_highest_with_count_props(m, 4, 14);
    lemma_highest_with_count_props(m, 3, 14);
    lemma_highest_with_count_props(m, 2, 14);
    let p = highest_with_count(m, 2);
    if p is Some {
        lemma_highest_with_count_props(m, 2, p->0 - 1);
    }
    if rank_count(m, v) == 4 || rank_count(m, w) == 4 {
        // a quad: the cascade answers at least four of a kind
    } else if rank_count(m, v) == 3 && rank_count(m, w) == 3 {
        // two bare triples only occur beside an exact pair here
        assert(highest_with_count(m, 3) is Some);
        assert(exists|u: int| 2 <= u <= 14 && #[trigger] rank_count(m, u) == 2);
        assert(highest_with_count(m, 2) is Some);
    } else if rank_count(m, v) == 3 || rank_count(m, w) == 3 {
        assert(highest_with_count(m, 3) is Some);
        assert(highest_with_count(m, 2) is Some);
    } else {
        // two exact pairs: the higher is found first, the lower below it
        assert(p is Some);
        let pv = p->0;
        assert(v <= pv && w <= pv);
        if v < pv {
            assert(highest_with_count_from(m, 2, pv - 1) is Some);
        } else {
            assert(highest_with_count_from(m, 2, pv - 1) is Some);
        }
        assert(spec_second_pair(m) is Some);
    }
}

} // verus!
