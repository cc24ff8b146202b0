//! The mathematical model of hand evaluation.
//!
//! Every function here is specification-only and is a function of the
//! *multiset* of cards in the pool, so the model is independent of the
//! order in which the cards arrive. The executable evaluator in `eval`
//! is proved to return exactly `spec_category` and `spec_hand_cards`.
//!
//! Rank bookkeeping follows the evaluator's priority cascade: a flush
//! candidate is the first suit (in the fixed order spades, hearts, clubs,
//! diamonds) holding at least five cards; straight detection is restricted
//! to the flush suit when one exists, so that a straight found there is a
//! straight flush; the Ace (rank 14) additionally counts as rank 1 for the
//! wheel straight.

use vstd::prelude::*;
use vstd::multiset::Multiset;
use crate::card::{Card, Suit, Hand_Category};

verus! {

/// Every card of the pool has a rank in `[2, 14]`.
pub open spec fn valid_pool(m: Multiset<Card>) -> bool {
    forall|c: Card| m.count(c) > 0 ==> (#[trigger] c.wf())
}

/// Every card of the sequence has a rank in `[2, 14]`.
pub open spec fn valid_cards(s: Seq<Card>) -> bool {
    forall|i: int| 0 <= i < s.len() ==> (#[trigger] s[i]).wf()
}

/// The four suits in the fixed order used to break ties deterministically.
pub open spec fn suit_of(i: int) -> Suit {
    if i == 0 {
        Suit::Spades
    } else if i == 1 {
        Suit::Hearts
    } else if i == 2 {
        Suit::Clubs
    } else {
        Suit::Diamonds
    }
}

/// How many copies of the card with suit `s` and rank `v` the pool holds.
pub open spec fn card_count(m: Multiset<Card>, s: Suit, v: int) -> nat {
    m.count(Card { suit: s, val: v as i32 })
}

/// How many cards of rank `v` the pool holds, over all four suits.
pub open spec fn rank_count(m: Multiset<Card>, v: int) -> nat {
    card_count(m, Suit::Spades, v) + card_count(m, Suit::Hearts, v) + card_count(
        m,
        Suit::Clubs,
        v,
    ) + card_count(m, Suit::Diamonds, v)
}

/// How many cards of suit `s` the pool holds among ranks `[v, 14]`.
pub open spec fn suit_count_from(m: Multiset<Card>, s: Suit, v: int) -> nat
    decreases 15 - v,
{
    if v > 14 {
        0
    } else {
        card_count(m, s, v) + suit_count_from(m, s, v + 1)
    }
}

/// How many cards of suit `s` the pool holds.
pub open spec fn suit_count(m: Multiset<Card>, s: Suit) -> nat {
    suit_count_from(m, s, 2)
}

/// The flush candidate: the first suit, in the fixed suit order, holding at
/// least five cards. With a pool of at most nine cards at most one suit can
/// qualify, so the fixed order only breaks ties in degenerate pools.
pub open spec fn spec_flush_suit(m: Multiset<Card>) -> Option<Suit> {
    if suit_count(m, Suit::Spades) >= 5 {
        Some(Suit::Spades)
    } else if suit_count(m, Suit::Hearts) >= 5 {
        Some(Suit::Hearts)
    } else if suit_count(m, Suit::Clubs) >= 5 {
        Some(Suit::Clubs)
    } else if suit_count(m, Suit::Diamonds) >= 5 {
        Some(Suit::Diamonds)
    } else {
        None
    }
}

/// Rank 1 is the Ace playing low in the wheel straight; every other rank
/// stands for itself.
pub open spec fn wheel_rank(v: int) -> int {
    if v == 1 {
        14
    } else {
        v
    }
}

/// Whether rank `v` (with 1 standing for the low Ace) is present in the pool,
/// restricted to the flush suit when one exists.
pub open spec fn rank_present(m: Multiset<Card>, fs: Option<Suit>, v: int) -> bool {
    match fs {
        Some(s) => card_count(m, s, wheel_rank(v)) > 0,
        None => rank_count(m, wheel_rank(v)) > 0,
    }
}

/// Whether the five consecutive ranks ending at `h` are all present.
/// For `h == 5` this is the wheel: ranks 5, 4, 3, 2 and the Ace as 1.
pub open spec fn straight_to(m: Multiset<Card>, fs: Option<Suit>, h: int) -> bool {
    forall|v: int| h - 4 <= v <= h ==> rank_present(m, fs, v)
}

/// The highest straight-ending rank in `[5, h]`, if any.
pub open spec fn straight_high_from(m: Multiset<Card>, fs: Option<Suit>, h: int) -> Option<int>
    decreases h,
{
    if h < 5 {
        None
    } else if straight_to(m, fs, h) {
        Some(h)
    } else {
        straight_high_from(m, fs, h - 1)
    }
}

/// The high rank of the best straight, if a straight exists.
pub open spec fn spec_straight_high(m: Multiset<Card>, fs: Option<Suit>) -> Option<int> {
    straight_high_from(m, fs, 14)
}

/// The first suit, in the fixed suit order starting at index `i`, holding a
/// card of rank `v`; diamonds is the final fallback.
pub open spec fn first_suit_with_rank_from(m: Multiset<Card>, v: int, i: int) -> Suit
    decreases 3 - i,
{
    if i >= 3 {
        Suit::Diamonds
    } else if card_count(m, suit_of(i), v) > 0 {
        suit_of(i)
    } else {
        first_suit_with_rank_from(m, v, i + 1)
    }
}

/// The card chosen to represent rank `v` in a straight: the flush suit's card
/// when a flush candidate holds that rank, else the first suit holding it.
pub open spec fn card_at_rank(m: Multiset<Card>, fs: Option<Suit>, v: int) -> Card {
    match fs {
        Some(s) => if card_count(m, s, v) > 0 {
            Card { suit: s, val: v as i32 }
        } else {
            Card { suit: first_suit_with_rank_from(m, v, 0), val: v as i32 }
        },
        None => Card { suit: first_suit_with_rank_from(m, v, 0), val: v as i32 },
    }
}

/// The `k` cards of a straight, descending from rank `h`; a final rank of 1
/// is resolved back to the Ace card (rank 14).
pub open spec fn straight_cards_down(m: Multiset<Card>, fs: Option<Suit>, h: int, k: nat) -> Seq<
    Card,
>
    decreases k,
{
    if k == 0 {
        Seq::empty()
    } else {
        seq![card_at_rank(m, fs, wheel_rank(h))] + straight_cards_down(
            m,
            fs,
            h - 1,
            (k - 1) as nat,
        )
    }
}

/// The five cards of the straight ending at rank `h`, highest first.
pub open spec fn spec_straight_cards(m: Multiset<Card>, fs: Option<Suit>, h: int) -> Seq<Card> {
    straight_cards_down(m, fs, h, 5)
}

/// The card `c` repeated `n` times.
pub open spec fn repeat_card(c: Card, n: nat) -> Seq<Card>
    decreases n,
{
    if n == 0 {
        Seq::empty()
    } else {
        seq![c] + repeat_card(c, (n - 1) as nat)
    }
}

/// All cards of rank `v`, listed suit by suit in the fixed suit order,
/// each with its multiplicity.
pub open spec fn cards_of_rank_from(m: Multiset<Card>, v: int, i: int) -> Seq<Card>
    decreases 4 - i,
{
    if i >= 4 {
        Seq::empty()
    } else {
        repeat_card(Card { suit: suit_of(i), val: v as i32 }, card_count(m, suit_of(i), v))
            + cards_of_rank_from(m, v, i + 1)
    }
}

/// All cards of rank `v` in the pool.
pub open spec fn cards_of_rank(m: Multiset<Card>, v: int) -> Seq<Card> {
    cards_of_rank_from(m, v, 0)
}

/// All cards of rank at most `v`, in descending rank order, skipping the
/// ranks `skip1` and `skip2` (a skip rank of 0 skips nothing).
pub open spec fn cards_desc_from(
    m: Multiset<Card>,
    skip1: int,
    skip2: int,
    v: int,
) -> Seq<Card>
    decreases v,
{
    if v < 2 {
        Seq::empty()
    } else {
        (if v == skip1 || v == skip2 {
            Seq::empty()
        } else {
            cards_of_rank(m, v)
        }) + cards_desc_from(m, skip1, skip2, v - 1)
    }
}

/// The `n` highest-ranked cards of the pool outside the skipped ranks,
/// in descending rank order (kicker selection).
pub open spec fn top_cards(m: Multiset<Card>, skip1: int, skip2: int, n: nat) -> Seq<Card> {
    cards_desc_from(m, skip1, skip2, 14).take(n as int)
}

/// The number of cards with rank in `[2, v]` outside the skipped ranks.
pub open spec fn ranks_total_from(m: Multiset<Card>, skip1: int, skip2: int, v: int) -> nat
    decreases v,
{
    if v < 2 {
        0
    } else {
        (if v == skip1 || v == skip2 {
            0
        } else {
            rank_count(m, v)
        }) + ranks_total_from(m, skip1, skip2, v - 1)
    }
}

/// All cards of suit `s` with rank at most `v`, in descending rank order.
pub open spec fn suit_cards_from(m: Multiset<Card>, s: Suit, v: int) -> Seq<Card>
    decreases v,
{
    if v < 2 {
        Seq::empty()
    } else {
        repeat_card(Card { suit: s, val: v as i32 }, card_count(m, s, v)) + suit_cards_from(
            m,
            s,
            v - 1,
        )
    }
}

/// The five highest cards of the flush suit, descending.
pub open spec fn spec_flush_cards(m: Multiset<Card>, s: Suit) -> Seq<Card> {
    suit_cards_from(m, s, 14).take(5)
}

/// The highest rank in `[2, h]` held by exactly `c` cards, if any.
pub open spec fn highest_with_count_from(m: Multiset<Card>, c: nat, h: int) -> Option<int>
    decreases h,
{
    if h < 2 {
        None
    } else if rank_count(m, h) == c {
        Some(h)
    } else {
        highest_with_count_from(m, c, h - 1)
    }
}

/// The highest rank held by exactly `c` cards, if any: `c == 4` finds the
/// quad, `c == 3` the best triple, `c == 2` the best pair.
pub open spec fn highest_with_count(m: Multiset<Card>, c: nat) -> Option<int> {
    highest_with_count_from(m, c, 14)
}

/// The second-highest rank held by exactly two cards, if any.
pub open spec fn spec_second_pair(m: Multiset<Card>) -> Option<int> {
    match highest_with_count(m, 2) {
        Some(p) => highest_with_count_from(m, 2, p - 1),
        None => None,
    }
}

/// The category of the best five-card hand in the pool: the priority
/// cascade from straight flush down to high card, where each case applies
/// only if all stronger ones failed.
pub open spec fn spec_category(m: Multiset<Card>) -> Hand_Category {
    let fs = spec_flush_suit(m);
    let sh = spec_straight_high(m, fs);
    if fs is Some && sh is Some {
        Hand_Category::Straight_Flush
    } else if highest_with_count(m, 4) is Some {
        Hand_Category::Four_of_a_Kind
    } else if highest_with_count(m, 3) is Some && highest_with_count(m, 2) is Some {
        Hand_Category::Full_House
    } else if fs is Some {
        Hand_Category::Flush
    } else if sh is Some {
        Hand_Category::Straight
    } else if highest_with_count(m, 3) is Some {
        Hand_Category::Three_of_a_Kind
    } else if spec_second_pair(m) is Some {
        Hand_Category::Two_Pair
    } else if highest_with_count(m, 2) is Some {
        Hand_Category::Pair
    } else {
        Hand_Category::High_Card
    }
}

/// The five cards of the best hand, pattern cards first (strongest pattern
/// first), then kickers in descending rank order.
pub open spec fn spec_hand_cards(m: Multiset<Card>) -> Seq<Card> {
    let fs = spec_flush_suit(m);
    let sh = spec_straight_high(m, fs);
    if fs is Some && sh is Some {
        spec_straight_cards(m, fs, sh->0)
    } else if highest_with_count(m, 4) is Some {
        let q = highest_with_count(m, 4)->0;
        cards_of_rank(m, q) + top_cards(m, q, q, 1)
    } else if highest_with_count(m, 3) is Some && highest_with_count(m, 2) is Some {
        let t = highest_with_count(m, 3)->0;
        let p = highest_with_count(m, 2)->0;
        cards_of_rank(m, t) + cards_of_rank(m, p)
    } else if fs is Some {
        spec_flush_cards(m, fs->0)
    } else if sh is Some {
        spec_straight_cards(m, None, sh->0)
    } else if highest_with_count(m, 3) is Some {
        let t = highest_with_count(m, 3)->0;
        cards_of_rank(m, t) + top_cards(m, t, t, 2)
    } else if spec_second_pair(m) is Some {
        let p1 = highest_with_count(m, 2)->0;
        let p2 = spec_second_pair(m)->0;
        cards_of_rank(m, p1) + cards_of_rank(m, p2) + top_cards(m, p1, p2, 1)
    } else if highest_with_count(m, 2) is Some {
        let p = highest_with_count(m, 2)->0;
        cards_of_rank(m, p) + top_cards(m, p, p, 3)
    } else {
        top_cards(m, 0, 0, 5)
    }
}

} // verus!
