//! The executable hand evaluator and its proof.
//!
//! Each helper is a small loop whose invariant tracks the corresponding
//! spec function from `model` over the multiset of the cards scanned so
//! far; `Hand::make_hand` then assembles the cascade and is proved to
//! return exactly the modelled category and card sequence.

use vstd::prelude::*;
use vstd::multiset::Multiset;
use crate::card::{Card, Suit, Hand_Category, EvalError};
use crate::model::{
    valid_cards, card_count, rank_count, suit_count_from, suit_count, spec_flush_suit,
    wheel_rank, rank_present, straight_to, straight_high_from, spec_straight_high,
    first_suit_with_rank_from, card_at_rank, straight_cards_down, spec_straight_cards,
    repeat_card, cards_of_rank_from, cards_of_rank, cards_desc_from, top_cards,
    ranks_total_from, suit_cards_from, spec_flush_cards, highest_with_count_from,
    highest_with_count, spec_second_pair, suit_of, spec_category, spec_hand_cards,
};

verus! {

broadcast use vstd::multiset::group_multiset_axioms, vstd::seq_lib::group_to_multiset_ensures;

/// `repeat_card` has length `n` and holds `c` everywhere.
pub proof fn lemma_repeat_card(c: Card, n: nat)
    ensures
        repeat_card(c, n).len() == n,
        forall|i: int| 0 <= i < n ==> repeat_card(c, n)[i] == c,
    decreases n,
{
    if n > 0 {
        lemma_repeat_card(c, (n - 1) as nat);
    }
}

/// The cards of one rank are as many as the rank's count.
pub proof fn lemma_cards_of_rank_len(m: Multiset<Card>, v: int)
    ensures
        cards_of_rank(m, v).len() == rank_count(m, v),
{
    lemma_repeat_card(Card { suit: suit_of(0), val: v as i32 }, card_count(m, suit_of(0), v));
    lemma_repeat_card(Card { suit: suit_of(1), val: v as i32 }, card_count(m, suit_of(1), v));
    lemma_repeat_card(Card { suit: suit_of(2), val: v as i32 }, card_count(m, suit_of(2), v));
    lemma_repeat_card(Card { suit: suit_of(3), val: v as i32 }, card_count(m, suit_of(3), v));
    assert(cards_of_rank_from(m, v, 4).len() == 0);
    assert(cards_of_rank_from(m, v, 3).len() == card_count(m, suit_of(3), v));
    assert(cards_of_rank_from(m, v, 2).len() == card_count(m, suit_of(2), v) + card_count(
        m,
        suit_of(3),
        v,
    ));
    assert(cards_of_rank_from(m, v, 1).len() == card_count(m, suit_of(1), v) + card_count(
        m,
        suit_of(2),
        v,
    ) + card_count(m, suit_of(3), v));
}

/// Inserting one card raises `rank_count` of its rank by one and leaves
/// the other ranks unchanged.
pub proof fn lemma_rank_count_insert(m: Multiset<Card>, c: Card, v: int)
    requires
        i32::MIN <= v <= i32::MAX,
    ensures
        rank_count(m.insert(c), v) == rank_count(m, v) + (if c.val as int == v {
            1nat
        } else {
            0nat
        }),
{
}

/// Inserting one card raises `suit_count_from` of its suit by one whenever
/// the card's rank lies in the counted range.
pub proof fn lemma_suit_count_insert(m: Multiset<Card>, c: Card, s: Suit, v: int)
    requires
        2 <= v,
        c.val <= 14,
    ensures
        suit_count_from(m.insert(c), s, v) == suit_count_from(m, s, v) + (if c.suit == s && v
            <= c.val as int {
            1nat
        } else {
            0nat
        }),
    decreases 15 - v,
{
    if v <= 14 {
        lemma_suit_count_insert(m, c, s, v + 1);
    }
}

/// Inserting one card raises the unskipped rank total by one whenever the
/// card's rank lies in the counted range and is not skipped.
pub proof fn lemma_ranks_total_insert(m: Multiset<Card>, c: Card, s1: int, s2: int, v: int)
    requires
        v <= 14,
        2 <= c.val,
    ensures
        ranks_total_from(m.insert(c), s1, s2, v) == ranks_total_from(m, s1, s2, v) + (if c.val
            as int <= v && c.val as int != s1 && c.val as int != s2 {
            1nat
        } else {
            0nat
        }),
    decreases v,
{
    if v >= 2 {
        lemma_rank_count_insert(m, c, v);
        lemma_ranks_total_insert(m, c, s1, s2, v - 1);
    }
}

/// With no rank skipped, the rank totals add up to the size of the pool.
pub proof fn lemma_ranks_total_full(s: Seq<Card>)
    requires
        valid_cards(s),
    ensures
        ranks_total_from(s.to_multiset(), 0, 0, 14) == s.len(),
    decreases s.len(),
{
    if s.len() == 0 {
        assert(s.to_multiset() =~= Multiset::empty());
        lemma_ranks_total_empty(0, 0, 14);
    } else {
        let prefix = s.drop_last();
        let c = s.last();
        assert(valid_cards(prefix)) by {
            assert(forall|i: int| 0 <= i < prefix.len() ==> prefix[i] == s[i]);
        }
        lemma_ranks_total_full(prefix);
        assert(prefix.push(c) =~= s);
        assert(s.to_multiset() == prefix.to_multiset().insert(c));
        lemma_ranks_total_insert(prefix.to_multiset(), c, 0, 0, 14);
    }
}

/// Every suit count of the empty pool is zero.
pub proof fn lemma_suit_count_empty(s: Suit, v: int)
    ensures
        suit_count_from(Multiset::empty(), s, v) == 0,
    decreases 15 - v,
{
    if v <= 14 {
        lemma_suit_count_empty(s, v + 1);
    }
}

/// Every rank total of the empty pool is zero.
pub proof fn lemma_ranks_total_empty(s1: int, s2: int, v: int)
    ensures
        ranks_total_from(Multiset::empty(), s1, s2, v) == 0,
    decreases v,
{
    if v >= 2 {
        lemma_ranks_total_empty(s1, s2, v - 1);
    }
}

/// Skipping one rank removes exactly that rank's count from the total.
pub proof fn lemma_ranks_total_skip1(m: Multiset<Card>, q: int, v: int)
    requires
        q != 0,
    ensures
        ranks_total_from(m, 0, 0, v) == ranks_total_from(m, q, q, v) + (if 2 <= q <= v {
            rank_count(m, q)
        } else {
            0nat
        }),
    decreases v,
{
    if v >= 2 {
        lemma_ranks_total_skip1(m, q, v - 1);
    }
}

/// Skipping two distinct ranks removes exactly their counts from the total.
pub proof fn lemma_ranks_total_skip2(m: Multiset<Card>, p1: int, p2: int, v: int)
    requires
        p1 != 0,
        p2 != 0,
        p1 != p2,
    ensures
        ranks_total_from(m, 0, 0, v) == ranks_total_from(m, p1, p2, v) + (if 2 <= p1 <= v {
            rank_count(m, p1)
        } else {
            0nat
        }) + (if 2 <= p2 <= v {
            rank_count(m, p2)
        } else {
            0nat
        }),
    decreases v,
{
    if v >= 2 {
        lemma_ranks_total_skip2(m, p1, p2, v - 1);
    }
}

/// The descending card listing has exactly as many cards as the rank total.
pub proof fn lemma_cards_desc_len(m: Multiset<Card>, s1: int, s2: int, v: int)
    ensures
        cards_desc_from(m, s1, s2, v).len() == ranks_total_from(m, s1, s2, v),
    decreases v,
{
    if v >= 2 {
        lemma_cards_of_rank_len(m, v);
        lemma_cards_desc_len(m, s1, s2, v - 1);
    }
}

/// The descending listing of one suit holds that suit's cards up to rank `v`.
pub proof fn lemma_suit_cards_len(m: Multiset<Card>, s: Suit, v: int)
    requires
        1 <= v <= 14,
    ensures
        suit_cards_from(m, s, v).len() + suit_count_from(m, s, v + 1) == suit_count(m, s),
    decreases v,
{
    if v == 1 {
    } else {
        lemma_repeat_card(Card { suit: s, val: v as i32 }, card_count(m, s, v));
        lemma_suit_cards_len(m, s, v - 1);
    }
}

/// What a `highest_with_count_from` answer means: the found rank has the
/// asked-for count and no higher rank in range has it.
pub proof fn lemma_highest_with_count_props(m: Multiset<Card>, c: nat, h: int)
    ensures
        match highest_with_count_from(m, c, h) {
            Some(p) => 2 <= p <= h && rank_count(m, p) == c && (forall|w: int|
                p < w <= h ==> #[trigger] rank_count(m, w) != c),
            None => forall|w: int| 2 <= w <= h ==> #[trigger] rank_count(m, w) != c,
        },
    decreases h,
{
    if h >= 2 && rank_count(m, h) != c {
        lemma_highest_with_count_props(m, c, h - 1);
    }
}

/// Counts the copies of one exact card in the pool.
fn count_card_exec(cards: &Vec<Card>, s: Suit, v: i32) -> (n: usize)
    ensures
        n as nat == card_count(cards@.to_multiset(), s, v as int),
{
    let mut n: usize = 0;
    let mut i: usize = 0;
    while i < cards.len()
        invariant
            i <= cards@.len(),
            n <= i,
            n as nat == card_count(cards@.take(i as int).to_multiset(), s, v as int),
        decreases cards@.len() - i,
    {
        let c = cards[i];
        proof {
            assert(cards@.take(i as int + 1) =~= cards@.take(i as int).push(cards@[i as int]));
        }
        if c.suit == s && c.val == v {
            n = n + 1;
        }
        i = i + 1;
    }
    proof {
        assert(cards@.take(cards@.len() as int) =~= cards@);
    }
    n
}

/// Counts the cards of one rank in the pool, over all suits.
fn count_rank_exec(cards: &Vec<Card>, v: i32) -> (n: usize)
    ensures
        n as nat == rank_count(cards@.to_multiset(), v as int),
{
    let mut n: usize = 0;
    let mut i: usize = 0;
    while i < cards.len()
        invariant
            i <= cards@.len(),
            n <= i,
            n as nat == rank_count(cards@.take(i as int).to_multiset(), v as int),
        decreases cards@.len() - i,
    {
        let c = cards[i];
        proof {
            assert(cards@.take(i as int + 1) =~= cards@.take(i as int).push(cards@[i as int]));
            lemma_rank_count_insert(cards@.take(i as int).to_multiset(), c, v as int);
        }
        if c.val == v {
            n = n + 1;
        }
        i = i + 1;
    }
    proof {
        assert(cards@.take(cards@.len() as int) =~= cards@);
    }
    n
}

/// Counts the cards of one suit in the pool.
fn count_suit_exec(cards: &Vec<Card>, s: Suit) -> (n: usize)
    requires
        valid_cards(cards@),
    ensures
        n as nat == suit_count(cards@.to_multiset(), s),
{
    let mut n: usize = 0;
    let mut i: usize = 0;
    proof {
        assert(cards@.take(0).to_multiset() =~= Multiset::empty());
        lemma_suit_count_empty(s, 2);
    }
    while i < cards.len()
        invariant
            i <= cards@.len(),
            n <= i,
            valid_cards(cards@),
            n as nat == suit_count(cards@.take(i as int).to_multiset(), s),
        decreases cards@.len() - i,
    {
        let c = cards[i];
        proof {
            assert(cards@.take(i as int + 1) =~= cards@.take(i as int).push(cards@[i as int]));
            assert(c.wf());
            lemma_suit_count_insert(cards@.take(i as int).to_multiset(), c, s, 2);
        }
        if c.suit == s {
            n = n + 1;
        }
        i = i + 1;
    }
    proof {
        assert(cards@.take(cards@.len() as int) =~= cards@);
    }
    n
}

/// The suit at position `i` of the fixed suit order.
fn suit_at(i: usize) -> (s: Suit)
    requires
        i <= 3,
    ensures
        s == suit_of(i as int),
{
    if i == 0 {
        Suit::Spades
    } else if i == 1 {
        Suit::Hearts
    } else if i == 2 {
        Suit::Clubs
    } else {
        Suit::Diamonds
    }
}

/// Whether rank `v` (1 standing for the low Ace) is present, restricted to
/// the flush suit when one exists.
fn rank_present_exec(cards: &Vec<Card>, fs: Option<Suit>, v: i32) -> (r: bool)
    ensures
        r == rank_present(cards@.to_multiset(), fs, v as int),
{
    let w = if v == 1 {
        14
    } else {
        v
    };
    match fs {
        Some(s) => count_card_exec(cards, s, w) > 0,
        None => count_rank_exec(cards, w) > 0,
    }
}

/// The high rank of the best straight, if any.
#[verifier::loop_isolation(false)]
fn straight_high_exec(cards: &Vec<Card>, fs: Option<Suit>) -> (r: Option<i32>)
    ensures
        spec_straight_high(cards@.to_multiset(), fs) == (match r {
            Some(h) => Some(h as int),
            None => None::<int>,
        }),
        r is Some ==> 5 <= r->0 <= 14,
{
    let ghost m = cards@.to_multiset();
    let mut h: i32 = 14;
    while h >= 5
        invariant
            4 <= h <= 14,
            straight_high_from(m, fs, 14) == straight_high_from(m, fs, h as int),
        decreases h,
    {
        let p0 = rank_present_exec(cards, fs, h - 4);
        let p1 = rank_present_exec(cards, fs, h - 3);
        let p2 = rank_present_exec(cards, fs, h - 2);
        let p3 = rank_present_exec(cards, fs, h - 1);
        let p4 = rank_present_exec(cards, fs, h);
        if p0 && p1 && p2 && p3 && p4 {
            proof {
                assert forall|v: int| h - 4 <= v <= h implies rank_present(m, fs, v) by {
                    if v == h - 4 {
                    } else if v == h - 3 {
                    } else if v == h - 2 {
                    } else if v == h - 1 {
                    } else {
                        assert(v == h as int);
                    }
                }
                assert(straight_to(m, fs, h as int));
            }
            return Some(h);
        }
        proof {
            assert(!straight_to(m, fs, h as int)) by {
                if !p0 {
                    assert(!rank_present(m, fs, h as int - 4));
                } else if !p1 {
                    assert(!rank_present(m, fs, h as int - 3));
                } else if !p2 {
                    assert(!rank_present(m, fs, h as int - 2));
                } else if !p3 {
                    assert(!rank_present(m, fs, h as int - 1));
                } else {
                    assert(!rank_present(m, fs, h as int));
                }
            }
        }
        h = h - 1;
    }
    None
}

/// The card standing for rank `v` in a straight: the flush suit's card when
/// it holds that rank, else the first suit holding it.
#[verifier::loop_isolation(false)]
fn pick_card_at_rank_exec(cards: &Vec<Card>, fs: Option<Suit>, v: i32) -> (c: Card)
    ensures
        c == card_at_rank(cards@.to_multiset(), fs, v as int),
{
    let ghost m = cards@.to_multiset();
    match fs {
        Some(s) => {
            if count_card_exec(cards, s, v) > 0 {
                return Card { suit: s, val: v };
            }
        },
        None => {},
    }
    let mut i: usize = 0;
    while i < 3
        invariant
            i <= 3,
            first_suit_with_rank_from(m, v as int, 0) == first_suit_with_rank_from(
                m,
                v as int,
                i as int,
            ),
        decreases 3 - i,
    {
        let s = suit_at(i);
        if count_card_exec(cards, s, v) > 0 {
            return Card { suit: s, val: v };
        }
        i = i + 1;
    }
    Card { suit: Suit::Diamonds, val: v }
}

/// The five cards of the straight ending at rank `h`, highest first.
#[verifier::loop_isolation(false)]
fn straight_cards_exec(cards: &Vec<Card>, fs: Option<Suit>, h: i32) -> (r: Vec<Card>)
    requires
        5 <= h <= 14,
    ensures
        r@ == spec_straight_cards(cards@.to_multiset(), fs, h as int),
        r@.len() == 5,
        valid_cards(r@),
{
    let ghost m = cards@.to_multiset();
    let mut r: Vec<Card> = Vec::new();
    let mut k: usize = 0;
    while k < 5
        invariant
            k <= 5,
            5 <= h <= 14,
            r@.len() == k,
            valid_cards(r@),
            straight_cards_down(m, fs, h as int, 5) =~= r@ + straight_cards_down(
                m,
                fs,
                h as int - k,
                (5 - k) as nat,
            ),
        decreases 5 - k,
    {
        let ghost old_r = r@;
        let vr = h - (k as i32);
        let w = if vr == 1 {
            14
        } else {
            vr
        };
        let c = pick_card_at_rank_exec(cards, fs, w);
        r.push(c);
        proof {
            assert(w as int == wheel_rank(h as int - k));
            assert(straight_cards_down(m, fs, h as int - k, (5 - k) as nat) == seq![
                card_at_rank(m, fs, wheel_rank(h as int - k)),
            ] + straight_cards_down(m, fs, h as int - k - 1, (4 - k) as nat));
            assert(old_r + straight_cards_down(m, fs, h as int - k, (5 - k) as nat) =~= r@
                + straight_cards_down(m, fs, h as int - (k + 1), (5 - (k + 1)) as nat));
        }
        k = k + 1;
    }
    proof {
        assert(straight_cards_down(m, fs, h as int - 5, 0) =~= Seq::empty());
        assert(r@ =~= spec_straight_cards(m, fs, h as int));
    }
    r
}

/// All cards of rank `v`, suit by suit in the fixed suit order.
#[verifier::loop_isolation(false)]
fn cards_of_rank_exec(cards: &Vec<Card>, v: i32) -> (r: Vec<Card>)
    requires
        2 <= v <= 14,
    ensures
        r@ == cards_of_rank(cards@.to_multiset(), v as int),
        r@.len() == rank_count(cards@.to_multiset(), v as int),
        valid_cards(r@),
{
    let ghost m = cards@.to_multiset();
    let mut r: Vec<Card> = Vec::new();
    let mut i: usize = 0;
    while i < 4
        invariant
            i <= 4,
            cards_of_rank_from(m, v as int, 0) =~= r@ + cards_of_rank_from(m, v as int, i as int),
            forall|t: int| 0 <= t < r@.len() ==> (#[trigger] r@[t]).wf(),
        decreases 4 - i,
    {
        let ghost outer_r = r@;
        let s = suit_at(i);
        let cnt = count_card_exec(cards, s, v);
        let mut j: usize = 0;
        while j < cnt
            invariant
                j <= cnt,
                cnt as nat == card_count(m, s, v as int),
                r@ =~= outer_r + repeat_card(Card { suit: s, val: v }, j as nat),
                forall|t: int| 0 <= t < r@.len() ==> (#[trigger] r@[t]).wf(),
            decreases cnt - j,
        {
            r.push(Card { suit: s, val: v });
            proof {
                lemma_repeat_card(Card { suit: s, val: v }, j as nat);
                lemma_repeat_card(Card { suit: s, val: v }, (j + 1) as nat);
                assert(r@ =~= outer_r + repeat_card(Card { suit: s, val: v }, (j + 1) as nat));
            }
            j = j + 1;
        }
        proof {
            assert(cards_of_rank_from(m, v as int, i as int) == repeat_card(
                Card { suit: s, val: v },
                card_count(m, s, v as int),
            ) + cards_of_rank_from(m, v as int, i as int + 1));
            assert(cards_of_rank_from(m, v as int, 0) =~= r@ + cards_of_rank_from(
                m,
                v as int,
                i as int + 1,
            ));
        }
        i = i + 1;
    }
    proof {
        assert(cards_of_rank_from(m, v as int, 4) =~= Seq::empty());
        assert(r@ =~= cards_of_rank(m, v as int));
        lemma_cards_of_rank_len(m, v as int);
        assert(forall|t: int| 0 <= t < r@.len() ==> (#[trigger] r@[t]).wf());
    }
    r
}

/// The `n` best kickers: the `n` highest cards outside the skipped ranks.
#[verifier::loop_isolation(false)]
fn top_cards_exec(cards: &Vec<Card>, skip1: i32, skip2: i32, n: usize) -> (r: Vec<Card>)
    requires
        n <= ranks_total_from(cards@.to_multiset(), skip1 as int, skip2 as int, 14),
    ensures
        r@ == top_cards(cards@.to_multiset(), skip1 as int, skip2 as int, n as nat),
        r@.len() == n,
        valid_cards(r@),
{
    let ghost m = cards@.to_multiset();
    let mut acc: Vec<Card> = Vec::new();
    let mut v: i32 = 14;
    while v >= 2
        invariant
            1 <= v <= 14,
            cards_desc_from(m, skip1 as int, skip2 as int, 14) =~= acc@ + cards_desc_from(
                m,
                skip1 as int,
                skip2 as int,
                v as int,
            ),
            valid_cards(acc@),
        decreases v,
    {
        let ghost outer_acc = acc@;
        if v != skip1 && v != skip2 {
            let mut chunk = cards_of_rank_exec(cards, v);
            acc.append(&mut chunk);
        }
        proof {
            assert(cards_desc_from(m, skip1 as int, skip2 as int, 14) =~= acc@ + cards_desc_from(
                m,
                skip1 as int,
                skip2 as int,
                v as int - 1,
            ));
        }
        v = v - 1;
    }
    proof {
        assert(cards_desc_from(m, skip1 as int, skip2 as int, 1) =~= Seq::empty());
        assert(acc@ =~= cards_desc_from(m, skip1 as int, skip2 as int, 14));
        lemma_cards_desc_len(m, skip1 as int, skip2 as int, 14);
    }
    acc.truncate(n);
    proof {
        assert(acc@ =~= cards_desc_from(m, skip1 as int, skip2 as int, 14).take(n as int));
    }
    acc
}

/// The five highest cards of the flush suit, descending.
#[verifier::loop_isolation(false)]
fn flush_cards_exec(cards: &Vec<Card>, s: Suit) -> (r: Vec<Card>)
    requires
        suit_count(cards@.to_multiset(), s) >= 5,
    ensures
        r@ == spec_flush_cards(cards@.to_multiset(), s),
        r@.len() == 5,
        valid_cards(r@),
{
    let ghost m = cards@.to_multiset();
    let mut acc: Vec<Card> = Vec::new();
    let mut v: i32 = 14;
    while v >= 2
        invariant
            1 <= v <= 14,
            suit_cards_from(m, s, 14) =~= acc@ + suit_cards_from(m, s, v as int),
            valid_cards(acc@),
        decreases v,
    {
        let ghost outer_acc = acc@;
        let cnt = count_card_exec(cards, s, v);
        let mut j: usize = 0;
        while j < cnt
            invariant
                j <= cnt,
                cnt as nat == card_count(m, s, v as int),
                acc@ =~= outer_acc + repeat_card(Card { suit: s, val: v }, j as nat),
                valid_cards(acc@),
            decreases cnt - j,
        {
            acc.push(Card { suit: s, val: v });
            proof {
                lemma_repeat_card(Card { suit: s, val: v }, j as nat);
                lemma_repeat_card(Card { suit: s, val: v }, (j + 1) as nat);
                assert(acc@ =~= outer_acc + repeat_card(Card { suit: s, val: v }, (j + 1) as nat));
            }
            j = j + 1;
        }
        proof {
            assert(suit_cards_from(m, s, v as int) == repeat_card(
                Card { suit: s, val: v },
                card_count(m, s, v as int),
            ) + suit_cards_from(m, s, v as int - 1));
            assert(suit_cards_from(m, s, 14) =~= acc@ + suit_cards_from(m, s, v as int - 1));
        }
        v = v - 1;
    }
    proof {
        assert(suit_cards_from(m, s, 1) =~= Seq::empty());
        assert(acc@ =~= suit_cards_from(m, s, 14));
        lemma_suit_cards_len(m, s, 14);
        assert(suit_count_from(m, s, 15) == 0);
    }
    acc.truncate(5);
    proof {
        assert(acc@ =~= suit_cards_from(m, s, 14).take(5));
    }
    acc
}

/// The highest rank in `[2, start]` held by exactly `c` cards, if any.
#[verifier::loop_isolation(false)]
fn highest_with_count_below(cards: &Vec<Card>, c: usize, start: i32) -> (r: Option<i32>)
    requires
        1 <= start <= 14,
    ensures
        highest_with_count_from(cards@.to_multiset(), c as nat, start as int) == (match r {
            Some(h) => Some(h as int),
            None => None::<int>,
        }),
        r is Some ==> 2 <= r->0 <= start,
{
    let ghost m = cards@.to_multiset();
    let mut h: i32 = start;
    while h >= 2
        invariant
            1 <= h <= start,
            highest_with_count_from(m, c as nat, start as int) == highest_with_count_from(
                m,
                c as nat,
                h as int,
            ),
        decreases h,
    {
        if count_rank_exec(cards, h) == c {
            return Some(h);
        }
        h = h - 1;
    }
    None
}

/// The flush candidate: the first suit holding at least five cards.
fn flush_suit_exec(cards: &Vec<Card>) -> (r: Option<Suit>)
    requires
        valid_cards(cards@),
    ensures
        r == spec_flush_suit(cards@.to_multiset()),
{
    if count_suit_exec(cards, Suit::Spades) >= 5 {
        Some(Suit::Spades)
    } else if count_suit_exec(cards, Suit::Hearts) >= 5 {
        Some(Suit::Hearts)
    } else if count_suit_exec(cards, Suit::Clubs) >= 5 {
        Some(Suit::Clubs)
    } else if count_suit_exec(cards, Suit::Diamonds) >= 5 {
        Some(Suit::Diamonds)
    } else {
        None
    }
}

/// The evaluator: chooses the best five-card hand from the pool.
impl crate::card::Hand {
    /// Evaluates a pool of at least five cards to the best five-card hand.
    ///
    /// Fails with `InsufficientCards` exactly when the pool holds fewer
    /// than five cards. On success the hand is exactly five cards, the
    /// category is the one given by the priority cascade of the model,
    /// and the cards are the modelled selection for that category: both
    /// depend only on the multiset of the pool, never on its order.
    pub fn make_hand(cards: Vec<Card>) -> (r: Result<crate::card::Hand, EvalError>)
        requires
            valid_cards(cards@),
        ensures
            r is Err <==> cards@.len() < 5,
            r is Err ==> r->Err_0 == EvalError::InsufficientCards,
            r is Ok ==> r->Ok_0.category == spec_category(cards@.to_multiset()),
            r is Ok ==> r->Ok_0.cards@ == spec_hand_cards(cards@.to_multiset()),
            r is Ok ==> r->Ok_0.wf(),
    {
        if cards.len() < 5 {
            return Err(EvalError::InsufficientCards);
        }
        let ghost m = cards@.to_multiset();
        proof {
            assert(m.len() == cards@.len());
            lemma_ranks_total_full(cards@);
        }
        let fs = flush_suit_exec(&cards);
        let sh = straight_high_exec(&cards, fs);
        let quad = highest_with_count_below(&cards, 4, 14);
        let trip = highest_with_count_below(&cards, 3, 14);
        let pair = highest_with_count_below(&cards, 2, 14);
        proof {
            lemma_highest_with_count_props(m, 4, 14);
            lemma_highest_with_count_props(m, 3, 14);
            lemma_highest_with_count_props(m, 2, 14);
        }

        if fs.is_some() && sh.is_some() {
            let hand = straight_cards_exec(&cards, fs, sh.unwrap());
            Ok(crate::card::Hand { cards: hand, category: Hand_Category::Straight_Flush })
        } else if quad.is_some() {
            let q = quad.unwrap();
            let mut hand = cards_of_rank_exec(&cards, q);
            proof {
                lemma_ranks_total_skip1(m, q as int, 14);
            }
            let mut kick = top_cards_exec(&cards, q, q, 1);
            hand.append(&mut kick);
            Ok(crate::card::Hand { cards: hand, category: Hand_Category::Four_of_a_Kind })
        } else if trip.is_some() && pair.is_some() {
            let t = trip.unwrap();
            let p = pair.unwrap();
            let mut hand = cards_of_rank_exec(&cards, t);
            let mut prs = cards_of_rank_exec(&cards, p);
            hand.append(&mut prs);
            Ok(crate::card::Hand { cards: hand, category: Hand_Category::Full_House })
        } else if fs.is_some() {
            let hand = flush_cards_exec(&cards, fs.unwrap());
            Ok(crate::card::Hand { cards: hand, category: Hand_Category::Flush })
        } else if sh.is_some() {
            let hand = straight_cards_exec(&cards, None, sh.unwrap());
            Ok(crate::card::Hand { cards: hand, category: Hand_Category::Straight })
        } else if trip.is_some() {
            let t = trip.unwrap();
            let mut hand = cards_of_rank_exec(&cards, t);
            proof {
                lemma_ranks_total_skip1(m, t as int, 14);
            }
            let mut kick = top_cards_exec(&cards, t, t, 2);
            hand.append(&mut kick);
            Ok(crate::card::Hand { cards: hand, category: Hand_Category::Three_of_a_Kind })
        } else if pair.is_some() {
            let p1 = pair.unwrap();
            let second = highest_with_count_below(&cards, 2, p1 - 1);
            proof {
                lemma_highest_with_count_props(m, 2, p1 as int - 1);
            }
            if second.is_some() {
                let p2 = second.unwrap();
                let mut hand = cards_of_rank_exec(&cards, p1);
                let mut prs = cards_of_rank_exec(&cards, p2);
                hand.append(&mut prs);
                proof {
                    lemma_ranks_total_skip2(m, p1 as int, p2 as int, 14);
                }
                let mut kick = top_cards_exec(&cards, p1, p2, 1);
                hand.append(&mut kick);
                Ok(crate::card::Hand { cards: hand, category: Hand_Category::Two_Pair })
            } else {
                let mut hand = cards_of_rank_exec(&cards, p1);
                proof {
                    lemma_ranks_total_skip1(m, p1 as int, 14);
                }
                let mut kick = top_cards_exec(&cards, p1, p1, 3);
                hand.append(&mut kick);
                Ok(crate::card::Hand { cards: hand, category: Hand_Category::Pair })
            }
        } else {
            let hand = top_cards_exec(&cards, 0, 0, 5);
            Ok(crate::card::Hand { cards: hand, category: Hand_Category::High_Card })
        }
    }
}

} // verus!
