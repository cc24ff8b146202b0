use poker::card::{Card, EvalError, Hand, Hand_Category, Suit};

fn c(suit: Suit, val: i32) -> Card {
    Card { suit, val }
}

fn vals(h: &Hand) -> Vec<i32> {
    h.cards.iter().map(|c| c.val).collect()
}

#[test]
fn full_house_over_lower_pair() {
    // triple of fives with two pair partners: the higher pair of sevens is chosen
    let pool = vec![
        c(Suit::Hearts, 5),
        c(Suit::Clubs, 5),
        c(Suit::Spades, 5),
        c(Suit::Diamonds, 7),
        c(Suit::Clubs, 7),
        c(Suit::Clubs, 10),
        c(Suit::Clubs, 12),
    ];
    let h = Hand::make_hand(pool).unwrap();
    assert_eq!(h.category, Hand_Category::Full_House);
    assert_eq!(vals(&h), vec![5, 5, 5, 7, 7]);
}

#[test]
fn straight_not_straight_flush_when_suits_break() {
    // four spades only: the ten-to-ace straight mixes suits
    let pool = vec![
        c(Suit::Spades, 8),
        c(Suit::Clubs, 14),
        c(Suit::Hearts, 12),
        c(Suit::Spades, 13),
        c(Suit::Spades, 11),
        c(Suit::Spades, 10),
        c(Suit::Clubs, 12),
    ];
    let h = Hand::make_hand(pool).unwrap();
    assert_eq!(h.category, Hand_Category::Straight);
    assert_eq!(vals(&h), vec![14, 13, 12, 11, 10]);
}

#[test]
fn two_pair_takes_the_highest_pairs() {
    let pool = vec![
        c(Suit::Hearts, 5),
        c(Suit::Clubs, 5),
        c(Suit::Spades, 6),
        c(Suit::Clubs, 6),
        c(Suit::Spades, 7),
        c(Suit::Diamonds, 7),
        c(Suit::Clubs, 4),
    ];
    let h = Hand::make_hand(pool).unwrap();
    assert_eq!(h.category, Hand_Category::Two_Pair);
    assert_eq!(vals(&h), vec![7, 7, 6, 6, 5]);
}

#[test]
fn four_cards_are_insufficient() {
    let pool = vec![
        c(Suit::Hearts, 5),
        c(Suit::Clubs, 5),
        c(Suit::Spades, 6),
        c(Suit::Clubs, 6),
    ];
    let r = Hand::make_hand(pool);
    assert_eq!(r.unwrap_err(), EvalError::InsufficientCards);
}

#[test]
fn wheel_straight_uses_the_ace_low() {
    let pool = vec![
        c(Suit::Spades, 2),
        c(Suit::Hearts, 3),
        c(Suit::Clubs, 4),
        c(Suit::Diamonds, 5),
        c(Suit::Spades, 14),
        c(Suit::Clubs, 9),
        c(Suit::Diamonds, 10),
    ];
    let h = Hand::make_hand(pool).unwrap();
    assert_eq!(h.category, Hand_Category::Straight);
    assert_eq!(vals(&h), vec![5, 4, 3, 2, 14]);
}

#[test]
fn evaluation_ignores_input_order() {
    let pool = vec![
        c(Suit::Hearts, 5),
        c(Suit::Clubs, 5),
        c(Suit::Spades, 5),
        c(Suit::Diamonds, 7),
        c(Suit::Clubs, 7),
        c(Suit::Clubs, 10),
        c(Suit::Clubs, 12),
    ];
    let mut shuffled = pool.clone();
    shuffled.reverse();
    shuffled.swap(0, 3);
    let a = Hand::make_hand(pool).unwrap();
    let b = Hand::make_hand(shuffled).unwrap();
    assert_eq!(a.category, b.category);
    assert_eq!(a.cards, b.cards);
}

#[test]
fn two_bare_triples_score_three_of_a_kind() {
    // two triples and no exact pair: the cascade books three of a kind
    let pool = vec![
        c(Suit::Hearts, 5),
        c(Suit::Clubs, 5),
        c(Suit::Spades, 5),
        c(Suit::Clubs, 7),
        c(Suit::Spades, 7),
        c(Suit::Diamonds, 7),
        c(Suit::Clubs, 12),
    ];
    let h = Hand::make_hand(pool).unwrap();
    assert_eq!(h.category, Hand_Category::Three_of_a_Kind);
    assert_eq!(vals(&h), vec![7, 7, 7, 12, 5]);
}

#[test]
fn straight_flush_needs_one_suit() {
    let pool = vec![
        c(Suit::Spades, 5),
        c(Suit::Spades, 6),
        c(Suit::Spades, 7),
        c(Suit::Spades, 8),
        c(Suit::Spades, 9),
        c(Suit::Hearts, 2),
        c(Suit::Diamonds, 3),
    ];
    let h = Hand::make_hand(pool).unwrap();
    assert_eq!(h.category, Hand_Category::Straight_Flush);
    assert_eq!(vals(&h), vec![9, 8, 7, 6, 5]);
    assert!(h.cards.iter().all(|x| x.suit == Suit::Spades));
}

#[test]
fn flush_takes_the_five_highest_of_the_suit() {
    let pool = vec![
        c(Suit::Spades, 2),
        c(Suit::Spades, 7),
        c(Suit::Spades, 9),
        c(Suit::Spades, 11),
        c(Suit::Spades, 13),
        c(Suit::Hearts, 4),
        c(Suit::Diamonds, 6),
    ];
    let h = Hand::make_hand(pool).unwrap();
    assert_eq!(h.category, Hand_Category::Flush);
    assert_eq!(vals(&h), vec![13, 11, 9, 7, 2]);
}

#[test]
fn four_of_a_kind_keeps_the_best_kicker() {
    let pool = vec![
        c(Suit::Spades, 9),
        c(Suit::Hearts, 9),
        c(Suit::Clubs, 9),
        c(Suit::Diamonds, 9),
        c(Suit::Spades, 4),
        c(Suit::Hearts, 11),
        c(Suit::Clubs, 2),
    ];
    let h = Hand::make_hand(pool).unwrap();
    assert_eq!(h.category, Hand_Category::Four_of_a_Kind);
    assert_eq!(vals(&h), vec![9, 9, 9, 9, 11]);
}

#[test]
fn one_pair_keeps_three_kickers_descending() {
    let pool = vec![
        c(Suit::Spades, 9),
        c(Suit::Hearts, 9),
        c(Suit::Clubs, 3),
        c(Suit::Diamonds, 6),
        c(Suit::Spades, 12),
        c(Suit::Hearts, 4),
        c(Suit::Clubs, 8),
    ];
    let h = Hand::make_hand(pool).unwrap();
    assert_eq!(h.category, Hand_Category::Pair);
    assert_eq!(vals(&h), vec![9, 9, 12, 8, 6]);
}

#[test]
fn high_card_keeps_the_five_highest() {
    let pool = vec![
        c(Suit::Spades, 2),
        c(Suit::Hearts, 4),
        c(Suit::Clubs, 7),
        c(Suit::Diamonds, 9),
        c(Suit::Spades, 11),
        c(Suit::Hearts, 13),
        c(Suit::Clubs, 14),
    ];
    let h = Hand::make_hand(pool).unwrap();
    assert_eq!(h.category, Hand_Category::High_Card);
    assert_eq!(vals(&h), vec![14, 13, 11, 9, 7]);
}

#[test]
fn hand_always_holds_exactly_five_cards() {
    let pools = vec![
        vec![
            c(Suit::Spades, 2),
            c(Suit::Hearts, 4),
            c(Suit::Clubs, 7),
            c(Suit::Diamonds, 9),
            c(Suit::Spades, 11),
        ],
        vec![
            c(Suit::Spades, 9),
            c(Suit::Hearts, 9),
            c(Suit::Clubs, 9),
            c(Suit::Diamonds, 9),
            c(Suit::Spades, 4),
            c(Suit::Hearts, 11),
            c(Suit::Clubs, 2),
        ],
    ];
    for pool in pools {
        let h = Hand::make_hand(pool).unwrap();
        assert_eq!(h.cards.len(), 5);
    }
}
