use core::cmp::Ordering;
use poker::card::{display_val, Card, Hand, Hand_Category, Suit};

fn c(suit: Suit, val: i32) -> Card {
    Card { suit, val }
}

fn hand_of(pool: Vec<Card>) -> Hand {
    Hand::make_hand(pool).unwrap()
}

#[test]
fn categories_decide_between_hands() {
    let full_house = hand_of(vec![
        c(Suit::Hearts, 5),
        c(Suit::Clubs, 5),
        c(Suit::Spades, 5),
        c(Suit::Diamonds, 7),
        c(Suit::Clubs, 7),
    ]);
    let straight = hand_of(vec![
        c(Suit::Spades, 8),
        c(Suit::Clubs, 9),
        c(Suit::Hearts, 10),
        c(Suit::Spades, 11),
        c(Suit::Spades, 12),
    ]);
    assert_eq!(full_house.compare(&straight), Ordering::Greater);
    assert_eq!(straight.compare(&full_house), Ordering::Less);
}

#[test]
fn kickers_break_ties_positionally() {
    let pair_high_kick = hand_of(vec![
        c(Suit::Spades, 9),
        c(Suit::Hearts, 9),
        c(Suit::Clubs, 12),
        c(Suit::Diamonds, 8),
        c(Suit::Spades, 6),
    ]);
    let pair_low_kick = hand_of(vec![
        c(Suit::Clubs, 9),
        c(Suit::Diamonds, 9),
        c(Suit::Hearts, 12),
        c(Suit::Spades, 8),
        c(Suit::Hearts, 5),
    ]);
    assert_eq!(pair_high_kick.compare(&pair_low_kick), Ordering::Greater);
    assert_eq!(pair_low_kick.compare(&pair_high_kick), Ordering::Less);
}

#[test]
fn equal_ranks_split_the_pot() {
    let a = hand_of(vec![
        c(Suit::Spades, 9),
        c(Suit::Hearts, 9),
        c(Suit::Clubs, 12),
        c(Suit::Diamonds, 8),
        c(Suit::Spades, 6),
    ]);
    let b = hand_of(vec![
        c(Suit::Clubs, 9),
        c(Suit::Diamonds, 9),
        c(Suit::Hearts, 12),
        c(Suit::Spades, 8),
        c(Suit::Hearts, 6),
    ]);
    assert_eq!(a.compare(&b), Ordering::Equal);
    assert_eq!(b.compare(&a), Ordering::Equal);
    assert_eq!(a.compare(&a), Ordering::Equal);
}

#[test]
fn rank_names_render() {
    assert_eq!(display_val(2), "2");
    assert_eq!(display_val(10), "10");
    assert_eq!(display_val(11), "Jack");
    assert_eq!(display_val(12), "Queen");
    assert_eq!(display_val(13), "King");
    assert_eq!(display_val(14), "Ace");
}

#[test]
fn cards_render_with_their_suit() {
    assert_eq!(c(Suit::Hearts, 11).display(), "Jack of Hearts");
    assert_eq!(c(Suit::Spades, 14).display(), "Ace of Spades");
    assert_eq!(c(Suit::Diamonds, 7).display(), "7 of Diamonds");
}

#[test]
fn categories_render_with_spaces() {
    assert_eq!(Hand_Category::High_Card.display(), "High Card");
    assert_eq!(Hand_Category::Straight_Flush.display(), "Straight Flush");
    assert_eq!(Hand_Category::Pair.display(), "Pair");
}

#[test]
fn hands_render_as_one_line() {
    let h = hand_of(vec![
        c(Suit::Hearts, 5),
        c(Suit::Clubs, 5),
        c(Suit::Spades, 5),
        c(Suit::Diamonds, 7),
        c(Suit::Clubs, 7),
    ]);
    assert_eq!(
        h.display(),
        "Full House - [5 of Spades, 5 of Hearts, 5 of Clubs, 7 of Clubs, 7 of Diamonds]\n"
    );
}
