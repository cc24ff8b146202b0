//! The card model: suits, ranks, and the classified five-card hand.
//!
//! A `Card` is a plain immutable value: a suit and a rank in `[2, 14]`,
//! where 14 stands for the Ace in its high role.

use vstd::prelude::*;

verus! {

/// One of the four suits. Suits carry no ordering; only equality matters.
#[derive(Debug, Clone, Copy, PartialEq, Eq, Structural)]
pub enum Suit {
    Spades,
    Hearts,
    Clubs,
    Diamonds,
}

/// A playing card: a suit and a rank (`val`) in `[2, 14]`; 14 is the Ace.
#[derive(Debug, Clone, Copy, PartialEq, Eq, Structural)]
pub struct Card {
    pub suit: Suit,
    pub val: i32,
}

impl Card {
    /// A card is well formed when its rank lies in `[2, 14]`.
    pub open spec fn wf(self) -> bool {
        2 <= self.val <= 14
    }
}

/// The one failure of hand evaluation: a pool of fewer than five cards.
#[derive(Debug, Clone, Copy, PartialEq, Eq, Structural)]
pub enum EvalError {
    InsufficientCards,
}

/// The nine hand categories, from weakest to strongest.
#[allow(non_camel_case_types)]
#[derive(Debug, Clone, Copy, PartialEq, Eq, Structural)]
pub enum Hand_Category {
    High_Card,
    Pair,
    Two_Pair,
    Three_of_a_Kind,
    Straight,
    Flush,
    Full_House,
    Four_of_a_Kind,
    Straight_Flush,
}

/// The strength order of the categories: `High_Card` is 0, `Straight_Flush` is 8.
pub open spec fn spec_strength(c: Hand_Category) -> int {
    match c {
        Hand_Category::High_Card => 0,
        Hand_Category::Pair => 1,
        Hand_Category::Two_Pair => 2,
        Hand_Category::Three_of_a_Kind => 3,
        Hand_Category::Straight => 4,
        Hand_Category::Flush => 5,
        Hand_Category::Full_House => 6,
        Hand_Category::Four_of_a_Kind => 7,
        Hand_Category::Straight_Flush => 8,
    }
}

impl Hand_Category {
    /// The numeric strength of this category, used to compare categories.
    pub fn strength(&self) -> (s: u8)
        ensures
            s as int == spec_strength(*self),
    {
        match self {
            Hand_Category::High_Card => 0,
            Hand_Category::Pair => 1,
            Hand_Category::Two_Pair => 2,
            Hand_Category::Three_of_a_Kind => 3,
            Hand_Category::Straight => 4,
            Hand_Category::Flush => 5,
            Hand_Category::Full_House => 6,
            Hand_Category::Four_of_a_Kind => 7,
            Hand_Category::Straight_Flush => 8,
        }
    }
}

/// The best five-card hand drawn from a pool: exactly five cards, pattern
/// cards first (strongest pattern first) and then kickers in descending
/// rank order, together with the category they form.
#[derive(Debug)]
pub struct Hand {
    pub cards: Vec<Card>,
    pub category: Hand_Category,
}

impl Hand {
    /// A hand is well formed when it holds exactly five well-formed cards.
    pub open spec fn wf(self) -> bool {
        &&& self.cards@.len() == 5
        &&& forall|i: int| 0 <= i < self.cards@.len() ==> (#[trigger] self.cards@[i]).wf()
    }
}

/// The rank names used when rendering a card.
pub open spec fn spec_display_val(val: int) -> Seq<char> {
    if val == 11 {
        "Jack"@
    } else if val == 12 {
        "Queen"@
    } else if val == 13 {
        "King"@
    } else if val == 14 {
        "Ace"@
    } else if val == 2 {
        "2"@
    } else if val == 3 {
        "3"@
    } else if val == 4 {
        "4"@
    } else if val == 5 {
        "5"@
    } else if val == 6 {
        "6"@
    } else if val == 7 {
        "7"@
    } else if val == 8 {
        "8"@
    } else if val == 9 {
        "9"@
    } else {
        "10"@
    }
}

/// Renders a rank: "Jack", "Queen", "King", "Ace" for 11..14, else the decimal rank.
pub fn display_val(val: i32) -> (r: String)
    requires
        2 <= val <= 14,
    ensures
        r@ == spec_display_val(val as int),
{
    match val {
        11 => "Jack".to_owned(),
        12 => "Queen".to_owned(),
        13 => "King".to_owned(),
        14 => "Ace".to_owned(),
        2 => "2".to_owned(),
        3 => "3".to_owned(),
        4 => "4".to_owned(),
        5 => "5".to_owned(),
        6 => "6".to_owned(),
        7 => "7".to_owned(),
        8 => "8".to_owned(),
        9 => "9".to_owned(),
        _ => "10".to_owned(),
    }
}

/// The name of each suit as rendered.
pub open spec fn spec_suit_name(s: Suit) -> Seq<char> {
    match s {
        Suit::Spades => "Spades"@,
        Suit::Hearts => "Hearts"@,
        Suit::Clubs => "Clubs"@,
        Suit::Diamonds => "Diamonds"@,
    }
}

impl Suit {
    /// The suit's name: "Spades", "Hearts", "Clubs" or "Diamonds".
    pub fn name(&self) -> (r: String)
        ensures
            r@ == spec_suit_name(*self),
    {
        match self {
            Suit::Spades => "Spades".to_owned(),
            Suit::Hearts => "Hearts".to_owned(),
            Suit::Clubs => "Clubs".to_owned(),
            Suit::Diamonds => "Diamonds".to_owned(),
        }
    }
}

/// A card as rendered: the rank name, " of ", the suit name.
pub open spec fn spec_card_display(c: Card) -> Seq<char> {
    spec_display_val(c.val as int) + " of "@ + spec_suit_name(c.suit)
}

impl Card {
    /// Renders the card as "Jack of Hearts".
    pub fn display(&self) -> (r: String)
        requires
            self.wf(),
        ensures
            r@ == spec_card_display(*self),
    {
        let mut s = display_val(self.val);
        s.append(" of ");
        let n = self.suit.name();
        s.append(n.as_str());
        s
    }
}

/// A category's name as rendered, with spaces between the words.
pub open spec fn spec_category_name(c: Hand_Category) -> Seq<char> {
    match c {
        Hand_Category::High_Card => "High Card"@,
        Hand_Category::Pair => "Pair"@,
        Hand_Category::Two_Pair => "Two Pair"@,
        Hand_Category::Three_of_a_Kind => "Three of a Kind"@,
        Hand_Category::Straight => "Straight"@,
        Hand_Category::Flush => "Flush"@,
        Hand_Category::Full_House => "Full House"@,
        Hand_Category::Four_of_a_Kind => "Four of a Kind"@,
        Hand_Category::Straight_Flush => "Straight Flush"@,
    }
}

impl Hand_Category {
    /// Renders the category's name, words separated by spaces.
    pub fn display(&self) -> (r: String)
        ensures
            r@ == spec_category_name(*self),
    {
        match self {
            Hand_Category::High_Card => "High Card".to_owned(),
            Hand_Category::Pair => "Pair".to_owned(),
            Hand_Category::Two_Pair => "Two Pair".to_owned(),
            Hand_Category::Three_of_a_Kind => "Three of a Kind".to_owned(),
            Hand_Category::Straight => "Straight".to_owned(),
            Hand_Category::Flush => "Flush".to_owned(),
            Hand_Category::Full_House => "Full House".to_owned(),
            Hand_Category::Four_of_a_Kind => "Four of a Kind".to_owned(),
            Hand_Category::Straight_Flush => "Straight Flush".to_owned(),
        }
    }
}

/// A hand as rendered: the category, then the five cards in order.
pub open spec fn spec_hand_display(h: Hand) -> Seq<char> {
    spec_category_name(h.category) + " - ["@ + spec_card_display(h.cards@[0]) + ", "@
        + spec_card_display(h.cards@[1]) + ", "@ + spec_card_display(h.cards@[2]) + ", "@
        + spec_card_display(h.cards@[3]) + ", "@ + spec_card_display(h.cards@[4]) + "]\n"@
}

impl Hand {
    /// Renders the hand as one line: the category name, then the five
    /// cards in their significant order.
    pub fn display(&self) -> (r: String)
        requires
            self.wf(),
        ensures
            r@ == spec_hand_display(*self),
    {
        let mut s = self.category.display();
        s.append(" - [");
        let c0 = self.cards[0].display();
        s.append(c0.as_str());
        s.append(", ");
        let c1 = self.cards[1].display();
        s.append(c1.as_str());
        s.append(", ");
        let c2 = self.cards[2].display();
        s.append(c2.as_str());
        s.append(", ");
        let c3 = self.cards[3].display();
        s.append(c3.as_str());
        s.append(", ");
        let c4 = self.cards[4].display();
        s.append(c4.as_str());
        s.append("]\n");
        s
    }
}

} // verus!
