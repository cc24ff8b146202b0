use poker::card::{Card, Suit};
use poker::player::{Command, Player};
use poker::table::{display_cards, Table};

fn c(suit: Suit, val: i32) -> Card {
    Card { suit, val }
}

#[test]
fn a_fresh_table_holds_the_whole_deck() {
    let t = Table::build_table();
    assert_eq!(t.deck.len(), 52);
    for suit in [Suit::Spades, Suit::Hearts, Suit::Clubs, Suit::Diamonds] {
        for val in 2..15 {
            assert_eq!(t.deck.iter().filter(|x| x.suit == suit && x.val == val).count(), 1);
        }
    }
}

#[test]
fn dealing_gives_each_player_two_cards_from_the_deck() {
    let mut t = Table::build_table();
    t.add_player(Player::new("East".to_string(), false));
    t.add_player(Player::new("West".to_string(), false));
    t.deal_cards();
    assert_eq!(t.players.len(), 0);
    assert_eq!(t.active_players.len(), 2);
    assert_eq!(t.deck.len(), 48);
    for p in &t.active_players {
        assert!(p.cards.is_some());
    }
}

#[test]
fn revealing_follows_flop_turn_river() {
    let mut t = Table::build_table();
    t.reveal_cards();
    assert_eq!(t.community_cards.len(), 3);
    assert_eq!(t.get_betting_round(), 2);
    t.reveal_cards();
    assert_eq!(t.community_cards.len(), 4);
    assert_eq!(t.get_betting_round(), 3);
    t.reveal_cards();
    assert_eq!(t.community_cards.len(), 5);
    assert_eq!(t.get_betting_round(), 4);
    t.reveal_cards();
    assert_eq!(t.community_cards.len(), 5);
}

#[test]
fn betting_moves_chips_into_the_pot() {
    let mut t = Table::build_table();
    t.add_player(Player::new("East".to_string(), false));
    t.add_player(Player::new("South".to_string(), true));
    t.deal_cards();
    let before: i32 = t.active_players.iter().map(|p| p.chips).sum::<i32>() + t.pot;
    let choices = vec![Command::Raise(25), Command::Raise(25)];
    let left = t.allow_betting(&choices);
    assert!(!left);
    // the human (dealt players join in reverse order: South sits first) raises
    // by 25; the computer checks regardless of its entry
    assert_eq!(t.largest_bet, 25);
    assert_eq!(t.pot, 25);
    let after: i32 = t.active_players.iter().map(|p| p.chips).sum::<i32>() + t.pot;
    assert_eq!(before, after);
}

#[test]
fn folding_returns_the_player_to_the_waiting_line() {
    let mut t = Table::build_table();
    t.add_player(Player::new("East".to_string(), true));
    t.add_player(Player::new("South".to_string(), true));
    t.deal_cards();
    let choices = vec![Command::Fold, Command::Check];
    let left = t.allow_betting(&choices);
    assert!(!left);
    assert_eq!(t.active_players.len(), 1);
    assert_eq!(t.players.len(), 1);
    assert_eq!(t.pot, 0);
}

#[test]
fn leaving_ends_the_betting_turn() {
    let mut t = Table::build_table();
    t.add_player(Player::new("East".to_string(), true));
    t.add_player(Player::new("South".to_string(), true));
    t.deal_cards();
    let choices = vec![Command::Leave, Command::Check];
    let left = t.allow_betting(&choices);
    assert!(left);
}

#[test]
fn the_round_winner_holds_the_strongest_hand() {
    let mut t = Table::build_table();
    // a rigged deal: one player holds a pair of aces, the other nothing
    t.community_cards = vec![
        c(Suit::Spades, 2),
        c(Suit::Hearts, 6),
        c(Suit::Clubs, 9),
        c(Suit::Diamonds, 11),
        c(Suit::Spades, 13),
    ];
    let mut strong = Player::new("North".to_string(), false);
    strong.cards = Some((c(Suit::Hearts, 14), c(Suit::Clubs, 14)));
    let mut weak = Player::new("South".to_string(), false);
    weak.cards = Some((c(Suit::Hearts, 3), c(Suit::Clubs, 4)));
    t.active_players = vec![strong, weak];
    let winners = t.evaluate_round();
    assert_eq!(winners.len(), 1);
    assert_eq!(winners[0].1, "North");
    assert_eq!(winners[0].0.cards.iter().map(|x| x.val).collect::<Vec<i32>>(), vec![
        14, 14, 13, 11, 9
    ]);
    // the table is reset: the hole cards are back in the deck
    assert_eq!(t.active_players.len(), 0);
    assert_eq!(t.players.len(), 2);
    assert_eq!(t.deck.len(), 56);
}

#[test]
fn split_pots_name_every_tying_player() {
    let mut t = Table::build_table();
    // the board plays: both hole pairs are below every community card
    t.community_cards = vec![
        c(Suit::Spades, 10),
        c(Suit::Hearts, 11),
        c(Suit::Clubs, 12),
        c(Suit::Diamonds, 13),
        c(Suit::Spades, 14),
    ];
    let mut a = Player::new("North".to_string(), false);
    a.cards = Some((c(Suit::Hearts, 2), c(Suit::Clubs, 3)));
    let mut b = Player::new("South".to_string(), false);
    b.cards = Some((c(Suit::Hearts, 4), c(Suit::Clubs, 5)));
    t.active_players = vec![a, b];
    let winners = t.evaluate_round();
    let names: Vec<String> = winners.iter().map(|w| w.1.clone()).collect();
    assert_eq!(names, vec!["North".to_string(), "South".to_string()]);
}

#[test]
fn player_options_follow_the_betting_round() {
    let t = Table::build_table();
    let p = Player::new("East".to_string(), true);
    let options = p.get_options(&t);
    assert_eq!(options, vec![Command::PostBlind, Command::Fold, Command::Leave]);
}

#[test]
fn card_lists_render_bracketed() {
    let cards = vec![c(Suit::Hearts, 11), c(Suit::Spades, 2)];
    assert_eq!(display_cards(&cards), "[Jack of Hearts, 2 of Spades]\n");
}

#[test]
fn game_state_queries() {
    let mut t = Table::build_table();
    assert!(!t.is_playing());
    t.add_player(Player::new("East".to_string(), false));
    assert!(t.is_game_over());
    t.add_player(Player::new("West".to_string(), false));
    assert!(!t.is_game_over());
    t.deal_cards();
    assert!(t.is_playing());
    assert_eq!(t.get_betting_round(), 1);
}
