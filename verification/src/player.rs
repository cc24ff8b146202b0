//! Players and the commands they can issue during a betting round.

use vstd::prelude::*;
use crate::card::Card;
use crate::table::{Table, spec_betting_round};

verus! {

/// Chips each player holds when joining the table.
pub const CHIPS_AT_START: i32 = 100;

/// A player at the table: a name, whether a person plays the seat, the
/// chip counts, and the two hole cards once dealt.
pub struct Player {
    pub name: String,
    pub is_human: bool,
    pub chips: i32,
    pub chips_in_play: i32,
    pub cards: Option<(Card, Card)>,
}

impl Player {
    /// A fresh player: the starting chips, no cards, nothing in play.
    pub fn new(name: String, is_human: bool) -> (p: Player)
        ensures
            p.name == name,
            p.is_human == is_human,
            p.chips == CHIPS_AT_START,
            p.chips_in_play == 0,
            p.cards is None,
    {
        Player { name, is_human, chips: CHIPS_AT_START, chips_in_play: 0, cards: None }
    }

    /// The player's two hole cards; only meaningful once dealt.
    pub fn get_cards(&self) -> (r: (Card, Card))
        requires
            self.cards is Some,
        ensures
            r == self.cards->0,
    {
        self.cards.unwrap()
    }

    /// The commands open to this player: post the blind in the first
    /// betting round, else check; folding and leaving are always open.
    pub fn get_options(&self, table: &Table) -> (r: Vec<Command>)
        requires
            self.chips > table.largest_bet,
        ensures
            r@ == if spec_betting_round(*table) == 1 {
                seq![Command::PostBlind, Command::Fold, Command::Leave]
            } else {
                seq![Command::Check, Command::Fold, Command::Leave]
            },
    {
        let mut options = if table.get_betting_round() == 1 {
            vec![Command::PostBlind]
        } else {
            vec![Command::Check]
        };
        options.push(Command::Fold);
        options.push(Command::Leave);
        proof {
            assert(options@ =~= if spec_betting_round(*table) == 1 {
                seq![Command::PostBlind, Command::Fold, Command::Leave]
            } else {
                seq![Command::Check, Command::Fold, Command::Leave]
            });
        }
        options
    }
}

/// A seat played by the machine.
pub trait ComputerPlayer {
    /// Decides the machine's command for the current table state.
    fn act(&self, table: &Table) -> (c: Command)
        ensures
            c == Command::Check,
    ;
}

/// A seat played by a person. The decision comes from outside the library
/// (a prompt, typically), so nothing is promised of it.
pub trait HumanPlayer {
    /// Decides the person's command for the current table state.
    fn act(&self, table: &Table) -> Command;
}

impl ComputerPlayer for Player {
    /// The machine's strategy: it always checks.
    fn act(&self, table: &Table) -> (c: Command) {
        Command::Check
    }
}

/// A betting command.
#[derive(Debug, Clone, Copy, PartialEq, Eq, Structural)]
pub enum Command {
    PostBlind,
    Fold,
    Check,
    Call,
    Raise(i32),
    Leave,
}

} // verus!
