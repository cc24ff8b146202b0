//! The table: the deck, the community cards, the players and the pot.
//!
//! The evaluator is the heart of the library; the table is the bookkeeping
//! around it. Dealing draws at random through a small trusted wrapper over
//! the `rand` crate, so contracts state what holds of every draw: dealt
//! cards leave the deck, counts balance, and chips are conserved.

use vstd::prelude::*;
use crate::card::{Card, Suit, Hand, spec_card_display};
use crate::model::{valid_cards, suit_of, spec_category, spec_hand_cards};
use crate::card::Hand_Category;
use crate::order::{spec_compare_parts, lemma_parts_reflexive, lemma_parts_antisymmetric, lemma_parts_transitive};
use core::cmp::Ordering;
use crate::player::{Player, Command, ComputerPlayer};
use rand::Rng;

verus! {

/// A bound on bets and pots that keeps every chip computation far from
/// `i32` overflow.
pub const BET_LIMIT: i32 = 10000;

/// The table state.
pub struct Table {
    pub players: Vec<Player>,
    pub active_players: Vec<Player>,
    pub deck: Vec<Card>,
    pub community_cards: Vec<Card>,
    pub pot: i32,
    pub largest_bet: i32,
}

/// The full 52-card deck: the thirteen ranks of each suit in the fixed
/// suit order, from the suit index `si` and rank `v` on.
pub open spec fn full_deck_from(si: int, v: int) -> Seq<Card>
    decreases 4 - si, 15 - v,
{
    if si >= 4 {
        Seq::empty()
    } else if v > 14 {
        full_deck_from(si + 1, 2)
    } else {
        seq![Card { suit: suit_of(si), val: v as i32 }] + full_deck_from(si, v + 1)
    }
}

/// The full 52-card deck.
pub open spec fn full_deck() -> Seq<Card> {
    full_deck_from(0, 2)
}

/// The betting round as counted from the community cards: 1 before the
/// flop, 2 before the turn, 3 before the river, 4 after it.
pub open spec fn spec_betting_round(t: Table) -> int {
    if t.community_cards@.len() == 0 {
        1
    } else if t.community_cards@.len() == 3 {
        2
    } else if t.community_cards@.len() == 4 {
        3
    } else if t.community_cards@.len() == 5 {
        4
    } else {
        -1
    }
}

/// The relation between a seated player and the waiting player it came
/// from: every field kept, two well-formed hole cards dealt.
pub open spec fn dealt_from(p: Player, q: Player) -> bool {
    &&& p.name == q.name
    &&& p.is_human == q.is_human
    &&& p.chips == q.chips
    &&& p.chips_in_play == q.chips_in_play
    &&& p.cards is Some
    &&& (p.cards->0).0.wf()
    &&& (p.cards->0).1.wf()
}

/// The chips held by a line of players.
pub open spec fn total_chips(s: Seq<Player>) -> int
    decreases s.len(),
{
    if s.len() == 0 {
        0
    } else {
        s[0].chips + total_chips(s.drop_first())
    }
}

/// Appending a player adds that player's chips to the line's total.
pub proof fn lemma_total_chips_push(s: Seq<Player>, p: Player)
    ensures
        total_chips(s.push(p)) == total_chips(s) + p.chips,
    decreases s.len(),
{
    if s.len() == 0 {
        assert(s.push(p)[0] == p);
        assert(s.push(p).drop_first() =~= Seq::empty());
        assert(total_chips(s.push(p)) == p.chips + total_chips(Seq::empty()));
        assert(total_chips(s) == 0);
    } else {
        assert(s.push(p)[0] == s[0]);
        assert(s.push(p).drop_first() =~= s.drop_first().push(p));
        lemma_total_chips_push(s.drop_first(), p);
        assert(total_chips(s.push(p)) == s[0].chips + total_chips(s.drop_first().push(p)));
    }
}

/// Removing a player subtracts that player's chips from the line's total.
pub proof fn lemma_total_chips_remove(s: Seq<Player>, i: int)
    requires
        0 <= i < s.len(),
    ensures
        total_chips(s.remove(i)) == total_chips(s) - s[i].chips,
    decreases s.len(),
{
    if i == 0 {
        assert(s.remove(0) =~= s.drop_first());
    } else {
        assert(s.remove(i).drop_first() =~= s.drop_first().remove(i - 1));
        assert(s.remove(i)[0] == s[0]);
        lemma_total_chips_remove(s.drop_first(), i - 1);
    }
}

/// Inserting a player adds that player's chips to the line's total.
pub proof fn lemma_total_chips_insert(s: Seq<Player>, i: int, p: Player)
    requires
        0 <= i <= s.len(),
    ensures
        total_chips(s.insert(i, p)) == total_chips(s) + p.chips,
    decreases s.len(),
{
    if i == 0 {
        assert(s.insert(0, p).drop_first() =~= s);
        assert(s.insert(0, p)[0] == p);
    } else {
        assert(s.insert(i, p).drop_first() =~= s.drop_first().insert(i - 1, p));
        assert(s.insert(i, p)[0] == s[0]);
        lemma_total_chips_insert(s.drop_first(), i - 1, p);
    }
}


/// The command a seat actually issues: the chosen command for a person,
/// a check for the machine.
pub open spec fn effective_command(p: Player, c: Command) -> Command {
    if p.is_human {
        c
    } else {
        Command::Check
    }
}

/// What a command moves into the pot, given the largest bet so far.
pub open spec fn bet_amount(c: Command, lb: int) -> int {
    match c {
        Command::PostBlind => 10,
        Command::Call => lb,
        Command::Raise(x) => lb + x,
        _ => 0,
    }
}

/// The largest bet after a command.
pub open spec fn next_largest_bet(c: Command, lb: int) -> int {
    match c {
        Command::Raise(x) => lb + x,
        _ => lb,
    }
}

/// The pot and the largest bet after the players from position `j` on
/// have acted, stopping at the first player who leaves the game.
pub open spec fn bets_after(
    active: Seq<Player>,
    choices: Seq<Command>,
    j: int,
    pot: int,
    lb: int,
) -> (int, int)
    decreases choices.len() - j,
{
    if j < 0 || j >= choices.len() || j >= active.len() {
        (pot, lb)
    } else {
        let c = effective_command(active[j], choices[j]);
        if c is Leave {
            (pot, lb)
        } else {
            bets_after(active, choices, j + 1, pot + bet_amount(c, lb), next_largest_bet(c, lb))
        }
    }
}


/// The two hole cards of each player in a line, in order.
pub open spec fn hole_cards(s: Seq<Player>) -> Seq<Card>
    decreases s.len(),
{
    if s.len() == 0 {
        Seq::empty()
    } else {
        seq![(s[0].cards->0).0, (s[0].cards->0).1] + hole_cards(s.drop_first())
    }
}

/// Appending a player appends that player's two hole cards.
pub proof fn lemma_hole_cards_push(s: Seq<Player>, p: Player)
    ensures
        hole_cards(s.push(p)) == hole_cards(s) + seq![(p.cards->0).0, (p.cards->0).1],
    decreases s.len(),
{
    if s.len() == 0 {
        assert(s.push(p)[0] == p);
        assert(s.push(p).drop_first() =~= Seq::empty());
        assert(hole_cards(s.push(p).drop_first()) =~= Seq::empty());
        assert(hole_cards(s.push(p)) =~= hole_cards(s) + seq![(p.cards->0).0, (p.cards->0).1]);
    } else {
        assert(s.push(p)[0] == s[0]);
        assert(s.push(p).drop_first() =~= s.drop_first().push(p));
        lemma_hole_cards_push(s.drop_first(), p);
        assert(hole_cards(s.push(p)) == seq![(s[0].cards->0).0, (s[0].cards->0).1] + hole_cards(
            s.drop_first().push(p),
        ));
        assert(hole_cards(s.push(p)) =~= hole_cards(s) + seq![(p.cards->0).0, (p.cards->0).1]);
    }
}

/// A player's seven-card pool at showdown: the community cards and the
/// player's two hole cards.
pub open spec fn pool_of(community: Seq<Card>, p: Player) -> Seq<Card> {
    community + seq![(p.cards->0).0, (p.cards->0).1]
}

/// The category of the best hand a player can draw from the pool.
#[verifier::opaque]
pub open spec fn player_category(community: Seq<Card>, p: Player) -> Hand_Category {
    spec_category(pool_of(community, p).to_multiset())
}

/// The five cards of the best hand a player can draw from the pool.
#[verifier::opaque]
pub open spec fn player_hand_cards(community: Seq<Card>, p: Player) -> Seq<Card> {
    spec_hand_cards(pool_of(community, p).to_multiset())
}

/// A player at showdown holds two well-formed hole cards.
pub open spec fn showdown_ready(p: Player) -> bool {
    &&& p.cards is Some
    &&& (p.cards->0).0.wf()
    &&& (p.cards->0).1.wf()
}

/// Draws a uniformly random index below `n`.
///
/// Relies on `rand::Rng::gen_range` on the thread-local generator: the
/// result lies in `[0, n)`, and the call panics only on an empty range,
/// which the precondition rules out.
#[verifier::external_body]
fn random_below(n: usize) -> (r: usize)
    requires
        n > 0,
    ensures
        r < n,
{
    rand::thread_rng().gen_range(0..n)
}


impl Table {
    /// A fresh table: the full 52-card deck, no players, an empty pot.
    #[verifier::loop_isolation(false)]
    pub fn build_table() -> (t: Table)
        ensures
            t.deck@ == full_deck(),
            t.deck@.len() == 52,
            valid_cards(t.deck@),
            t.players@.len() == 0,
            t.active_players@.len() == 0,
            t.community_cards@.len() == 0,
            t.pot == 0,
            t.largest_bet == 0,
    {
        let mut deck: Vec<Card> = Vec::new();
        let mut si: usize = 0;
        while si < 4
            invariant
                si <= 4,
                deck@.len() == si * 13,
                valid_cards(deck@),
                full_deck() =~= deck@ + full_deck_from(si as int, 2),
            decreases 4 - si,
        {
            let s = suit_at_index(si);
            let mut v: i32 = 2;
            while v <= 14
                invariant
                    2 <= v <= 15,
                    s == suit_of(si as int),
                    si < 4,
                    deck@.len() == si * 13 + (v - 2),
                    valid_cards(deck@),
                    full_deck() =~= deck@ + full_deck_from(si as int, v as int),
                decreases 15 - v,
            {
                deck.push(Card { suit: s, val: v });
                proof {
                    assert(full_deck_from(si as int, v as int) == seq![
                        Card { suit: suit_of(si as int), val: v },
                    ] + full_deck_from(si as int, v as int + 1));
                    assert(full_deck() =~= deck@ + full_deck_from(si as int, v as int + 1));
                }
                v = v + 1;
            }
            proof {
                assert(full_deck_from(si as int, 15) == full_deck_from(si as int + 1, 2));
            }
            si = si + 1;
        }
        proof {
            assert(full_deck_from(4, 2) =~= Seq::empty());
            assert(deck@ =~= full_deck());
        }
        Table {
            players: Vec::new(),
            active_players: Vec::new(),
            deck,
            community_cards: Vec::new(),
            pot: 0,
            largest_bet: 0,
        }
    }

    /// Seats a player at the table.
    pub fn add_player(&mut self, player: Player)
        ensures
            final(self).players@ == old(self).players@.push(player),
            final(self).active_players == old(self).active_players,
            final(self).deck == old(self).deck,
            final(self).community_cards == old(self).community_cards,
            final(self).pot == old(self).pot,
            final(self).largest_bet == old(self).largest_bet,
    {
        self.players.push(player);
    }

    /// Draws one random card out of the deck.
    fn deal_card(&mut self) -> (c: Card)
        requires
            old(self).deck@.len() > 0,
            valid_cards(old(self).deck@),
        ensures
            exists|i: int|
                0 <= i < old(self).deck@.len() && c == old(self).deck@[i] && final(self).deck@
                    == old(self).deck@.remove(i),
            final(self).deck@.len() == old(self).deck@.len() - 1,
            valid_cards(final(self).deck@),
            c.wf(),
            final(self).players == old(self).players,
            final(self).active_players == old(self).active_players,
            final(self).community_cards == old(self).community_cards,
            final(self).pot == old(self).pot,
            final(self).largest_bet == old(self).largest_bet,
    {
        let idx = random_below(self.deck.len());
        let c = self.deck.remove(idx);
        proof {
            assert(valid_cards(self.deck@)) by {
                assert(forall|t: int|
                    0 <= t < self.deck@.len() ==> #[trigger] self.deck@[t] == (if t < idx as int {
                        old(self).deck@[t]
                    } else {
                        old(self).deck@[t + 1]
                    }));
            }
        }
        c
    }

    /// Deals two hole cards to every waiting player and seats them all as
    /// active, last waiting player first. Which cards arrive is chance;
    /// the counts balance and every dealt card is well formed.
    #[verifier::loop_isolation(false)]
    pub fn deal_cards(&mut self)
        requires
            valid_cards(old(self).deck@),
            old(self).deck@.len() >= 2 * old(self).players@.len(),
        ensures
            final(self).players@.len() == 0,
            final(self).active_players@.len() == old(self).active_players@.len() + old(self).players@.len(),
            final(self).active_players@.subrange(0, old(self).active_players@.len() as int) == old(self).active_players@,
            forall|k: int|
                old(self).active_players@.len() <= k < final(self).active_players@.len()
                    ==> dealt_from(
                    #[trigger] final(self).active_players@[k],
                    old(self).players@[old(self).players@.len() - 1 - (k - old(self).active_players@.len())],
                ),
            final(self).deck@.len() == old(self).deck@.len() - 2 * old(self).players@.len(),
            valid_cards(final(self).deck@),
            final(self).community_cards == old(self).community_cards,
            final(self).pot == old(self).pot,
            final(self).largest_bet == old(self).largest_bet,
    {
        let ghost n0 = old(self).players@.len();
        let ghost a0 = old(self).active_players@.len();
        while self.players.len() > 0
            invariant
                self.players@.len() <= n0,
                self.players@ == old(self).players@.take(self.players@.len() as int),
                self.active_players@.len() == a0 + (n0 - self.players@.len()),
                self.active_players@.subrange(0, a0 as int) == old(self).active_players@,
                forall|k: int|
                    a0 <= k < self.active_players@.len() ==> dealt_from(
                        #[trigger] self.active_players@[k],
                        old(self).players@[n0 - 1 - (k - a0)],
                    ),
                self.deck@.len() == old(self).deck@.len() - 2 * (n0 - self.players@.len()),
                valid_cards(self.deck@),
                self.community_cards == old(self).community_cards,
                self.pot == old(self).pot,
                self.largest_bet == old(self).largest_bet,
            decreases self.players@.len(),
        {
            let ghost players_before = self.players@;
            let ghost active_before = self.active_players@;
            let mut player = match self.players.pop() {
                Some(p) => p,
                None => {
                    proof {
                        assert(false);
                    }
                    unreached()
                },
            };
            proof {
                assert(self.players@ =~= old(self).players@.take(self.players@.len() as int));
            }
            let c1 = self.deal_card();
            let c2 = self.deal_card();
            player.cards = Some((c1, c2));
            self.active_players.push(player);
            proof {
                assert(self.active_players@.subrange(0, a0 as int) =~= active_before.subrange(
                    0,
                    a0 as int,
                ));
            }
        }
        proof {
            assert(self.players@.len() == 0);
        }
    }

    /// Reveals community cards: three for the flop, one for the turn, one
    /// for the river, none once all five are out.
    pub fn reveal_cards(&mut self)
        requires
            valid_cards(old(self).deck@),
            old(self).community_cards@.len() == 0 ==> old(self).deck@.len() >= 3,
            old(self).community_cards@.len() == 3 || old(self).community_cards@.len() == 4 ==> old(self).deck@.len() >= 1,
            valid_cards(old(self).community_cards@),
        ensures
            final(self).community_cards@.subrange(0, old(self).community_cards@.len() as int)
                == old(self).community_cards@,
            final(self).community_cards@.len() == old(self).community_cards@.len() + (if old(self).community_cards@.len() == 0 {
                3int
            } else if old(self).community_cards@.len() == 3 || old(self).community_cards@.len()
                == 4 {
                1int
            } else {
                0int
            }),
            valid_cards(final(self).community_cards@),
            final(self).deck@.len() == old(self).deck@.len() - (final(self).community_cards@.len() - old(self).community_cards@.len()),
            valid_cards(final(self).deck@),
            final(self).players == old(self).players,
            final(self).active_players == old(self).active_players,
            final(self).pot == old(self).pot,
            final(self).largest_bet == old(self).largest_bet,
    {
        let ghost comm0 = self.community_cards@;
        if self.community_cards.len() == 0 {
            let c1 = self.deal_card();
            let c2 = self.deal_card();
            let c3 = self.deal_card();
            self.community_cards.push(c1);
            self.community_cards.push(c2);
            self.community_cards.push(c3);
            proof {
                assert(self.community_cards@.subrange(0, comm0.len() as int) =~= comm0);
            }
        } else if self.community_cards.len() == 3 || self.community_cards.len() == 4 {
            let c = self.deal_card();
            self.community_cards.push(c);
            proof {
                assert(self.community_cards@.subrange(0, comm0.len() as int) =~= comm0);
            }
        } else {
            proof {
                assert(self.community_cards@.subrange(0, comm0.len() as int) =~= comm0);
            }
        }
    }

    /// The betting round: 1 pre-flop, 2 pre-turn, 3 pre-river, 4 after.
    pub fn get_betting_round(&self) -> (r: i32)
        ensures
            r as int == spec_betting_round(*self),
    {
        if self.community_cards.len() == 0 {
            1
        } else if self.community_cards.len() == 3 {
            2
        } else if self.community_cards.len() == 4 {
            3
        } else if self.community_cards.len() == 5 {
            4
        } else {
            -1
        }
    }

    /// A round goes on while at least two players are in and the river is
    /// not yet out.
    pub fn is_playing(&self) -> (r: bool)
        ensures
            r == (self.active_players@.len() >= 2 && self.community_cards@.len() != 5),
    {
        self.active_players.len() >= 2 && self.community_cards.len() != 5
    }

    /// The game ends when a single player is left waiting.
    pub fn is_game_over(&self) -> (r: bool)
        ensures
            r == (self.players@.len() == 1),
    {
        self.players.len() == 1
    }

    /// The number of players active in the current round.
    pub fn active_count(&self) -> (n: usize)
        ensures
            n == self.active_players@.len(),
    {
        self.active_players.len()
    }

    /// The active player at position `i`.
    pub fn active_player(&self, i: usize) -> (p: &Player)
        requires
            i < self.active_players@.len(),
        ensures
            *p == self.active_players@[i as int],
    {
        &self.active_players[i]
    }

    /// The community cards revealed so far.
    pub fn get_community_cards(&self) -> (c: &Vec<Card>)
        ensures
            c == &self.community_cards,
    {
        &self.community_cards
    }


    /// Applies one command: the blind, a call or a raise move chips from
    /// the player into the pot; folding and checking move nothing. The
    /// result reports whether the player asked to leave the game.
    pub fn process_command(&mut self, cmd: Command, player: &mut Player) -> (leave: bool)
        requires
            cmd matches Command::Raise(x) ==> 0 <= x,
            old(self).largest_bet >= 0,
            next_largest_bet(cmd, old(self).largest_bet as int) <= i32::MAX,
            old(self).pot + bet_amount(cmd, old(self).largest_bet as int) <= i32::MAX,
            i32::MIN <= old(player).chips - bet_amount(cmd, old(self).largest_bet as int),
        ensures
            final(self).pot == old(self).pot + bet_amount(cmd, old(self).largest_bet as int),
            final(self).largest_bet == next_largest_bet(cmd, old(self).largest_bet as int),
            final(player).chips == old(player).chips - bet_amount(
                cmd,
                old(self).largest_bet as int,
            ),
            final(player).name == old(player).name,
            final(player).is_human == old(player).is_human,
            final(player).chips_in_play == old(player).chips_in_play,
            final(player).cards == old(player).cards,
            final(self).players == old(self).players,
            final(self).active_players == old(self).active_players,
            final(self).deck == old(self).deck,
            final(self).community_cards == old(self).community_cards,
            leave <==> cmd == Command::Leave,
    {
        let largest_bet = self.largest_bet;
        match cmd {
            Command::PostBlind => {
                self.place_bet(player, 10);
                false
            },
            Command::Fold => false,
            Command::Check => false,
            Command::Call => {
                self.place_bet(player, largest_bet);
                false
            },
            Command::Raise(x) => {
                self.largest_bet = self.largest_bet + x;
                self.place_bet(player, largest_bet + x);
                false
            },
            Command::Leave => true,
        }
    }

    /// Runs one betting turn over the active players in order. A person's
    /// command is taken from `choices` at the player's position; the
    /// machine checks regardless of its entry. Folding players move back
    /// to the waiting line, and a player who leaves the game ends the
    /// turn, which the result reports. The pot and the largest bet evolve
    /// exactly as `bets_after` folds the commands, and chips are
    /// conserved: what the players lose, the pot gains.
    #[verifier::loop_isolation(false)]
    pub fn allow_betting(&mut self, choices: &Vec<Command>) -> (left: bool)
        requires
            choices@.len() == old(self).active_players@.len(),
            old(self).active_players@.len() <= 100,
            0 <= old(self).largest_bet <= BET_LIMIT,
            0 <= old(self).pot <= BET_LIMIT,
            forall|k: int|
                0 <= k < choices@.len() ==> ((#[trigger] choices@[k]) matches Command::Raise(x)
                    ==> 0 <= x <= BET_LIMIT),
            forall|k: int|
                0 <= k < old(self).active_players@.len() ==> -BET_LIMIT <= (#[trigger] old(self).active_players@[k]).chips <= BET_LIMIT,
        ensures
            final(self).deck == old(self).deck,
            final(self).community_cards == old(self).community_cards,
            final(self).players@.len() + final(self).active_players@.len() == old(self).players@.len() + old(self).active_players@.len(),
            total_chips(final(self).players@) + total_chips(final(self).active_players@) + final(self).pot == total_chips(old(self).players@) + total_chips(old(self).active_players@)
                + old(self).pot,
            old(self).pot <= final(self).pot,
            final(self).pot as int == bets_after(
                old(self).active_players@,
                choices@,
                0,
                old(self).pot as int,
                old(self).largest_bet as int,
            ).0,
            final(self).largest_bet as int == bets_after(
                old(self).active_players@,
                choices@,
                0,
                old(self).pot as int,
                old(self).largest_bet as int,
            ).1,
            left <==> (exists|k: int|
                0 <= k < choices@.len() && effective_command(
                    old(self).active_players@[k],
                    #[trigger] choices@[k],
                ) is Leave),
    {
        let ghost active0 = old(self).active_players@;
        let ghost n0 = active0.len();
        let mut i: usize = 0;
        let mut j: usize = 0;
        while i < self.active_players.len()
            invariant
                i <= j <= n0,
                self.active_players@.len() == n0 - j + i,
                self.players@.len() == old(self).players@.len() + (j - i),
                self.active_players@.skip(i as int) =~= active0.skip(j as int),
                self.deck == old(self).deck,
                self.community_cards == old(self).community_cards,
                total_chips(self.players@) + total_chips(self.active_players@) + self.pot
                    == total_chips(old(self).players@) + total_chips(active0) + old(self).pot,
                0 <= self.largest_bet,
                self.largest_bet <= 10000 + j * 10000,
                old(self).pot <= self.pot,
                self.pot <= old(self).pot + j * 1020000,
                bets_after(active0, choices@, 0, old(self).pot as int, old(self).largest_bet as int)
                    == bets_after(
                    active0,
                    choices@,
                    j as int,
                    self.pot as int,
                    self.largest_bet as int,
                ),
                forall|k: int|
                    0 <= k < j ==> !(effective_command(active0[k], #[trigger] choices@[k])
                        is Leave),
            decreases self.active_players@.len() - i,
        {
            let ghost active_pre = self.active_players@;
            let mut player = self.active_players.remove(i);
            proof {
                assert(active_pre.skip(i as int)[0] == active_pre[i as int]);
                assert(active0.skip(j as int)[0] == active0[j as int]);
                assert(player == active0[j as int]);
                lemma_total_chips_remove(active_pre, i as int);
            }
            let cmd = if player.is_human {
                choices[j]
            } else {
                ComputerPlayer::act(&player, self)
            };
            proof {
                assert(cmd == effective_command(active0[j as int], choices@[j as int]));
                assert forall|t: int|
                    0 <= t < self.active_players@.skip(i as int).len() implies #[trigger] self
                    .active_players@.skip(i as int)[t] == active0.skip(j as int + 1)[t] by {
                    assert(self.active_players@.skip(i as int)[t] == active_pre[i + 1 + t]);
                    assert(active0.skip(j as int + 1)[t] == active0[j + 1 + t]);
                    assert(active_pre.skip(i as int)[t + 1] == active0.skip(j as int)[t + 1]);
                }
                assert(self.active_players@.skip(i as int) =~= active0.skip(j as int + 1));
            }
            if cmd == Command::Fold {
                let ghost players_pre = self.players@;
                self.players.push(player);
                proof {
                    lemma_total_chips_push(players_pre, player);
                    assert(bets_after(
                        active0,
                        choices@,
                        j as int,
                        self.pot as int,
                        self.largest_bet as int,
                    ) == bets_after(
                        active0,
                        choices@,
                        j as int + 1,
                        self.pot as int,
                        self.largest_bet as int,
                    ));
                }
            } else {
                let ghost pot_pre = self.pot as int;
                let ghost lb_pre = self.largest_bet as int;
                proof {
                    assert(j < n0);
                    match cmd {
                        Command::Raise(x) => {
                            assert(choices@[j as int] matches Command::Raise(y) ==> 0 <= y
                                <= BET_LIMIT);
                            assert(0 <= x <= BET_LIMIT);
                        },
                        _ => {},
                    }
                    assert(bet_amount(cmd, lb_pre) <= 20000 + j * 10000);
                    assert(next_largest_bet(cmd, lb_pre) <= 20000 + j * 10000);
                    assert(20000 + j * 10000 <= 1020000);
                    assert(pot_pre <= old(self).pot + j * 1020000);
                }
                let leave = self.process_command(cmd, &mut player);
                let ghost active_mid = self.active_players@;
                self.active_players.insert(i, player);
                proof {
                    lemma_total_chips_insert(active_mid, i as int, player);
                    assert forall|t: int|
                        0 <= t < self.active_players@.skip(i as int + 1).len() implies #[trigger]
                        self.active_players@.skip(i as int + 1)[t] == active0.skip(
                        j as int + 1,
                    )[t] by {
                        assert(self.active_players@.skip(i as int + 1)[t] == active_mid[i + t]);
                        assert(active_mid.skip(i as int)[t] == active0.skip(j as int + 1)[t]);
                    }
                    assert(self.active_players@.skip(i as int + 1) =~= active0.skip(j as int + 1));
                    assert(bets_after(active0, choices@, j as int, pot_pre, lb_pre) == if cmd
                        is Leave {
                        (pot_pre, lb_pre)
                    } else {
                        bets_after(
                            active0,
                            choices@,
                            j as int + 1,
                            self.pot as int,
                            self.largest_bet as int,
                        )
                    });
                }
                if leave {
                    proof {
                        assert(effective_command(active0[j as int], choices@[j as int]) is Leave);
                    }
                    return true;
                }
                i = i + 1;
            }
            j = j + 1;
        }
        proof {
            assert(j == n0);
        }
        false
    }


    /// The best hand the active player at position `j` can draw from the
    /// community cards and that player's two hole cards.
    #[verifier::loop_isolation(false)]
    fn hand_for(&self, j: usize) -> (h: Hand)
        requires
            j < self.active_players@.len(),
            valid_cards(self.community_cards@),
            self.community_cards@.len() >= 3,
            showdown_ready(self.active_players@[j as int]),
        ensures
            h.cards@ == player_hand_cards(self.community_cards@, self.active_players@[j as int]),
            h.category == player_category(self.community_cards@, self.active_players@[j as int]),
            h.wf(),
    {
        let mut pool: Vec<Card> = Vec::new();
        let mut t: usize = 0;
        while t < self.community_cards.len()
            invariant
                t <= self.community_cards@.len(),
                pool@ == self.community_cards@.take(t as int),
            decreases self.community_cards@.len() - t,
        {
            pool.push(self.community_cards[t]);
            proof {
                assert(pool@ =~= self.community_cards@.take(t as int + 1));
            }
            t = t + 1;
        }
        let (c1, c2) = self.active_players[j].get_cards();
        pool.push(c1);
        pool.push(c2);
        proof {
            reveal(player_category);
            reveal(player_hand_cards);
            assert(self.community_cards@.take(self.community_cards@.len() as int)
                =~= self.community_cards@);
            assert(pool@ =~= pool_of(self.community_cards@, self.active_players@[j as int]));
            assert(valid_cards(pool@));
        }
        match Hand::make_hand(pool) {
            Ok(h) => h,
            Err(_) => {
                proof {
                    assert(false);
                }
                unreached()
            },
        }
    }

    /// The strongest hand any active player can draw from the pool.
    #[verifier::loop_isolation(false)]
    #[verifier::rlimit(60)]
    fn best_hand(&self) -> (best: Hand)
        requires
            self.active_players@.len() >= 1,
            valid_cards(self.community_cards@),
            self.community_cards@.len() >= 3,
            forall|k: int|
                0 <= k < self.active_players@.len() ==> showdown_ready(
                    #[trigger] self.active_players@[k],
                ),
        ensures
            best.wf(),
            exists|b: int|
                0 <= b < self.active_players@.len() && best.cards@ == player_hand_cards(
                    self.community_cards@,
                    #[trigger] self.active_players@[b],
                ) && best.category == player_category(
                    self.community_cards@,
                    self.active_players@[b],
                ),
            forall|t: int|
                0 <= t < self.active_players@.len() ==> spec_compare_parts(
                    player_category(self.community_cards@, #[trigger] self.active_players@[t]),
                    player_hand_cards(self.community_cards@, self.active_players@[t]),
                    best.category,
                    best.cards@,
                ) != Ordering::Greater,
            forall|t: int|
                0 <= t < self.active_players@.len() ==> player_hand_cards(
                    self.community_cards@,
                    #[trigger] self.active_players@[t],
                ).len() == 5,
    {
        let ghost comm0 = self.community_cards@;
        let ghost active0 = self.active_players@;
        let n = self.active_players.len();
        let mut best = self.hand_for(0);
        proof {
            lemma_parts_reflexive(best.category, best.cards@);
        }
        let mut j: usize = 1;
        while j < n
            invariant
                1 <= j <= n,
                n == active0.len(),
                best.wf(),
                exists|b: int|
                    0 <= b < j && best.cards@ == player_hand_cards(comm0, #[trigger] active0[b])
                        && best.category == player_category(comm0, active0[b]),
                forall|t: int|
                    0 <= t < j ==> spec_compare_parts(
                        player_category(comm0, #[trigger] active0[t]),
                        player_hand_cards(comm0, active0[t]),
                        best.category,
                        best.cards@,
                    ) != Ordering::Greater,
                forall|t: int|
                    0 <= t < j ==> player_hand_cards(comm0, #[trigger] active0[t]).len() == 5,
            decreases n - j,
        {
            let h = self.hand_for(j);
            let c = h.compare(&best);
            if matches!(c, Ordering::Greater) {
                proof {
                    lemma_parts_antisymmetric(h.category, h.cards@, best.category, best.cards@);
                    assert forall|t: int|
                        0 <= t < j implies spec_compare_parts(
                        player_category(comm0, #[trigger] active0[t]),
                        player_hand_cards(comm0, active0[t]),
                        h.category,
                        h.cards@,
                    ) != Ordering::Greater by {
                        lemma_parts_transitive(
                            player_category(comm0, active0[t]),
                            player_hand_cards(comm0, active0[t]),
                            best.category,
                            best.cards@,
                            h.category,
                            h.cards@,
                        );
                    }
                }
                best = h;
            } else {
                proof {
                    lemma_parts_antisymmetric(h.category, h.cards@, best.category, best.cards@);
                }
            }
            proof {
                lemma_parts_reflexive(best.category, best.cards@);
            }
            j = j + 1;
        }
        best
    }

    /// Collects, in seat order, every active player whose hand ties the
    /// given hand: the entries carry each such player's name and hand.
    #[verifier::loop_isolation(false)]
    #[verifier::rlimit(60)]
    fn collect_winners(&self, best: &Hand) -> (winners: Vec<(Hand, String)>)
        requires
            valid_cards(self.community_cards@),
            self.community_cards@.len() >= 3,
            forall|k: int|
                0 <= k < self.active_players@.len() ==> showdown_ready(
                    #[trigger] self.active_players@[k],
                ),
        ensures
            forall|k: int|
                0 <= k < winners@.len() ==> (exists|t: int|
                    0 <= t < self.active_players@.len() && (#[trigger] winners@[k]).1@
                        == self.active_players@[t].name@ && winners@[k].0.cards@
                        == player_hand_cards(self.community_cards@, self.active_players@[t])
                        && winners@[k].0.category == player_category(
                        self.community_cards@,
                        self.active_players@[t],
                    )),
            forall|k: int| 0 <= k < winners@.len() ==> (#[trigger] winners@[k]).0.wf(),
            forall|k: int|
                0 <= k < winners@.len() ==> spec_compare_parts(
                    (#[trigger] winners@[k]).0.category,
                    winners@[k].0.cards@,
                    best.category,
                    best.cards@,
                ) == Ordering::Equal,
            forall|t: int|
                0 <= t < self.active_players@.len() && spec_compare_parts(
                    player_category(self.community_cards@, #[trigger] self.active_players@[t]),
                    player_hand_cards(self.community_cards@, self.active_players@[t]),
                    best.category,
                    best.cards@,
                ) == Ordering::Equal ==> (exists|k: int|
                    0 <= k < winners@.len() && (#[trigger] winners@[k]).1@
                        == self.active_players@[t].name@),
    {
        let ghost comm0 = self.community_cards@;
        let ghost active0 = self.active_players@;
        let n = self.active_players.len();
        let mut winners: Vec<(Hand, String)> = Vec::new();
        let mut j: usize = 0;
        while j < n
            invariant
                j <= n,
                n == active0.len(),
                forall|k: int|
                    0 <= k < winners@.len() ==> (exists|t: int|
                        0 <= t < n && (#[trigger] winners@[k]).1@ == active0[t].name@
                            && winners@[k].0.cards@ == player_hand_cards(comm0, active0[t])
                            && winners@[k].0.category == player_category(comm0, active0[t])),
                forall|k: int| 0 <= k < winners@.len() ==> (#[trigger] winners@[k]).0.wf(),
                forall|k: int|
                    0 <= k < winners@.len() ==> spec_compare_parts(
                        (#[trigger] winners@[k]).0.category,
                        winners@[k].0.cards@,
                        best.category,
                        best.cards@,
                    ) == Ordering::Equal,
                forall|t: int|
                    0 <= t < j && spec_compare_parts(
                        player_category(comm0, #[trigger] active0[t]),
                        player_hand_cards(comm0, active0[t]),
                        best.category,
                        best.cards@,
                    ) == Ordering::Equal ==> (exists|k: int|
                        0 <= k < winners@.len() && (#[trigger] winners@[k]).1@
                            == active0[t].name@),
            decreases n - j,
        {
            let h = self.hand_for(j);
            let c = h.compare(&best);
            if matches!(c, Ordering::Equal) {
                let name = self.active_players[j].name.clone();
                let ghost winners_pre = winners@;
                winners.push((h, name));
                proof {
                    assert(winners@ == winners_pre.push((h, name)));
                    assert(winners@[winners@.len() - 1] == (h, name));
                    assert(winners@[winners@.len() - 1].1@ == active0[j as int].name@);
                    assert(forall|k: int|
                        0 <= k < winners_pre.len() ==> #[trigger] winners@[k] == winners_pre[k]);
                    assert forall|t: int|
                        0 <= t < j + 1 && spec_compare_parts(
                            player_category(comm0, #[trigger] active0[t]),
                            player_hand_cards(comm0, active0[t]),
                            best.category,
                            best.cards@,
                        ) == Ordering::Equal implies (exists|k: int|
                        0 <= k < winners@.len() && (#[trigger] winners@[k]).1@
                            == active0[t].name@) by {
                        if t < j {
                            let k0 = choose|k: int|
                                0 <= k < winners_pre.len() && (#[trigger] winners_pre[k]).1@
                                    == active0[t].name@;
                            assert(winners@[k0] == winners_pre[k0]);
                            assert(winners@[k0].1@ == active0[t].name@);
                        } else {
                            assert(winners@[winners@.len() - 1].1@ == active0[t].name@);
                        }
                    }
                }
            }
            j = j + 1;
        }
        winners
    }

    /// Evaluates every active player's best hand and names the winners:
    /// every player whose hand ties the strongest. Each entry carries the
    /// player's name and that player's evaluated hand.
    #[verifier::loop_isolation(false)]
    #[verifier::rlimit(60)]
    fn showdown(&self) -> (winners: Vec<(Hand, String)>)
        requires
            self.active_players@.len() >= 1,
            self.community_cards@.len() >= 3,
            valid_cards(self.community_cards@),
            forall|k: int|
                0 <= k < self.active_players@.len() ==> showdown_ready(
                    #[trigger] self.active_players@[k],
                ),
        ensures
            winners@.len() >= 1,
            forall|k: int|
                0 <= k < winners@.len() ==> (exists|j: int|
                    0 <= j < self.active_players@.len() && (#[trigger] winners@[k]).1@
                        == self.active_players@[j].name@ && winners@[k].0.cards@
                        == player_hand_cards(self.community_cards@, self.active_players@[j])
                        && winners@[k].0.category == player_category(
                        self.community_cards@,
                        self.active_players@[j],
                    )),
            forall|k: int| 0 <= k < winners@.len() ==> (#[trigger] winners@[k]).0.wf(),
    {
        let best = self.best_hand();
        let winners = self.collect_winners(&best);
        proof {
            // the strongest hand is some player's hand and ties itself,
            // so that player is among the winners
            let b = choose|b: int|
                0 <= b < self.active_players@.len() && best.cards@ == player_hand_cards(
                    self.community_cards@,
                    #[trigger] self.active_players@[b],
                ) && best.category == player_category(
                    self.community_cards@,
                    self.active_players@[b],
                );
            lemma_parts_reflexive(best.category, best.cards@);
            assert(winners@.len() >= 1);
        }
        winners
    }

    /// The showdown: evaluates every active player's best hand, names the
    /// winners (every player whose hand ties the strongest hand), and then
    /// resets the table for the next round. Each winner's entry carries the
    /// player's name and that player's evaluated hand.
    #[verifier::loop_isolation(false)]
    #[verifier::rlimit(60)]
    pub fn evaluate_round(&mut self) -> (winners: Vec<(Hand, String)>)
        requires
            old(self).active_players@.len() >= 1,
            old(self).community_cards@.len() >= 3,
            valid_cards(old(self).community_cards@),
            forall|k: int|
                0 <= k < old(self).active_players@.len() ==> showdown_ready(
                    #[trigger] old(self).active_players@[k],
                ),
        ensures
            winners@.len() >= 1,
            forall|k: int|
                0 <= k < winners@.len() ==> (exists|j: int|
                    0 <= j < old(self).active_players@.len() && (#[trigger] winners@[k]).1@ == old(
                        self,
                    ).active_players@[j].name@ && winners@[k].0.cards@ == player_hand_cards(
                        old(self).community_cards@,
                        old(self).active_players@[j],
                    ) && winners@[k].0.category == player_category(
                        old(self).community_cards@,
                        old(self).active_players@[j],
                    )),
            forall|k: int| 0 <= k < winners@.len() ==> (#[trigger] winners@[k]).0.wf(),
            final(self).active_players@.len() == 0,
            final(self).players@ == old(self).players@ + old(self).active_players@.map_values(
                |p: Player| Player { cards: None, ..p },
            ),
            final(self).deck@ == old(self).deck@ + hole_cards(old(self).active_players@),
            final(self).community_cards == old(self).community_cards,
            final(self).pot == old(self).pot,
            final(self).largest_bet == old(self).largest_bet,
    {
        let winners = self.showdown();
        self.reset_table();
        winners
    }

    /// Puts the table back between rounds: every active player hands the
    /// two hole cards back to the deck and returns to the waiting line.
    /// The community cards, the pot and the largest bet stay as they were.
    #[verifier::loop_isolation(false)]
    #[verifier::rlimit(60)]
    pub fn reset_table(&mut self)
        requires
            forall|k: int|
                0 <= k < old(self).active_players@.len() ==> (#[trigger] old(
                    self,
                ).active_players@[k]).cards is Some,
        ensures
            final(self).active_players@.len() == 0,
            final(self).players@ == old(self).players@ + old(self).active_players@.map_values(
                |p: Player| Player { cards: None, ..p },
            ),
            final(self).deck@ == old(self).deck@ + hole_cards(old(self).active_players@),
            final(self).community_cards == old(self).community_cards,
            final(self).pot == old(self).pot,
            final(self).largest_bet == old(self).largest_bet,
    {
        let ghost active0 = old(self).active_players@;
        let ghost n0 = active0.len();
        while self.active_players.len() > 0
            invariant
                self.active_players@.len() <= n0,
                self.active_players@ =~= active0.skip(n0 - self.active_players@.len()),
                self.players@ =~= old(self).players@ + active0.take(
                    n0 - self.active_players@.len(),
                ).map_values(|p: Player| Player { cards: None, ..p }),
                self.deck@ =~= old(self).deck@ + hole_cards(
                    active0.take(n0 - self.active_players@.len()),
                ),
                self.community_cards == old(self).community_cards,
                self.pot == old(self).pot,
                self.largest_bet == old(self).largest_bet,
            decreases self.active_players@.len(),
        {
            let ghost t = n0 - self.active_players@.len();
            let mut player = self.active_players.remove(0);
            proof {
                assert(active0.skip(t)[0] == active0[t]);
                assert(player == active0[t]);
                assert(self.active_players@ =~= active0.skip(t + 1));
            }
            let (c1, c2) = player.get_cards();
            self.deck.push(c1);
            self.deck.push(c2);
            player.cards = None;
            self.players.push(player);
            proof {
                assert(active0.take(t + 1) =~= active0.take(t).push(active0[t]));
                lemma_hole_cards_push(active0.take(t), active0[t]);
                assert(self.deck@ =~= old(self).deck@ + hole_cards(active0.take(t + 1)));
                assert(active0.take(t + 1).map_values(|p: Player| Player { cards: None, ..p })
                    =~= active0.take(t).map_values(|p: Player| Player { cards: None, ..p }).push(
                    (Player { cards: None, ..active0[t] }),
                ));
                assert(self.players@ =~= old(self).players@ + active0.take(t + 1).map_values(
                    |p: Player| Player { cards: None, ..p },
                ));
            }
        }
        proof {
            assert(active0.take(n0 as int) =~= active0);
        }
    }

    /// Moves chips from a player into the pot.
    pub fn place_bet(&mut self, player: &mut Player, amount: i32)
        requires
            i32::MIN <= old(player).chips - amount <= i32::MAX,
            i32::MIN <= old(self).pot + amount <= i32::MAX,
        ensures
            final(player).chips == old(player).chips - amount,
            final(player).name == old(player).name,
            final(player).is_human == old(player).is_human,
            final(player).chips_in_play == old(player).chips_in_play,
            final(player).cards == old(player).cards,
            final(self).pot == old(self).pot + amount,
            final(self).players == old(self).players,
            final(self).active_players == old(self).active_players,
            final(self).deck == old(self).deck,
            final(self).community_cards == old(self).community_cards,
            final(self).largest_bet == old(self).largest_bet,
    {
        player.chips = player.chips - amount;
        self.pot = self.pot + amount;
    }
}

/// The suit at position `i` of the fixed suit order.
fn suit_at_index(i: usize) -> (s: Suit)
    requires
        i <= 3,
    ensures
        s == suit_of(i as int),
{
    if i == 0 {
        Suit::Spades
    } else if i == 1 {
        Suit::Hearts
    } else if i == 2 {
        Suit::Clubs
    } else {
        Suit::Diamonds
    }
}

/// The rendered card list from position `i` on: each card's text, comma
/// separated, the last followed by the closing bracket.
pub open spec fn spec_cards_line_from(s: Seq<Card>, i: int) -> Seq<char>
    decreases s.len() - i,
{
    if i < 0 || i >= s.len() {
        Seq::empty()
    } else if i == s.len() - 1 {
        spec_card_display(s[i]) + "]\n"@
    } else {
        spec_card_display(s[i]) + ", "@ + spec_cards_line_from(s, i + 1)
    }
}

/// Renders a non-empty list of cards as one bracketed line.
#[verifier::loop_isolation(false)]
pub fn display_cards(cards: &Vec<Card>) -> (r: String)
    requires
        cards@.len() >= 1,
        valid_cards(cards@),
    ensures
        r@ == "["@ + spec_cards_line_from(cards@, 0),
{
    let mut s = "[".to_owned();
    let mut i: usize = 0;
    while i < cards.len()
        invariant
            i <= cards@.len(),
            "["@ + spec_cards_line_from(cards@, 0) =~= s@ + spec_cards_line_from(
                cards@,
                i as int,
            ),
        decreases cards@.len() - i,
    {
        let d = cards[i].display();
        s.append(d.as_str());
        if i < cards.len() - 1 {
            s.append(", ");
        } else {
            s.append("]\n");
        }
        proof {
            assert("["@ + spec_cards_line_from(cards@, 0) =~= s@ + spec_cards_line_from(
                cards@,
                i as int + 1,
            ));
        }
        i = i + 1;
    }
    s
}

} // verus!
