//! A player's account: money, place on the board, jail record.

use vstd::prelude::*;
use crate::board::{JAIL, NUM_SPACES};
use crate::dice::{is_die_face, roll_die};
use crate::model::GO_BONUS;

verus! {

/// What every player starts with.
pub const STARTING_MONEY: i64 = 1500;

/// How many rolls a jailed player may try before the fine falls due.
pub const JAIL_ATTEMPTS: u8 = 3;

/// How many "get out of jail free" cards exist, and so the most a player can hold.
pub const MAX_JAIL_CARDS: u8 = 2;

/// Where a player stands with respect to the jail.
#[derive(Clone, Copy, Debug, PartialEq, Eq, Structural)]
pub enum JailStatus {
    /// Anywhere but on the jail cell.
    Free,
    /// On the jail cell as a visitor.
    Visiting,
    /// In jail, with the number of rolls left to try for a double.
    Jailed(u8),
}

/// A player of the game.
#[derive(Debug, Clone)]
pub struct Player {
    /// The player's name.
    pub name: String,
    /// The last dice rolled by the player.
    pub last_dice: Option<(usize, usize)>,
    /// The player's current amount of money.
    pub money: i64,
    /// Current position on the board.
    pub current_position: usize,
    /// Whether the player is free, visiting the jail, or in it.
    pub jail: JailStatus,
    /// How many "get out of jail free" cards the player holds.
    pub jail_cards: u8,
    /// How many doubles the player has rolled in a row in the current turn.
    pub doubles: u8,
    /// Whether the player has gone bankrupt and left the game.
    pub bankrupt: bool,
}

impl Player {
    /// The account is valid: the player stands on the board, owes nothing, and the
    /// jail record agrees with the position.
    pub open spec fn wf(self) -> bool {
        &&& self.current_position < NUM_SPACES
        &&& self.money >= 0
        &&& self.doubles <= 2
        &&& self.jail_cards <= MAX_JAIL_CARDS
        &&& self.jail matches JailStatus::Jailed(left) ==> 1 <= left <= JAIL_ATTEMPTS && self.doubles
            == 0
        &&& self.jail is Free <==> self.current_position != JAIL
        &&& self.last_dice matches Some((a, b)) ==> is_die_face(a) && is_die_face(b)
        &&& self.bankrupt ==> self.money == 0
    }

    /// Whether the player is held in jail.
    pub open spec fn is_jailed(self) -> bool {
        self.jail is Jailed
    }

    /// The account of a player who has just joined a game.
    pub open spec fn is_fresh(self) -> bool {
        &&& self.last_dice is None
        &&& self.money == STARTING_MONEY
        &&& self.current_position == 0
        &&& self.jail == JailStatus::Free
        &&& self.jail_cards == 0
        &&& self.doubles == 0
        &&& !self.bankrupt
    }

    /// The same player with another amount of money.
    pub open spec fn with_money(self, money: int) -> Player {
        Player { money: money as i64, ..self }
    }

    /// The same player standing on `position`, free or visiting the jail.
    pub open spec fn placed(self, position: usize) -> Player {
        Player {
            current_position: position,
            jail: if position == JAIL {
                JailStatus::Visiting
            } else {
                JailStatus::Free
            },
            ..self
        }
    }

    /// The same player locked up: on the jail cell, with every attempt left and
    /// the run of doubles ended.
    pub open spec fn locked_up(self) -> Player {
        Player {
            current_position: JAIL,
            jail: JailStatus::Jailed(JAIL_ATTEMPTS),
            doubles: 0,
            ..self
        }
    }

    /// The cell that the last roll leads to from the current position.
    pub open spec fn next_position(self) -> usize
        recommends
            self.last_dice is Some,
    {
        match self.last_dice {
            Some((a, b)) => ((self.current_position + a + b) % (NUM_SPACES as int)) as usize,
            None => self.current_position,
        }
    }

    /// A player who joins a game: on the first cell, with the starting money.
    pub fn new(name: &str) -> (player: Player)
        ensures
            player.name@ == name@,
            player.is_fresh(),
            player.wf(),
    {
        Player {
            name: name.to_string(),
            last_dice: None,
            money: STARTING_MONEY,
            current_position: 0,
            jail: JailStatus::Free,
            jail_cards: 0,
            doubles: 0,
            bankrupt: false,
        }
    }

    /// Checks the account: see [`Player::wf`].
    pub fn is_valid(&self) -> (ok: bool)
        ensures
            ok == self.wf(),
    {
        let jail_ok = match self.jail {
            JailStatus::Free => self.current_position != JAIL,
            JailStatus::Visiting => self.current_position == JAIL,
            JailStatus::Jailed(left) => 1 <= left && left <= JAIL_ATTEMPTS
                && self.current_position == JAIL && self.doubles == 0,
        };
        let dice_ok = match self.last_dice {
            Some((a, b)) => 1 <= a && a <= 6 && 1 <= b && b <= 6,
            None => true,
        };
        self.current_position < NUM_SPACES && self.money >= 0 && self.doubles <= 2
            && self.jail_cards <= MAX_JAIL_CARDS && jail_ok && dice_ok && (!self.bankrupt
            || self.money == 0)
    }

    /// Rolls the player's two dice and stores the faces in `last_dice`.
    pub fn roll_dice(&mut self)
        ensures
            final(self).last_dice matches Some((a, b)) && is_die_face(a) && is_die_face(b),
            *final(self) == (Player { last_dice: final(self).last_dice, ..*old(self) }),
    {
        let die1 = roll_die();
        let die2 = roll_die();
        self.last_dice = Some((die1, die2));
    }

    /// The number of cells to move: the sum of the last dice, which must have
    /// been rolled.
    pub fn spaces_to_move(&self) -> (spaces: usize)
        requires
            self.last_dice matches Some((a, b)) && a + b <= usize::MAX,
        ensures
            self.last_dice matches Some((a, b)) && spaces == a + b,
    {
        match self.last_dice {
            Some((a, b)) => a + b,
            None => 0,
        }
    }

    /// The cell that the last roll, which must have been made, leads to,
    /// going round the board.
    pub fn get_next_position(&self) -> (position: usize)
        requires
            self.last_dice matches Some((a, b)) && self.current_position + a + b <= usize::MAX,
        ensures
            position == self.next_position(),
            position < NUM_SPACES,
    {
        let next_space = self.current_position + self.spaces_to_move();
        next_space % NUM_SPACES
    }

    /// Rolls the dice and moves the player by their sum, with the bonus where
    /// the move passes the start or ends on it: that is, where it leads to a
    /// lower cell. A player who is held in jail rolls and stays.
    pub fn roll_and_move(&mut self)
        requires
            old(self).current_position < NUM_SPACES,
            old(self).money <= i64::MAX - GO_BONUS,
        ensures
            final(self).last_dice matches Some((a, b)) && is_die_face(a) && is_die_face(b),
            ({
                let rolled = Player { last_dice: final(self).last_dice, ..*old(self) };
                let to = rolled.next_position();
                let bonus = if to < old(self).current_position {
                    GO_BONUS as int
                } else {
                    0
                };
                *final(self) == if old(self).is_jailed() {
                    rolled
                } else {
                    rolled.with_money(rolled.money + bonus).placed(to)
                }
            }),
            old(self).wf() && !old(self).bankrupt ==> final(self).wf(),
    {
        self.roll_dice();
        let jailed = match self.jail {
            JailStatus::Jailed(_) => true,
            _ => false,
        };
        if !jailed {
            let next = self.get_next_position();
            if next < self.current_position {
                self.money = self.money + GO_BONUS;
            }
            self.current_position = next;
            self.jail = if next == JAIL {
                JailStatus::Visiting
            } else {
                JailStatus::Free
            };
        }
    }
}

} // verus!
