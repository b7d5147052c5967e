//! The decisions that the game leaves to whoever drives it.

use vstd::prelude::*;
use crate::auction::asking_after;
use crate::game::Game;
use crate::model::JAIL_FINE;

verus! {

/// How a jailed player tries to leave the jail.
#[derive(Clone, Copy, Debug, PartialEq, Eq, Structural)]
pub enum JailChoice {
    /// Hope for a double.
    Roll,
    /// Pay the fine before moving.
    PayFine,
    /// Hand in a "get out of jail free" card.
    UseCard,
}

/// The ways out of jail that are open to a player besides the dice.
#[derive(Clone, Copy, Debug, PartialEq, Eq, Structural)]
pub struct JailOptions {
    /// Whether the player has the money for the fine.
    pub can_pay: bool,
    /// Whether the player holds a "get out of jail free" card.
    pub has_card: bool,
}

/// The choices that the game asks of its driver. The game waits for each
/// answer, and what it promises holds whatever the answer is: nothing is
/// assumed of an implementation. What each question `requires` is what the
/// game is proved to hand over with it.
pub trait Driver {
    /// Whether `player` buys the property on `property` for `price`. A
    /// refusal sends the property to auction.
    ///
    /// The question is put to the player whose turn it is, about the cell
    /// on which the player stands, and only where the bank holds the property
    /// and the player has its price.
    fn decide_purchase(&mut self, game: &Game, player: usize, property: usize, price: u32) -> bool
        requires
            game@.wf(),
            player == game@.current,
            property == game@.here(),
            game@.can_buy(player, property),
            price == game@.property(property as int).price,
    ;

    /// The bid of `player` for `property` when the highest bid stands at
    /// `current_bid`, 0 before the first bid. `None`, or a bid below what is
    /// asked, withdraws the player from the auction for good.
    ///
    /// The question is put only to a player who is in the game and has what
    /// is asked, about a property that the bank holds.
    fn decide_bid(&mut self, game: &Game, player: usize, property: usize, current_bid: i64) -> Option<
        i64,
    >
        requires
            game@.wf(),
            game@.active(player as int),
            game@.is_property(property as int),
            game@.ledger[property as int] is Unowned,
            0 <= current_bid,
            game@.money(player as int) >= asking_after(current_bid as int),
    ;

    /// How `player`, who is in jail, tries to leave it. A choice that is not
    /// among the `options` counts as a roll.
    ///
    /// The question is put to the player whose turn it is, only in jail, and
    /// the options are those that the player has.
    fn decide_jail_exit(&mut self, game: &Game, player: usize, options: JailOptions) -> JailChoice
        requires
            game@.wf(),
            player == game@.current,
            game@.mover().is_jailed(),
            options.can_pay == (game@.mover().money >= JAIL_FINE),
            options.has_card == (game@.mover().jail_cards > 0),
    ;
}

} // verus!
