//! The rules engine of a property-trading board game: dice movement, the
//! effects of the board's cells, property purchase, rent, building and
//! mortgaging, auctions, event cards, jail, and the liquidation that follows
//! a debt a player cannot pay.
//!
//! A [`Game`] holds the players, the board, the record of who holds which
//! property, the kitty and the two decks. Its mathematical model is
//! [`GameView`]: every rule is a function from one such state to the next, and
//! every method of [`Game`] says in its contract which of these functions it
//! computes. A valid state ([`GameView::wf`]) stays valid under every rule.
//!
//! Whoever drives the game implements [`Driver`] to answer its questions:
//! whether to buy, what to bid, how to leave the jail. [`Game::advance`] plays
//! one turn, [`Game::run`] a whole game. The dice are rolled by the game;
//! [`Game::resolve_roll`] plays one roll with faces that the caller chooses.
//!
//! The modules, from the parts to the whole:
//!
//! - [`property`], [`board`], [`deck`], [`player`]: the things on the table;
//! - [`dice`]: the one source of chance;
//! - [`model`]: the state of a game as a mathematical value, and its validity;
//! - [`game`]: the game itself, how it starts and how it ends;
//! - [`ledger`]: buying, building, selling buildings, mortgages, rent;
//! - [`settle`]: debts, liquidation and bankruptcy;
//! - [`auction`]: auctions;
//! - [`landing`]: what the cell does on which a move ends;
//! - [`roll`], [`turn`]: a roll, a turn, a game;
//! - [`laws`]: what holds of the rules as a whole.

pub mod auction;
pub mod board;
pub mod deck;
pub mod dice;
pub mod driver;
pub mod game;
pub mod landing;
pub mod laws;
pub mod ledger;
pub mod model;
pub mod player;
pub mod property;
pub mod roll;
pub mod settle;
pub mod turn;

pub use auction::{Auction, AuctionResult};
pub use board::{Board, Space};
pub use deck::{Deck, Effect};
pub use driver::{Driver, JailChoice, JailOptions};
pub use game::{Game, GameError};
pub use landing::{CellEffect, Landing};
pub use model::{GameView, Payee};
pub use player::{JailStatus, Player};
pub use property::{Property, PropertyGroup, PropertyState, Rent, RentType};
pub use roll::{Movement, RollOutcome};
pub use settle::Settlement;
pub use turn::{GameOutcome, TurnOutcome};
