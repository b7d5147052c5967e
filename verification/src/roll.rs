//! A roll of the dice: the jail, the move, the cell where the move ends, the
//! auctions that follow, and the count of doubles.

use vstd::prelude::*;
use crate::auction::AuctionResult;
use crate::board::{JAIL, NUM_SPACES};
use crate::landing::{CellEffect, LANDING_GROWTH};
use crate::dice::{is_die_face, roll_die};
use crate::driver::{Driver, JailChoice, JailOptions};
use crate::game::Game;
use crate::model::{GameView, GO_BONUS, JAIL_FINE};
use crate::player::{JailStatus, Player};
use crate::property::{PropertyState, RentType};

verus! {

/// The most that one roll can bring into the game.
pub const ROLL_GROWTH: i64 = LANDING_GROWTH + GO_BONUS;

/// What a roll did to the place of the player.
#[derive(Clone, Copy, Debug, PartialEq, Eq, Structural)]
pub enum Movement {
    /// The player moved by the total of the dice.
    Moved { from: usize, to: usize },
    /// The player stayed in jail.
    Held,
    /// The player rolled the third double in a row and went to jail instead of moving.
    SentToJail,
}

/// What one roll of the dice brought about.
#[derive(Debug)]
pub struct RollOutcome {
    /// The player who rolled.
    pub player: usize,
    /// The face of the first die.
    pub die1: usize,
    /// The face of the second die.
    pub die2: usize,
    /// How the player, if in jail, tried to leave it.
    pub choice: JailChoice,
    /// What the roll did to the place of the player.
    pub movement: Movement,
    /// Whether the player was offered a property and said yes.
    pub bought: bool,
    /// What the cell where the move ended did to the player.
    pub effect: CellEffect,
    /// The auctions that followed, in the order in which they were held.
    pub auctions: Vec<AuctionResult>,
    /// The players whom the roll made bankrupt, in the order of their turns.
    pub bankruptcies: Vec<usize>,
    /// Whether the player rolls again.
    pub roll_again: bool,
}

impl GameView {
    // ------------------------------------------------------------------
    // The beginning of a roll: jail, doubles, the move
    // ------------------------------------------------------------------
    /// Whether the player whose turn it is leaves the jail by a card.
    pub open spec fn uses_card(self, choice: JailChoice) -> bool {
        self.mover().is_jailed() && choice == JailChoice::UseCard && self.mover().jail_cards > 0
    }

    /// Whether the player whose turn it is leaves the jail by the fine: by
    /// choice, or because the last roll allowed has failed. Either way the
    /// player must have the money.
    pub open spec fn pays_fine(self, a: usize, b: usize, choice: JailChoice) -> bool {
        &&& self.mover().jail matches JailStatus::Jailed(left)
        &&& !self.uses_card(choice)
        &&& self.mover().money >= JAIL_FINE
        &&& choice == JailChoice::PayFine || (a != b && left <= 1)
    }

    /// Whether the player whose turn it is moves by the roll: out of jail by
    /// a card, the fine or a double; elsewhere unless the roll is the third
    /// double in a row.
    pub open spec fn roll_moves(self, a: usize, b: usize, choice: JailChoice) -> bool {
        if self.mover().is_jailed() {
            self.uses_card(choice) || self.pays_fine(a, b, choice) || a == b
        } else {
            !(a == b && self.mover().doubles >= 2)
        }
    }

    /// The cell that the roll leads to.
    pub open spec fn target(self, a: usize, b: usize) -> usize {
        ((self.here() + a + b) % (NUM_SPACES as int)) as usize
    }

    /// What the roll does to the place of the player whose turn it is.
    pub open spec fn movement(self, a: usize, b: usize, choice: JailChoice) -> Movement {
        if self.roll_moves(a, b, choice) {
            Movement::Moved { from: self.here(), to: self.target(a, b) }
        } else if self.mover().is_jailed() {
            Movement::Held
        } else {
            Movement::SentToJail
        }
    }

    /// The rolls that a player who has just failed one may still try.
    pub open spec fn attempts_left(self) -> u8 {
        match self.mover().jail {
            JailStatus::Jailed(left) if left > 1 => (left - 1) as u8,
            _ => 1,
        }
    }

    /// The state after the roll has been made and the player whose turn it is
    /// has moved, stayed in jail or gone to jail.
    pub open spec fn roll_begun(self, a: usize, b: usize, choice: JailChoice) -> GameView {
        let rolled = Player { last_dice: Some((a, b)), ..self.mover() };
        if self.roll_moves(a, b, choice) {
            let fee = if self.pays_fine(a, b, choice) {
                JAIL_FINE as int
            } else {
                0
            };
            let cards = if self.uses_card(choice) {
                (rolled.jail_cards - 1) as u8
            } else {
                rolled.jail_cards
            };
            let ready = (Player { jail_cards: cards, ..rolled }).with_money(rolled.money - fee);
            self.with_player(self.current, ready).kitty_plus(fee).moved_to(
                self.current,
                self.target(a, b),
            )
        } else if self.mover().is_jailed() {
            self.with_player(
                self.current,
                Player { jail: JailStatus::Jailed(self.attempts_left()), ..rolled },
            )
        } else {
            self.with_player(self.current, rolled.locked_up())
        }
    }

    /// The beginning of a roll keeps the state valid, takes nobody out of the
    /// game and brings in the bonus at most.
    pub proof fn lemma_roll_begun(self, a: usize, b: usize, choice: JailChoice)
        requires
            self.wf(),
            self.has_headroom(),
            self.active(self.current as int),
            is_die_face(a),
            is_die_face(b),
        ensures
            ({
                let next = self.roll_begun(a, b, choice);
                &&& next.wf()
                &&& next.total_funds() <= self.total_funds() + GO_BONUS
                &&& self.same_table(next)
                &&& next.ledger == self.ledger
                &&& forall|p: int| next.active(p) == self.active(p)
                &&& next.is_finished() == self.is_finished()
                &&& self.target(a, b) < NUM_SPACES
                &&& self.roll_moves(a, b, choice) ==> next.here() == self.target(a, b)
                    && !next.mover().is_jailed()
                &&& !self.roll_moves(a, b, choice) ==> next.mover().is_jailed() && next.here()
                    == JAIL
            }),
    {
        let mover = self.current;
        let rolled = Player { last_dice: Some((a, b)), ..self.mover() };
        assert(self.mover().wf());
        self.lemma_balances(mover as int);
        let next = self.roll_begun(a, b, choice);
        if self.roll_moves(a, b, choice) {
            let fee = if self.pays_fine(a, b, choice) {
                JAIL_FINE as int
            } else {
                0
            };
            let cards = if self.uses_card(choice) {
                (rolled.jail_cards - 1) as u8
            } else {
                rolled.jail_cards
            };
            let ready = (Player { jail_cards: cards, ..rolled }).with_money(rolled.money - fee);
            self.lemma_with_player(mover, ready);
            let paid = self.with_player(mover, ready);
            let fined = paid.kitty_plus(fee);
            paid.lemma_balances(mover as int);
            paid.lemma_same_holdings(fined);
            assert(fined.wf());
            assert(fined.total_funds() == self.total_funds());
            fined.lemma_moved_to(mover, self.target(a, b));
        } else if self.mover().is_jailed() {
            self.lemma_with_player(
                mover,
                Player { jail: JailStatus::Jailed(self.attempts_left()), ..rolled },
            );
        } else {
            self.lemma_with_player(mover, rolled.locked_up());
        }
        self.lemma_same_finish(next);
    }

    // ------------------------------------------------------------------
    // The auctions after a landing
    // ------------------------------------------------------------------
    /// The state after one auction has ended as `result` says.
    pub open spec fn after_auction(self, result: AuctionResult) -> GameView {
        match result.winner {
            Some(winner) => self.awarded(result.property, winner, result.price as int),
            None => self,
        }
    }

    /// The state after auctions have ended as `results` say, one after the other.
    pub open spec fn after_auctions(self, results: Seq<AuctionResult>) -> GameView
        decreases results.len(),
    {
        if results.len() == 0 {
            self
        } else {
            self.after_auctions(results.drop_last()).after_auction(results.last())
        }
    }

    // ------------------------------------------------------------------
    // The end of a roll and of a turn
    // ------------------------------------------------------------------
    /// Whether the player whose turn it is rolls again: after a double, unless
    /// the player is in jail or out of the game, or the game is over.
    pub open spec fn rolls_again(self, a: usize, b: usize) -> bool {
        &&& a == b
        &&& self.active(self.current as int)
        &&& !self.mover().is_jailed()
        &&& !self.is_finished()
    }

    /// The state after the roll has been counted: a player who rolls again has
    /// one double more than the `prior` ones, anybody else none.
    pub open spec fn roll_ended(self, a: usize, b: usize, prior: u8) -> GameView {
        self.with_player(
            self.current,
            Player {
                doubles: if self.rolls_again(a, b) && prior < 2 {
                    (prior + 1) as u8
                } else {
                    0
                },
                ..self.mover()
            },
        )
    }

    /// The state after the roll has begun and, where the player has moved, the
    /// cell where the move ended has had its effect.
    pub open spec fn roll_landed(self, a: usize, b: usize, choice: JailChoice, buy: bool) -> GameView {
        if self.roll_moves(a, b, choice) {
            self.roll_begun(a, b, choice).landed(a + b, buy)
        } else {
            self.roll_begun(a, b, choice)
        }
    }

    /// The state after a roll from its beginning to its end, as the driver's
    /// answers made it: `choice` for the jail, `buy` for a property on offer,
    /// and `auctions` for what the auctions brought.
    pub open spec fn replayed(
        self,
        a: usize,
        b: usize,
        choice: JailChoice,
        buy: bool,
        auctions: Seq<AuctionResult>,
    ) -> GameView {
        self.roll_landed(a, b, choice, buy).after_auctions(auctions).roll_ended(
            a,
            b,
            self.mover().doubles,
        )
    }
}

/// The players below `upto` who were in the game, as `was` says, and are not in
/// `next`, in rising order.
pub open spec fn fallen(was: Seq<bool>, next: GameView, upto: int) -> Seq<usize>
    decreases upto,
{
    if upto <= 0 {
        Seq::empty()
    } else if was[upto - 1] && !next.active(upto - 1) {
        fallen(was, next, upto - 1).push((upto - 1) as usize)
    } else {
        fallen(was, next, upto - 1)
    }
}

/// The cells whose properties the auctions of `results` were about, in order.
pub open spec fn auctioned(results: Seq<AuctionResult>) -> Seq<usize> {
    Seq::new(results.len(), |i: int| results[i].property)
}

impl GameView {
    /// For each player, whether the player is in the game.
    pub open spec fn actives(self) -> Seq<bool> {
        Seq::new(self.players.len(), |p: int| self.active(p))
    }

    /// Whether auction number `index` of those held after a landing that led to
    /// this state went as `auctions` say: it was held in the state that the
    /// auctions before it led to, and went as its result records.
    pub open spec fn auction_held(self, auctions: Seq<AuctionResult>, index: int) -> bool {
        self.after_auctions(auctions.subrange(0, index)).auction_went(auctions[index])
    }

    /// Whether a roll that began in this state ended in `next` with `outcome`:
    /// the outcome records the dice and the driver's answers, those in the
    /// auctions among them, and everything else in it, and the state, follow
    /// from them by the rules. Each auction was held in the state that the
    /// landing and the auctions before it led to, and its winner and price are
    /// those that its recorded answers give.
    pub open spec fn rolled_into(self, next: GameView, outcome: RollOutcome) -> bool {
        let a = outcome.die1;
        let b = outcome.die2;
        let begun = self.roll_begun(a, b, outcome.choice);
        let moves = self.roll_moves(a, b, outcome.choice);
        &&& outcome.player == self.current
        &&& is_die_face(a)
        &&& is_die_face(b)
        &&& self.mover().is_jailed() || outcome.choice == JailChoice::Roll
        &&& outcome.movement == self.movement(a, b, outcome.choice)
        &&& outcome.bought ==> moves && begun.can_buy(begun.current, begun.here())
        &&& outcome.effect == if moves {
            begun.cell_effect(a + b, outcome.bought)
        } else {
            CellEffect::Nothing
        }
        &&& auctioned(outcome.auctions@) =~= if moves {
            begun.landing_auctions(a + b, outcome.bought)
        } else {
            Seq::empty()
        }
        &&& forall|i: int|
            0 <= i < outcome.auctions@.len() ==> #[trigger] self.roll_landed(
                a,
                b,
                outcome.choice,
                outcome.bought,
            ).auction_held(outcome.auctions@, i)
        &&& next == self.replayed(a, b, outcome.choice, outcome.bought, outcome.auctions@)
        &&& outcome.bankruptcies@ == fallen(self.actives(), next, self.players.len() as int)
        &&& outcome.roll_again == (a == b && next.active(next.current as int)
            && !next.mover().is_jailed() && !next.is_finished())
        &&& next.mover().doubles == if outcome.roll_again {
            self.mover().doubles + 1
        } else {
            0
        }
        &&& self.same_table(next)
    }

    /// The end of a roll keeps the state valid and the money in the game.
    pub proof fn lemma_roll_ended(self, a: usize, b: usize, prior: u8)
        requires
            self.wf(),
        ensures
            self.roll_ended(a, b, prior).wf(),
            self.roll_ended(a, b, prior).total_funds() == self.total_funds(),
            self.same_table(self.roll_ended(a, b, prior)),
            self.roll_ended(a, b, prior).ledger == self.ledger,
            forall|p: int| self.roll_ended(a, b, prior).active(p) == self.active(p),
            self.roll_ended(a, b, prior).is_finished() == self.is_finished(),
    {
        let next = self.roll_ended(a, b, prior);
        assert(self.mover().wf());
        self.lemma_with_player(
            self.current,
            Player {
                doubles: if self.rolls_again(a, b) && prior < 2 {
                    (prior + 1) as u8
                } else {
                    0
                },
                ..self.mover()
            },
        );
        self.lemma_same_finish(next);
    }

}

impl Game {
    /// The roll begins: a jailed player tries to leave the jail as `choice`
    /// says, a third double in a row leads to jail, and any other roll moves
    /// the player by its total, with the bonus for passing the start.
    pub fn begin_roll(&mut self, a: usize, b: usize, choice: JailChoice) -> (movement: Movement)
        requires
            old(self)@.wf(),
            old(self)@.has_headroom(),
            old(self)@.active(old(self)@.current as int),
            is_die_face(a),
            is_die_face(b),
        ensures
            final(self)@ == old(self)@.roll_begun(a, b, choice),
            movement == old(self)@.movement(a, b, choice),
            final(self)@.wf(),
            final(self)@.total_funds() <= old(self)@.total_funds() + GO_BONUS,
            old(self)@.same_table(final(self)@),
    {
        let mover = self.current;
        let from = self.players[mover].current_position;
        proof {
            old(self)@.lemma_roll_begun(a, b, choice);
            old(self)@.lemma_balances(mover as int);
            assert(old(self)@.mover().wf());
        }
        let held = match self.players[mover].jail {
            JailStatus::Jailed(left) => Some(left),
            _ => None,
        };
        let has_money = self.players[mover].money >= JAIL_FINE;
        let uses_card = held.is_some() && choice == JailChoice::UseCard
            && self.players[mover].jail_cards > 0;
        let pays_fine = match held {
            Some(left) => !uses_card && has_money && (choice == JailChoice::PayFine || (a != b
                && left <= 1)),
            None => false,
        };
        let moves = match held {
            Some(_) => uses_card || pays_fine || a == b,
            None => !(a == b && self.players[mover].doubles >= 2),
        };
        self.players[mover].last_dice = Some((a, b));
        if moves {
            if uses_card {
                self.players[mover].jail_cards = self.players[mover].jail_cards - 1;
            }
            if pays_fine {
                self.players[mover].money = self.players[mover].money - JAIL_FINE;
                self.kitty = self.kitty + JAIL_FINE;
            }
            let to = (from + a + b) % NUM_SPACES;
            let ghost ready = self@;
            proof {
                let rolled = Player { last_dice: Some((a, b)), ..old(self)@.mover() };
                let fee = if old(self)@.pays_fine(a, b, choice) {
                    JAIL_FINE as int
                } else {
                    0
                };
                let cards = if old(self)@.uses_card(choice) {
                    (rolled.jail_cards - 1) as u8
                } else {
                    rolled.jail_cards
                };
                let account = (Player { jail_cards: cards, ..rolled }).with_money(
                    rolled.money - fee,
                );
                assert(ready =~= old(self)@.with_player(mover, account).kitty_plus(fee));
                old(self)@.lemma_with_player(mover, account);
                let paid = old(self)@.with_player(mover, account);
                paid.lemma_balances(mover as int);
                paid.lemma_same_holdings(ready);
            }
            self.move_to(mover, to);
            Movement::Moved { from, to }
        } else {
            match held {
                Some(left) => {
                    let remaining: u8 = if left > 1 {
                        left - 1
                    } else {
                        1
                    };
                    self.players[mover].jail = JailStatus::Jailed(remaining);
                    assert(self@ =~= old(self)@.roll_begun(a, b, choice));
                    Movement::Held
                },
                None => {
                    self.lock_up(mover);
                    assert(self@ =~= old(self)@.roll_begun(a, b, choice));
                    Movement::SentToJail
                },
            }
        }
    }

    /// The roll ends: it is decided whether the player rolls again, and the
    /// run of doubles, which stood at `prior` before the roll, is counted on
    /// or ended.
    pub fn end_roll(&mut self, a: usize, b: usize, prior: u8) -> (again: bool)
        requires
            old(self)@.wf(),
        ensures
            final(self)@ == old(self)@.roll_ended(a, b, prior),
            again == old(self)@.rolls_again(a, b),
            final(self)@.wf(),
            final(self)@.total_funds() == old(self)@.total_funds(),
    {
        proof {
            old(self)@.lemma_roll_ended(a, b, prior);
        }
        let mover = self.current;
        let jailed = match self.players[mover].jail {
            JailStatus::Jailed(_) => true,
            _ => false,
        };
        let again = a == b && !self.players[mover].bankrupt && !jailed && !self.is_finished();
        self.players[mover].doubles = if again && prior < 2 {
            prior + 1
        } else {
            0
        };
        assert(self@ =~= old(self)@.roll_ended(a, b, prior));
        again
    }

    /// The price at which the property under the player whose turn it is is on
    /// offer: the bank holds it and the player has the money.
    pub fn offer(&self) -> (price: Option<u32>)
        requires
            self@.wf(),
        ensures
            price is Some <==> self@.can_buy(self@.current, self@.here()),
            price matches Some(amount) ==> amount == self@.property(self@.here() as int).price,
    {
        let mover = self.current;
        let pos = self.players[mover].current_position;
        assert(self@.mover().wf());
        if self.players[mover].bankrupt {
            return None;
        }
        let unowned = match self.ledger[pos] {
            PropertyState::Unowned => true,
            _ => false,
        };
        match self.property_at(pos) {
            Some(property) if unowned && self.players[mover].money >= property.price as i64 => Some(
                property.price,
            ),
            _ => None,
        }
    }

    /// For each player, whether the player is in the game.
    pub fn actives(&self) -> (flags: Vec<bool>)
        ensures
            flags@ == self@.actives(),
    {
        let mut flags: Vec<bool> = Vec::new();
        let mut index: usize = 0;
        while index < self.players.len()
            invariant
                index <= self.players@.len(),
                flags@.len() == index,
                forall|p: int| 0 <= p < index ==> flags@[p] == self@.active(p),
            decreases self.players@.len() - index,
        {
            flags.push(!self.players[index].bankrupt);
            index += 1;
        }
        assert(flags@ =~= self@.actives());
        flags
    }

    /// The players who were in the game, as `was` says, and are not any more,
    /// in the order of their turns.
    pub fn fallen_since(&self, was: &Vec<bool>) -> (gone: Vec<usize>)
        requires
            was@.len() == self.players@.len(),
        ensures
            gone@ == fallen(was@, self@, self.players@.len() as int),
    {
        let mut gone: Vec<usize> = Vec::new();
        let mut index: usize = 0;
        while index < self.players.len()
            invariant
                index <= self.players@.len(),
                was@.len() == self.players@.len(),
                gone@ == fallen(was@, self@, index as int),
            decreases self.players@.len() - index,
        {
            if was[index] && self.players[index].bankrupt {
                gone.push(index);
            }
            index += 1;
        }
        gone
    }

    /// Plays the roll `a`, `b` of the player whose turn it is, from the jail
    /// to the auctions, asking `driver` for each decision.
    ///
    /// The outcome records the driver's answers, and the state that results is
    /// the one that the rules give for these answers. Whatever the answers:
    /// a third double in a row sends the player to jail; a player rolls again
    /// after a double unless in jail, bankrupt or left alone; a property that
    /// the player does not buy is auctioned once, as the recorded answers
    /// say, and then belongs to the last bidder left, without buildings, or
    /// stays with the bank where nobody bid; and nobody is left in debt.
    pub fn resolve_roll<D: Driver>(&mut self, a: usize, b: usize, driver: &mut D) -> (outcome:
        RollOutcome)
        requires
            old(self)@.wf(),
            old(self)@.has_room(ROLL_GROWTH as int),
            old(self)@.active(old(self)@.current as int),
            !old(self)@.is_finished(),
            is_die_face(a),
            is_die_face(b),
        ensures
            outcome.die1 == a,
            outcome.die2 == b,
            old(self)@.rolled_into(final(self)@, outcome),
            final(self)@.wf(),
            final(self)@.total_funds() <= old(self)@.total_funds() + ROLL_GROWTH,
            forall|p: int|
                0 <= p < final(self)@.players.len() ==> (#[trigger] final(self)@.players[p]).money
                    >= 0,
            outcome.roll_again <==> a == b && final(self)@.active(final(self)@.current as int)
                && !final(self)@.mover().is_jailed() && !final(self)@.is_finished(),
            a == b && !old(self)@.mover().is_jailed() && old(self)@.mover().doubles >= 2 ==> {
                &&& outcome.movement == Movement::SentToJail
                &&& final(self)@.mover().is_jailed()
                &&& final(self)@.here() == JAIL
                &&& !outcome.roll_again
            },
            outcome.movement == Movement::Held ==> final(self)@.mover().is_jailed(),
            outcome.movement == Movement::Held ==> final(self)@.here() == old(self)@.here(),
            outcome.effect matches CellEffect::Declined { property } ==> {
                &&& outcome.auctions@.len() == 1
                &&& outcome.auctions@[0].property == property
                &&& old(self)@.roll_begun(a, b, outcome.choice).auction_went(outcome.auctions@[0])
                &&& match outcome.auctions@[0].winner {
                    Some(winner) => final(self)@.ledger[property as int] == (PropertyState::Owned {
                        player: winner,
                        level: RentType::Base,
                    }),
                    None => final(self)@.ledger[property as int] is Unowned,
                }
            },
    {
        let mover = self.current;
        let prior = self.players[mover].doubles;
        let was = self.actives();
        proof {
            assert(old(self)@.mover().wf());
        }
        let choice = match self.players[mover].jail {
            JailStatus::Jailed(_) => driver.decide_jail_exit(
                self,
                mover,
                JailOptions {
                    can_pay: self.players[mover].money >= JAIL_FINE,
                    has_card: self.players[mover].jail_cards > 0,
                },
            ),
            _ => JailChoice::Roll,
        };
        proof {
            old(self)@.lemma_roll_begun(a, b, choice);
        }
        let movement = self.begin_roll(a, b, choice);
        let ghost begun = self@;
        let mut effect = CellEffect::Nothing;
        let mut bought = false;
        let mut auctions: Vec<AuctionResult> = Vec::new();
        match movement {
            Movement::Moved { .. } => {
                bought = match self.offer() {
                    Some(price) => driver.decide_purchase(
                        self,
                        mover,
                        self.players[mover].current_position,
                        price,
                    ),
                    None => false,
                };
                proof {
                    begun.lemma_landed(a + b, bought);
                    begun.lemma_landing_auctions(a + b, bought);
                }
                let landing = self.land((a + b) as u8, bought);
                effect = landing.effect;
                let ghost landed = self@;
                let to_auction = landing.to_auction;
                let mut index: usize = 0;
                assert(auctioned(auctions@) =~= to_auction@.subrange(0, 0));
                while index < to_auction.len()
                    invariant
                        index <= to_auction@.len(),
                        auctions@.len() == index,
                        self@.wf(),
                        self@.total_funds() <= landed.total_funds(),
                        landed.has_headroom(),
                        landed.for_sale(to_auction@),
                        self@ == landed.after_auctions(auctions@),
                        forall|i: int|
                            0 <= i < auctions@.len() ==> #[trigger] landed.auction_held(
                                auctions@,
                                i,
                            ),
                        landed.same_table(self@),
                        auctioned(auctions@) == to_auction@.subrange(0, index as int),
                        forall|j: int|
                            index <= j < to_auction@.len() ==> self@.ledger[(
                            #[trigger] to_auction@[j]) as int] is Unowned,
                        to_auction@.len() == 1 && index == 1 ==> match auctions@[0].winner {
                            Some(winner) => self@.ledger[to_auction@[0] as int] == (
                            PropertyState::Owned { player: winner, level: RentType::Base }),
                            None => self@.ledger[to_auction@[0] as int] is Unowned,
                        },
                    decreases to_auction@.len() - index,
                {
                    let property = to_auction[index];
                    let ghost before = self@;
                    let ghost so_far = auctions@;
                    assert(landed.is_property(to_auction@[index as int] as int));
                    let result = self.auction(property, driver);
                    auctions.push(result);
                    proof {
                        assert(auctions@.drop_last() =~= so_far);
                        assert(auctions@.last() == result);
                        assert(self@ == before.after_auction(result));
                        assert forall|i: int| 0 <= i < auctions@.len() implies #[trigger] landed.auction_held(
                            auctions@,
                            i,
                        ) by {
                            if i < so_far.len() {
                                assert(landed.auction_held(so_far, i));
                                assert(auctions@.subrange(0, i) =~= so_far.subrange(0, i));
                                assert(auctions@[i] == so_far[i]);
                            } else {
                                assert(auctions@.subrange(0, i) =~= so_far);
                            }
                        }
                        assert(auctioned(auctions@) =~= to_auction@.subrange(
                            0,
                            index as int + 1,
                        ));
                    }
                    index += 1;
                }
                assert(to_auction@.subrange(0, index as int) =~= to_auction@);
                proof {
                    if effect is Declined {
                        assert(landed == begun);
                        assert(landed.auction_held(auctions@, 0));
                        assert(auctions@.subrange(0, 0) =~= Seq::<AuctionResult>::empty());
                    }
                }
            },
            _ => {
                assert(auctioned(auctions@) =~= Seq::<usize>::empty());
            },
        }
        let ghost sold = self@;
        proof {
            sold.lemma_roll_ended(a, b, prior);
        }
        let roll_again = self.end_roll(a, b, prior);
        let bankruptcies = self.fallen_since(&was);
        RollOutcome {
            player: mover,
            die1: a,
            die2: b,
            choice,
            movement,
            bought,
            effect,
            auctions,
            bankruptcies,
            roll_again,
        }
    }

    /// Rolls the dice for the player whose turn it is and plays the roll, as
    /// [`Game::resolve_roll`] says.
    pub fn take_turn<D: Driver>(&mut self, driver: &mut D) -> (outcome: RollOutcome)
        requires
            old(self)@.wf(),
            old(self)@.has_room(ROLL_GROWTH as int),
            old(self)@.active(old(self)@.current as int),
            !old(self)@.is_finished(),
        ensures
            old(self)@.rolled_into(final(self)@, outcome),
            final(self)@.wf(),
            final(self)@.total_funds() <= old(self)@.total_funds() + ROLL_GROWTH,
            outcome.die1 == outcome.die2 && !old(self)@.mover().is_jailed()
                && old(self)@.mover().doubles >= 2 ==> {
                &&& outcome.movement == Movement::SentToJail
                &&& final(self)@.mover().is_jailed()
                &&& final(self)@.here() == JAIL
                &&& !outcome.roll_again
            },
    {
        let a = roll_die();
        let b = roll_die();
        self.resolve_roll(a, b, driver)
    }
}

} // verus!
