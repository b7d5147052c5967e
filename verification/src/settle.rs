//! Settling a debt: payment where the money is there, else the sale of
//! buildings and the mortgaging of properties until it is, and bankruptcy
//! where that does not suffice.

use vstd::prelude::*;
use crate::board::NUM_SPACES;
use crate::game::Game;
use crate::model::{
    lemma_sum_money_bounds, lemma_sum_money_update, GameView, Payee, MAX_LEVELS,
};
use crate::player::Player;
use crate::property::{PropertyState, RentType};

verus! {

/// The most that one pass of sales can bring into the game.
pub const SELL_PASS_GROWTH: i64 = 40 * 0x7fff_ffff;

/// The most that one pass of mortgages can bring into the game.
pub const MORTGAGE_PASS_GROWTH: i64 = 40 * 0xffff_ffff;

/// The most that settling one debt can bring into the game.
pub const SETTLE_GROWTH: i64 = 5 * SELL_PASS_GROWTH + MORTGAGE_PASS_GROWTH;

impl PropertyState {
    /// The record of a property after `debtor` has given up everything: what
    /// the debtor held goes to the creditor without buildings, mortgaged if it
    /// was mortgaged, or back to the bank where the kitty is owed.
    pub open spec fn handed_over(self, debtor: usize, payee: Payee) -> PropertyState {
        if self.owner() != Some(debtor) {
            self
        } else {
            match payee {
                Payee::Kitty => PropertyState::Unowned,
                Payee::Player(creditor) => match self {
                    PropertyState::Mortgaged { .. } => PropertyState::Mortgaged { player: creditor },
                    _ => PropertyState::Owned { player: creditor, level: RentType::Base },
                },
            }
        }
    }

    /// The record of a property after `debtor` has given up everything.
    pub fn hand_over(&self, debtor: usize, payee: Payee) -> (entry: PropertyState)
        ensures
            entry == self.handed_over(debtor, payee),
    {
        let held = match self.holder() {
            Some(holder) => holder == debtor,
            None => false,
        };
        if !held {
            *self
        } else {
            match payee {
                Payee::Kitty => PropertyState::Unowned,
                Payee::Player(creditor) => match *self {
                    PropertyState::Mortgaged { .. } => PropertyState::Mortgaged { player: creditor },
                    _ => PropertyState::Owned { player: creditor, level: RentType::Base },
                },
            }
        }
    }
}

impl GameView {
    /// Whether `payee` can be owed money by `debtor`: another player who is
    /// still in the game, or the kitty while the debtor is not the last player.
    pub open spec fn can_owe(self, debtor: usize, payee: Payee) -> bool {
        &&& self.active(debtor as int)
        &&& match payee {
            Payee::Player(creditor) => creditor != debtor && self.active(creditor as int),
            Payee::Kitty => self.has_rival(debtor as int),
        }
    }

    /// `next` arises from this state by sales and mortgages of `debtor` alone:
    /// nobody else's money or property has changed, no property has changed
    /// hands, no building was added, and the debtor has no less money.
    pub open spec fn eased(self, next: GameView, debtor: usize) -> bool {
        &&& next.board == self.board
        &&& next.kitty == self.kitty
        &&& next.chance == self.chance
        &&& next.community_chest == self.community_chest
        &&& next.current == self.current
        &&& next.players.len() == self.players.len()
        &&& next.ledger.len() == self.ledger.len()
        &&& forall|p: int|
            0 <= p < self.players.len() && p != debtor ==> #[trigger] next.players[p]
                == self.players[p]
        &&& next.players[debtor as int] == self.players[debtor as int].with_money(
            next.money(debtor as int),
        )
        &&& next.money(debtor as int) >= self.money(debtor as int)
        &&& forall|pos: int|
            0 <= pos < self.ledger.len() ==> {
                &&& (#[trigger] next.ledger[pos]).owner() == self.ledger[pos].owner()
                &&& next.ledger[pos].buildings() <= self.ledger[pos].buildings()
                &&& self.ledger[pos].owner() != Some(debtor) ==> next.ledger[pos]
                    == self.ledger[pos]
            }
    }

    /// No property of `player` carries more than `most` building levels.
    pub open spec fn levels_at_most(self, player: usize, most: int) -> bool {
        forall|pos: int|
            0 <= pos < NUM_SPACES && (#[trigger] self.ledger[pos]).owner() == Some(player)
                ==> self.ledger[pos].buildings() <= most
    }

    /// Whether `debtor` can sell a building from `pos`.
    pub open spec fn sellable(self, debtor: usize, pos: int) -> bool {
        self.ledger[pos].owner() == Some(debtor) && self.ledger[pos].buildings() > 0
    }

    /// One pass of sales from cell `from` on: while `debtor` has less than
    /// `amount`, one building is sold from each property of the debtor that
    /// has any, in the order of the board.
    pub open spec fn sell_pass(self, debtor: usize, amount: int, from: int) -> GameView
        decreases NUM_SPACES - from,
    {
        if from < 0 || from >= NUM_SPACES || self.money(debtor as int) >= amount {
            self
        } else if self.sellable(debtor, from) {
            self.sold(from as usize).sell_pass(debtor, amount, from + 1)
        } else {
            self.sell_pass(debtor, amount, from + 1)
        }
    }

    /// `rounds` passes of sales, one after the other.
    pub open spec fn sell_rounds(self, debtor: usize, amount: int, rounds: nat) -> GameView
        decreases rounds,
    {
        if rounds == 0 {
            self
        } else {
            self.sell_pass(debtor, amount, 0).sell_rounds(debtor, amount, (rounds - 1) as nat)
        }
    }

    /// Whether `debtor` can mortgage `pos`.
    pub open spec fn pledgeable(self, debtor: usize, pos: int) -> bool {
        self.ledger[pos] is Owned && self.ledger[pos].owner() == Some(debtor)
    }

    /// One pass of mortgages from cell `from` on: while `debtor` has less than
    /// `amount`, each unmortgaged property of the debtor is mortgaged, in the
    /// order of the board.
    pub open spec fn mortgage_pass(self, debtor: usize, amount: int, from: int) -> GameView
        decreases NUM_SPACES - from,
    {
        if from < 0 || from >= NUM_SPACES || self.money(debtor as int) >= amount {
            self
        } else if self.pledgeable(debtor, from) {
            self.mortgaged(from as usize).mortgage_pass(debtor, amount, from + 1)
        } else {
            self.mortgage_pass(debtor, amount, from + 1)
        }
    }

    /// The state after `debtor` has raised what can be raised towards `amount`:
    /// buildings are sold first, pass after pass, until none is left or the
    /// money suffices; then properties are mortgaged until it does.
    pub open spec fn liquidated(self, debtor: usize, amount: int) -> GameView {
        self.sell_rounds(debtor, amount, MAX_LEVELS as nat).mortgage_pass(debtor, amount, 0)
    }

    /// Whether `debtor` can pay `amount`, if need be after raising money.
    pub open spec fn can_settle(self, debtor: usize, amount: int) -> bool {
        self.liquidated(debtor, amount).money(debtor as int) >= amount
    }

    /// The state in which `debtor` has gone bankrupt: the debtor's money goes
    /// to the payee and the properties go to the creditor or back to the bank.
    pub open spec fn surrendered(self, debtor: usize, payee: Payee) -> GameView {
        let estate = self.money(debtor as int);
        let cleared = GameView {
            players: self.players.update(
                debtor as int,
                Player { money: 0, bankrupt: true, ..self.players[debtor as int] },
            ),
            ledger: Seq::new(
                self.ledger.len(),
                |pos: int| self.ledger[pos].handed_over(debtor, payee),
            ),
            ..self
        };
        match payee {
            Payee::Player(creditor) => cleared.credited(creditor, estate),
            Payee::Kitty => cleared.kitty_plus(estate),
        }
    }

    /// The state after `debtor` has settled a debt of `amount` to `payee`: paid
    /// in full, if need be after raising money, or else bankrupt.
    pub open spec fn settled(self, debtor: usize, amount: int, payee: Payee) -> GameView {
        let raised = self.liquidated(debtor, amount);
        if raised.money(debtor as int) >= amount {
            raised.paid(debtor, amount, payee)
        } else {
            raised.surrendered(debtor, payee)
        }
    }

    /// The properties that go back to the bank when `debtor` settles `amount`
    /// with `payee`: those of a debtor who goes bankrupt owing the kitty.
    pub open spec fn forfeits(self, debtor: usize, amount: int, payee: Payee) -> Seq<usize> {
        if payee is Kitty && !self.can_settle(debtor, amount) {
            self.liquidated(debtor, amount).holdings(debtor, NUM_SPACES as int)
        } else {
            Seq::empty()
        }
    }

    // ------------------------------------------------------------------
    // What liquidation keeps and what it achieves
    // ------------------------------------------------------------------
    /// Sales and mortgages after sales and mortgages are sales and mortgages.
    pub proof fn lemma_eased_trans(self, mid: GameView, next: GameView, debtor: usize)
        requires
            debtor < self.players.len(),
            self.eased(mid, debtor),
            mid.eased(next, debtor),
        ensures
            self.eased(next, debtor),
    {
        assert forall|p: int| 0 <= p < self.players.len() && p != debtor implies #[trigger] next.players[p]
            == self.players[p] by {
            assert(mid.players[p] == self.players[p]);
        }
        assert forall|pos: int| 0 <= pos < self.ledger.len() implies {
            &&& (#[trigger] next.ledger[pos]).owner() == self.ledger[pos].owner()
            &&& next.ledger[pos].buildings() <= self.ledger[pos].buildings()
            &&& self.ledger[pos].owner() != Some(debtor) ==> next.ledger[pos] == self.ledger[pos]
        } by {
            assert(mid.ledger[pos].owner() == self.ledger[pos].owner());
        }
    }

    /// Selling one building of `debtor` is a sale by the debtor alone.
    pub proof fn lemma_sold_eases(self, debtor: usize, pos: usize)
        requires
            self.wf(),
            self.has_headroom(),
            pos < NUM_SPACES,
            self.sellable(debtor, pos as int),
        ensures
            self.eased(self.sold(pos), debtor),
            self.sold(pos).wf(),
            self.sold(pos).total_funds() <= self.total_funds() + 0x7fff_ffff,
            self.sold(pos).ledger[pos as int].buildings() == self.ledger[pos as int].buildings()
                - 1,
    {
        self.lemma_sold(pos);
        assert(self.entry_wf(pos as int));
        self.lemma_balances(debtor as int);
    }

    /// Mortgaging one property of `debtor` is a mortgage by the debtor alone.
    pub proof fn lemma_mortgaged_eases(self, debtor: usize, pos: usize)
        requires
            self.wf(),
            self.has_headroom(),
            pos < NUM_SPACES,
            self.pledgeable(debtor, pos as int),
            self.group_unbuilt(pos as int),
        ensures
            self.eased(self.mortgaged(pos), debtor),
            self.mortgaged(pos).wf(),
            self.mortgaged(pos).total_funds() <= self.total_funds() + 0xffff_ffff,
            self.mortgaged(pos).ledger[pos as int] is Mortgaged,
    {
        self.lemma_mortgaged(pos);
        assert(self.entry_wf(pos as int));
        self.lemma_balances(debtor as int);
    }

    /// A pass of sales keeps the state valid, is the debtor's affair alone,
    /// brings in no more than the bound, and, where it leaves the debtor short,
    /// has sold one building from every property that had any.
    pub proof fn lemma_sell_pass(self, debtor: usize, amount: int, from: int)
        requires
            self.wf(),
            debtor < self.players.len(),
            0 <= from <= NUM_SPACES,
            self.has_room((NUM_SPACES - from) * 0x7fff_ffff),
        ensures
            ({
                let next = self.sell_pass(debtor, amount, from);
                &&& next.wf()
                &&& self.eased(next, debtor)
                &&& next.total_funds() <= self.total_funds() + (NUM_SPACES - from) * 0x7fff_ffff
                &&& next.money(debtor as int) < amount ==> forall|pos: int|
                    from <= pos < NUM_SPACES && self.sellable(debtor, pos) ==> (
                    #[trigger] next.ledger[pos]).buildings() == self.ledger[pos].buildings() - 1
            }),
        decreases NUM_SPACES - from,
    {
        let next = self.sell_pass(debtor, amount, from);
        if from >= NUM_SPACES || self.money(debtor as int) >= amount {
        } else if self.sellable(debtor, from) {
            let mid = self.sold(from as usize);
            self.lemma_sold_eases(debtor, from as usize);
            mid.lemma_sell_pass(debtor, amount, from + 1);
            self.lemma_eased_trans(mid, next, debtor);
            if next.money(debtor as int) < amount {
                assert forall|pos: int|
                    from <= pos < NUM_SPACES && self.sellable(debtor, pos) implies (
                #[trigger] next.ledger[pos]).buildings() == self.ledger[pos].buildings() - 1 by {
                    if pos == from {
                        mid.lemma_sell_pass_leaves(debtor, amount, from + 1, from);
                    } else {
                        assert(mid.ledger[pos] == self.ledger[pos]);
                    }
                }
            }
        } else {
            self.lemma_sell_pass(debtor, amount, from + 1);
        }
    }

    /// A pass of sales from `from` on leaves the cells before `from` alone.
    pub proof fn lemma_sell_pass_leaves(self, debtor: usize, amount: int, from: int, pos: int)
        requires
            0 <= pos < from <= NUM_SPACES,
            self.ledger.len() == NUM_SPACES,
        ensures
            self.sell_pass(debtor, amount, from).ledger[pos] == self.ledger[pos],
            self.sell_pass(debtor, amount, from).ledger.len() == NUM_SPACES,
        decreases NUM_SPACES - from,
    {
        if from >= NUM_SPACES || self.money(debtor as int) >= amount {
        } else if self.sellable(debtor, from) {
            self.sold(from as usize).lemma_sell_pass_leaves(debtor, amount, from + 1, pos);
        } else {
            self.lemma_sell_pass_leaves(debtor, amount, from + 1, pos);
        }
    }

    /// A state arises from itself by no sale and no mortgage.
    pub proof fn lemma_eased_same(self, debtor: usize)
        requires
            debtor < self.players.len(),
        ensures
            self.eased(self, debtor),
    {
    }

    /// A pass of sales mortgages nothing and lifts no mortgage.
    pub proof fn lemma_sell_pass_keeps_mortgages(
        self,
        debtor: usize,
        amount: int,
        from: int,
        pos: int,
    )
        requires
            0 <= pos < NUM_SPACES,
            self.ledger.len() == NUM_SPACES,
        ensures
            self.sell_pass(debtor, amount, from).ledger.len() == NUM_SPACES,
            self.sell_pass(debtor, amount, from).ledger[pos] is Mortgaged
                <==> self.ledger[pos] is Mortgaged,
        decreases NUM_SPACES - from,
    {
        if from < 0 || from >= NUM_SPACES || self.money(debtor as int) >= amount {
        } else if self.sellable(debtor, from) {
            self.sold(from as usize).lemma_sell_pass_keeps_mortgages(debtor, amount, from + 1, pos);
        } else {
            self.lemma_sell_pass_keeps_mortgages(debtor, amount, from + 1, pos);
        }
    }

    /// Rounds of sales mortgage nothing and lift no mortgage.
    pub proof fn lemma_sell_rounds_keep_mortgages(
        self,
        debtor: usize,
        amount: int,
        rounds: nat,
        pos: int,
    )
        requires
            0 <= pos < NUM_SPACES,
            self.ledger.len() == NUM_SPACES,
        ensures
            self.sell_rounds(debtor, amount, rounds).ledger.len() == NUM_SPACES,
            self.sell_rounds(debtor, amount, rounds).ledger[pos] is Mortgaged
                <==> self.ledger[pos] is Mortgaged,
        decreases rounds,
    {
        if rounds > 0 {
            self.lemma_sell_pass_keeps_mortgages(debtor, amount, 0, pos);
            self.sell_pass(debtor, amount, 0).lemma_sell_rounds_keep_mortgages(
                debtor,
                amount,
                (rounds - 1) as nat,
                pos,
            );
        }
    }

    /// Where the debtor already has the amount, no round of sales changes anything.
    pub proof fn lemma_sell_rounds_covered(self, debtor: usize, amount: int, rounds: nat)
        requires
            self.money(debtor as int) >= amount,
        ensures
            self.sell_rounds(debtor, amount, rounds) == self,
        decreases rounds,
    {
        if rounds > 0 {
            self.lemma_sell_rounds_covered(debtor, amount, (rounds - 1) as nat);
        }
    }

    /// Rounds of sales keep the state valid, are the debtor's affair alone,
    /// bring in no more than the bound, and, where they leave the debtor short,
    /// have taken one building level per round from each property.
    pub proof fn lemma_sell_rounds(self, debtor: usize, amount: int, rounds: nat, most: int)
        requires
            self.wf(),
            debtor < self.players.len(),
            self.has_room(rounds * SELL_PASS_GROWTH),
            self.levels_at_most(debtor, most),
        ensures
            ({
                let next = self.sell_rounds(debtor, amount, rounds);
                &&& next.wf()
                &&& self.eased(next, debtor)
                &&& next.total_funds() <= self.total_funds() + rounds * SELL_PASS_GROWTH
                &&& next.money(debtor as int) < amount ==> next.levels_at_most(
                    debtor,
                    if most - rounds > 0 {
                        most - rounds
                    } else {
                        0
                    },
                )
            }),
        decreases rounds,
    {
        let next = self.sell_rounds(debtor, amount, rounds);
        if rounds == 0 {
        } else {
            let mid = self.sell_pass(debtor, amount, 0);
            assert(rounds * SELL_PASS_GROWTH == (rounds - 1) * SELL_PASS_GROWTH + (NUM_SPACES - 0)
                * 0x7fff_ffff) by (nonlinear_arith)
                requires
                    SELL_PASS_GROWTH == 40 * 0x7fff_ffff,
                    NUM_SPACES == 40,
            ;
            assert((rounds - 1) * SELL_PASS_GROWTH >= 0) by (nonlinear_arith)
                requires
                    SELL_PASS_GROWTH >= 0,
                    rounds >= 1,
            ;
            self.lemma_sell_pass(debtor, amount, 0);
            let less = if most - 1 > 0 {
                most - 1
            } else {
                0
            };
            if mid.money(debtor as int) >= amount {
                mid.lemma_sell_rounds_covered(debtor, amount, (rounds - 1) as nat);
            } else {
                assert(mid.levels_at_most(debtor, less)) by {
                    assert forall|pos: int|
                        0 <= pos < NUM_SPACES && (#[trigger] mid.ledger[pos]).owner() == Some(
                            debtor,
                        ) implies mid.ledger[pos].buildings() <= less by {
                        assert(self.ledger[pos].owner() == Some(debtor));
                        if self.sellable(debtor, pos) {
                        } else {
                            assert(mid.ledger[pos].buildings() <= self.ledger[pos].buildings());
                        }
                    }
                }
                mid.lemma_sell_rounds(debtor, amount, (rounds - 1) as nat, less);
                self.lemma_eased_trans(mid, next, debtor);
            }
        }
    }

    /// In a valid state, a player without buildings has none in the group of
    /// any property that the player holds.
    pub proof fn lemma_no_buildings_in_groups(self, player: usize, pos: int)
        requires
            self.wf(),
            self.levels_at_most(player, 0),
            0 <= pos < NUM_SPACES,
            self.ledger[pos].owner() == Some(player),
        ensures
            self.group_unbuilt(pos),
    {
        assert forall|q: int| #[trigger] self.same_group(pos, q) implies self.ledger[q].buildings()
            == 0 by {
            assert(self.entry_wf(q));
            if self.ledger[q].buildings() > 0 {
                let holder = self.ledger[q]->Owned_player;
                assert(self.same_group(q, pos));
                assert(self.ledger[pos].owner() == Some(holder));
                assert(self.ledger[q].owner() == Some(player));
            }
        }
    }

    /// A pass of mortgages by a debtor without buildings keeps the state
    /// valid, is the debtor's affair alone, brings in no more than the bound,
    /// and, where it leaves the debtor short, has mortgaged every property.
    pub proof fn lemma_mortgage_pass(self, debtor: usize, amount: int, from: int)
        requires
            self.wf(),
            debtor < self.players.len(),
            0 <= from <= NUM_SPACES,
            self.has_room((NUM_SPACES - from) * 0xffff_ffff),
            self.levels_at_most(debtor, 0),
            forall|pos: int|
                0 <= pos < from && (#[trigger] self.ledger[pos]).owner() == Some(debtor)
                    ==> self.ledger[pos] is Mortgaged,
        ensures
            ({
                let next = self.mortgage_pass(debtor, amount, from);
                &&& next.wf()
                &&& self.eased(next, debtor)
                &&& next.total_funds() <= self.total_funds() + (NUM_SPACES - from) * 0xffff_ffff
                &&& next.money(debtor as int) < amount ==> forall|pos: int|
                    0 <= pos < NUM_SPACES && (#[trigger] next.ledger[pos]).owner() == Some(debtor)
                        ==> next.ledger[pos] is Mortgaged
            }),
        decreases NUM_SPACES - from,
    {
        let next = self.mortgage_pass(debtor, amount, from);
        if from >= NUM_SPACES || self.money(debtor as int) >= amount {
        } else if self.pledgeable(debtor, from) {
            let mid = self.mortgaged(from as usize);
            self.lemma_no_buildings_in_groups(debtor, from);
            self.lemma_mortgaged_eases(debtor, from as usize);
            assert(mid.levels_at_most(debtor, 0));
            mid.lemma_mortgage_pass(debtor, amount, from + 1);
            self.lemma_eased_trans(mid, next, debtor);
        } else {
            self.lemma_mortgage_pass(debtor, amount, from + 1);
        }
    }

    /// Raising money keeps the state valid, is the debtor's affair alone and
    /// brings in no more than the bound. A debtor who is still short after it
    /// has no building left and nothing left unmortgaged.
    pub proof fn lemma_liquidated(self, debtor: usize, amount: int)
        requires
            self.wf(),
            debtor < self.players.len(),
            self.has_room(SETTLE_GROWTH as int),
        ensures
            ({
                let next = self.liquidated(debtor, amount);
                &&& next.wf()
                &&& self.eased(next, debtor)
                &&& next.total_funds() <= self.total_funds() + SETTLE_GROWTH
                &&& next.money(debtor as int) < amount ==> next.levels_at_most(debtor, 0)
                    && forall|pos: int|
                    0 <= pos < NUM_SPACES && (#[trigger] next.ledger[pos]).owner() == Some(debtor)
                        ==> next.ledger[pos] is Mortgaged
                &&& self.money(debtor as int) >= amount ==> next == self
            }),
    {
        let rounds = MAX_LEVELS as nat;
        let mid = self.sell_rounds(debtor, amount, rounds);
        let next = self.liquidated(debtor, amount);
        assert(self.levels_at_most(debtor, 5)) by {
            assert forall|pos: int|
                0 <= pos < NUM_SPACES && (#[trigger] self.ledger[pos]).owner() == Some(
                    debtor,
                ) implies self.ledger[pos].buildings() <= 5 by {}
        }
        self.lemma_sell_rounds(debtor, amount, rounds, 5);
        if mid.money(debtor as int) >= amount {
            if self.money(debtor as int) >= amount {
                self.lemma_sell_rounds_covered(debtor, amount, rounds);
            }
        } else {
            mid.lemma_mortgage_pass(debtor, amount, 0);
            self.lemma_eased_trans(mid, next, debtor);
        }
    }

    /// Sales and mortgages take nobody out of the game, so who could be owed
    /// before can be owed after.
    pub proof fn lemma_eased_can_owe(self, next: GameView, debtor: usize, payee: Payee)
        requires
            self.eased(next, debtor),
            self.can_owe(debtor, payee),
        ensures
            next.can_owe(debtor, payee),
            forall|p: int| next.active(p) == self.active(p),
    {
        assert forall|p: int| next.active(p) == self.active(p) by {
            if 0 <= p < self.players.len() && p != debtor {
                assert(next.players[p] == self.players[p]);
            }
        }
        if payee is Kitty {
            let rival = choose|q: int| #[trigger] self.active(q) && q != debtor;
            assert(next.active(rival));
        }
    }

    /// A payment keeps the state valid and the money in the game.
    pub proof fn lemma_paid(self, debtor: usize, amount: int, payee: Payee)
        requires
            self.wf(),
            self.has_headroom(),
            self.can_owe(debtor, payee),
            0 <= amount <= self.money(debtor as int),
        ensures
            self.paid(debtor, amount, payee).wf(),
            self.paid(debtor, amount, payee).total_funds() == self.total_funds(),
            forall|p: int| self.paid(debtor, amount, payee).active(p) == self.active(p),
    {
        self.lemma_credited(debtor, -amount);
        let mid = self.credited(debtor, -amount);
        match payee {
            Payee::Player(creditor) => {
                mid.lemma_balances(creditor as int);
                mid.lemma_credited(creditor, amount);
            },
            Payee::Kitty => {
                let next = mid.kitty_plus(amount);
                mid.lemma_balances(debtor as int);
                mid.lemma_same_holdings(next);
            },
        }
    }

    /// The bankruptcy of a debtor without buildings keeps the state valid and
    /// the money in the game, and takes the debtor, and nobody else, out of the game.
    pub proof fn lemma_surrendered(self, debtor: usize, payee: Payee)
        requires
            self.wf(),
            self.has_headroom(),
            self.can_owe(debtor, payee),
            self.levels_at_most(debtor, 0),
        ensures
            self.surrendered(debtor, payee).wf(),
            self.surrendered(debtor, payee).total_funds() == self.total_funds(),
            forall|p: int|
                self.surrendered(debtor, payee).active(p) == (self.active(p) && p != debtor),
            self.surrendered(debtor, payee).money(debtor as int) == 0,
    {
        let estate = self.money(debtor as int);
        let cleared = GameView {
            players: self.players.update(
                debtor as int,
                Player { money: 0, bankrupt: true, ..self.players[debtor as int] },
            ),
            ledger: Seq::new(
                self.ledger.len(),
                |pos: int| self.ledger[pos].handed_over(debtor, payee),
            ),
            ..self
        };
        let next = self.surrendered(debtor, payee);
        lemma_sum_money_update(
            self.players,
            debtor as int,
            Player { money: 0, bankrupt: true, ..self.players[debtor as int] },
        );
        self.lemma_balances(debtor as int);
        assert forall|a: int, b: int| self.same_group(a, b) == cleared.same_group(a, b) by {}
        assert forall|p: int| cleared.active(p) == (self.active(p) && p != debtor) by {}
        let rival = match payee {
            Payee::Player(creditor) => creditor as int,
            Payee::Kitty => choose|q: int| #[trigger] self.active(q) && q != debtor,
        };
        assert(cleared.active(rival));
        assert forall|cell: int| 0 <= cell < NUM_SPACES implies #[trigger] cleared.entry_wf(
            cell,
        ) by {
            assert(self.entry_wf(cell));
            if self.ledger[cell].owner() == Some(debtor) {
                assert(self.ledger[cell].buildings() <= 0);
            } else {
                if let PropertyState::Owned { player, level } = self.ledger[cell] {
                    if level.buildings() > 0 {
                        assert forall|q: int| #[trigger]
                            cleared.same_group(cell, q) implies (
                        cleared.ledger[q] matches PropertyState::Owned { player: holder, .. }
                            && holder == player) by {
                            assert(self.same_group(cell, q));
                        }
                    }
                }
            }
        }
        assert(cleared.wf());
        assert(cleared.total_funds() == self.total_funds() - estate);
        match payee {
            Payee::Player(creditor) => {
                cleared.lemma_balances(creditor as int);
                cleared.lemma_credited(creditor, estate);
            },
            Payee::Kitty => {
                cleared.lemma_balances(debtor as int);
                cleared.lemma_same_holdings(next);
            },
        }
    }

    /// Settling a debt keeps the state valid and brings in no more than the
    /// bound. Afterwards nobody is in debt: the debtor has paid in full or is
    /// bankrupt, and each player but the debtor is in the game as before.
    pub proof fn lemma_settled(self, debtor: usize, amount: int, payee: Payee)
        requires
            self.wf(),
            self.has_room(SETTLE_GROWTH as int),
            self.can_owe(debtor, payee),
            0 <= amount,
        ensures
            ({
                let next = self.settled(debtor, amount, payee);
                &&& next.wf()
                &&& next.total_funds() <= self.total_funds() + SETTLE_GROWTH
                &&& next.board == self.board
                &&& next.current == self.current
                &&& next.chance == self.chance
                &&& next.community_chest == self.community_chest
                &&& next.players.len() == self.players.len()
                &&& forall|p: int| p != debtor ==> next.active(p) == self.active(p)
                &&& next.active(debtor as int) == self.can_settle(debtor, amount)
            }),
    {
        let raised = self.liquidated(debtor, amount);
        self.lemma_liquidated(debtor, amount);
        self.lemma_eased_can_owe(raised, debtor, payee);
        if raised.money(debtor as int) >= amount {
            raised.lemma_paid(debtor, amount, payee);
        } else {
            raised.lemma_surrendered(debtor, payee);
        }
    }
}

/// How a debt was settled.
#[derive(Debug)]
pub struct Settlement {
    /// Whether the debtor paid in full. A debtor who did not is bankrupt.
    pub solvent: bool,
    /// The properties that went back to the bank and are to be auctioned, in
    /// the order of the board.
    pub forfeited: Vec<usize>,
}

impl Game {
    /// The cells whose property `player` holds, in the order of the board.
    pub fn holdings(&self, player: usize) -> (cells: Vec<usize>)
        requires
            self.ledger@.len() == NUM_SPACES,
        ensures
            cells@ == self@.holdings(player, NUM_SPACES as int),
    {
        let mut cells: Vec<usize> = Vec::new();
        let mut pos: usize = 0;
        while pos < NUM_SPACES
            invariant
                pos <= NUM_SPACES,
                self.ledger@.len() == NUM_SPACES,
                cells@ == self@.holdings(player, pos as int),
            decreases NUM_SPACES - pos,
        {
            let held = match self.ledger[pos].holder() {
                Some(holder) => holder == player,
                None => false,
            };
            if held {
                cells.push(pos);
            }
            pos += 1;
        }
        cells
    }

    /// One pass over the board that sells one building from each property of
    /// `debtor` while the debtor has less than `amount`.
    fn sell_pass(&mut self, debtor: usize, amount: i64)
        requires
            old(self)@.wf(),
            debtor < old(self).players@.len(),
            old(self)@.has_room(SELL_PASS_GROWTH as int),
        ensures
            final(self)@ == old(self)@.sell_pass(debtor, amount as int, 0),
    {
        let mut pos: usize = 0;
        while pos < NUM_SPACES && self.players[debtor].money < amount
            invariant
                pos <= NUM_SPACES,
                self@.wf(),
                debtor < self.players@.len(),
                self@.has_room((NUM_SPACES - pos) * 0x7fff_ffff),
                old(self)@.sell_pass(debtor, amount as int, 0) == self@.sell_pass(
                    debtor,
                    amount as int,
                    pos as int,
                ),
            decreases NUM_SPACES - pos,
        {
            let sellable = match self.ledger[pos] {
                PropertyState::Owned { player, level } => player == debtor && level.has_houses(),
                _ => false,
            };
            if sellable {
                proof {
                    self@.lemma_sold_eases(debtor, pos);
                }
                let _ = self.sell_down(pos);
            }
            pos += 1;
        }
    }

    /// The passes of sales that settling a debt begins with.
    fn sell_rounds(&mut self, debtor: usize, amount: i64)
        requires
            old(self)@.wf(),
            debtor < old(self).players@.len(),
            old(self)@.has_room(MAX_LEVELS * SELL_PASS_GROWTH),
        ensures
            final(self)@ == old(self)@.sell_rounds(debtor, amount as int, MAX_LEVELS as nat),
    {
        let mut round: usize = 0;
        while round < MAX_LEVELS
            invariant
                round <= MAX_LEVELS,
                self@.wf(),
                debtor < self.players@.len(),
                self@.has_room((MAX_LEVELS - round) * SELL_PASS_GROWTH),
                old(self)@.sell_rounds(debtor, amount as int, MAX_LEVELS as nat)
                    == self@.sell_rounds(debtor, amount as int, (MAX_LEVELS - round) as nat),
            decreases MAX_LEVELS - round,
        {
            proof {
                assert((MAX_LEVELS - round) * SELL_PASS_GROWTH == (MAX_LEVELS - round - 1)
                    * SELL_PASS_GROWTH + SELL_PASS_GROWTH) by (nonlinear_arith);
                assert((MAX_LEVELS - round - 1) * SELL_PASS_GROWTH >= 0) by (nonlinear_arith)
                    requires
                        MAX_LEVELS - round - 1 >= 0,
                        SELL_PASS_GROWTH >= 0,
                ;
                self@.lemma_sell_pass(debtor, amount as int, 0);
            }
            self.sell_pass(debtor, amount);
            round += 1;
        }
    }

    /// One pass over the board that mortgages each property of `debtor` while
    /// the debtor has less than `amount`.
    fn mortgage_pass(&mut self, debtor: usize, amount: i64)
        requires
            old(self)@.wf(),
            debtor < old(self).players@.len(),
            old(self)@.has_room(MORTGAGE_PASS_GROWTH as int),
            old(self)@.money(debtor as int) < amount ==> old(self)@.levels_at_most(debtor, 0),
        ensures
            final(self)@ == old(self)@.mortgage_pass(debtor, amount as int, 0),
    {
        let mut pos: usize = 0;
        while pos < NUM_SPACES && self.players[debtor].money < amount
            invariant
                pos <= NUM_SPACES,
                self@.wf(),
                debtor < self.players@.len(),
                self@.has_room((NUM_SPACES - pos) * 0xffff_ffff),
                self@.money(debtor as int) < amount ==> self@.levels_at_most(debtor, 0),
                old(self)@.mortgage_pass(debtor, amount as int, 0) == self@.mortgage_pass(
                    debtor,
                    amount as int,
                    pos as int,
                ),
            decreases NUM_SPACES - pos,
        {
            let pledgeable = match self.ledger[pos] {
                PropertyState::Owned { player, .. } => player == debtor,
                _ => false,
            };
            if pledgeable {
                proof {
                    self@.lemma_no_buildings_in_groups(debtor, pos as int);
                    self@.lemma_mortgaged_eases(debtor, pos);
                    assert(self@.mortgaged(pos).levels_at_most(debtor, 0));
                }
                let _ = self.mortgage(pos);
            }
            pos += 1;
        }
    }

    /// Hands `amount` to `payee`, out of nobody's pocket.
    fn hand_to(&mut self, payee: Payee, amount: i64)
        requires
            0 <= amount,
            match payee {
                Payee::Player(creditor) => creditor < old(self).players@.len() && old(self)@.money(
                    creditor as int,
                ) + amount <= i64::MAX,
                Payee::Kitty => old(self).kitty + amount <= i64::MAX,
            },
        ensures
            final(self)@ == (match payee {
                Payee::Player(creditor) => old(self)@.credited(creditor, amount as int),
                Payee::Kitty => old(self)@.kitty_plus(amount as int),
            }),
    {
        match payee {
            Payee::Player(creditor) => {
                self.players[creditor].money = self.players[creditor].money + amount;
            },
            Payee::Kitty => {
                self.kitty = self.kitty + amount;
            },
        }
    }

    /// `debtor` settles a debt of `amount` to `payee`.
    ///
    /// A debtor who has the money pays. One who has not sells buildings, one
    /// from each property in turn, and then mortgages properties, each only
    /// until the money suffices. A debtor who is still short goes bankrupt:
    /// the money that is left goes to the payee, and the properties go to the
    /// creditor, stripped of buildings, or back to the bank where the kitty
    /// is owed. Those are listed in the result.
    pub fn settle(&mut self, debtor: usize, amount: i64, payee: Payee) -> (result: Settlement)
        requires
            old(self)@.wf(),
            old(self)@.has_room(SETTLE_GROWTH as int),
            old(self)@.can_owe(debtor, payee),
            0 <= amount,
        ensures
            final(self)@ == old(self)@.settled(debtor, amount as int, payee),
            result.solvent == old(self)@.can_settle(debtor, amount as int),
            result.forfeited@ == old(self)@.forfeits(debtor, amount as int, payee),
            final(self)@.wf(),
            final(self)@.total_funds() <= old(self)@.total_funds() + SETTLE_GROWTH,
            forall|p: int|
                0 <= p < final(self)@.players.len() ==> (#[trigger] final(self)@.players[p]).money
                    >= 0,
            final(self)@.active(debtor as int) == result.solvent,
    {
        proof {
            old(self)@.lemma_settled(debtor, amount as int, payee);
            old(self)@.lemma_liquidated(debtor, amount as int);
            old(self)@.lemma_sell_rounds(debtor, amount as int, MAX_LEVELS as nat, 5);
            assert(old(self)@.levels_at_most(debtor, 5)) by {
                assert forall|pos: int|
                    0 <= pos < NUM_SPACES && (#[trigger] old(self)@.ledger[pos]).owner() == Some(
                        debtor,
                    ) implies old(self)@.ledger[pos].buildings() <= 5 by {}
            }
        }
        self.sell_rounds(debtor, amount);
        self.mortgage_pass(debtor, amount);
        let ghost raised = self@;
        assert(raised == old(self)@.liquidated(debtor, amount as int));
        if self.players[debtor].money >= amount {
            proof {
                old(self)@.lemma_eased_can_owe(raised, debtor, payee);
                raised.lemma_credited(debtor, -amount);
                raised.credited(debtor, -amount).lemma_balances(debtor as int);
                match payee {
                    Payee::Player(creditor) => {
                        raised.credited(debtor, -amount).lemma_balances(creditor as int);
                    },
                    Payee::Kitty => {},
                }
            }
            self.players[debtor].money = self.players[debtor].money - amount;
            assert(self@ =~= raised.credited(debtor, -amount));
            self.hand_to(payee, amount);
            Settlement { solvent: true, forfeited: Vec::new() }
        } else {
            let estate = self.players[debtor].money;
            let forfeited = match payee {
                Payee::Kitty => self.holdings(debtor),
                Payee::Player(_) => Vec::new(),
            };
            self.players[debtor].money = 0;
            self.players[debtor].bankrupt = true;
            let mut pos: usize = 0;
            while pos < NUM_SPACES
                invariant
                    pos <= NUM_SPACES,
                    self.ledger@.len() == NUM_SPACES,
                    raised.ledger.len() == NUM_SPACES,
                    debtor < raised.players.len(),
                    forall|q: int|
                        0 <= q < pos ==> self.ledger@[q] == raised.ledger[q].handed_over(
                            debtor,
                            payee,
                        ),
                    forall|q: int| pos <= q < NUM_SPACES ==> self.ledger@[q] == raised.ledger[q],
                    self@.players == raised.players.update(
                        debtor as int,
                        Player { money: 0, bankrupt: true, ..raised.players[debtor as int] },
                    ),
                    self@.board == raised.board,
                    self@.kitty == raised.kitty,
                    self@.chance == raised.chance,
                    self@.community_chest == raised.community_chest,
                    self@.current == raised.current,
                decreases NUM_SPACES - pos,
            {
                let entry = self.ledger[pos].hand_over(debtor, payee);
                self.ledger[pos] = entry;
                pos += 1;
            }
            let ghost cleared = self@;
            proof {
                assert(cleared.ledger =~= Seq::new(
                    raised.ledger.len(),
                    |q: int| raised.ledger[q].handed_over(debtor, payee),
                ));
                old(self)@.lemma_eased_can_owe(raised, debtor, payee);
                raised.lemma_surrendered(debtor, payee);
                match payee {
                    Payee::Player(creditor) => {
                        lemma_sum_money_update(
                            raised.players,
                            debtor as int,
                            Player { money: 0, bankrupt: true, ..raised.players[debtor as int] },
                        );
                        assert(raised.money(creditor as int) + estate <= raised.total_funds()) by {
                            lemma_sum_money_bounds(cleared.players, creditor as int);
                        }
                    },
                    Payee::Kitty => {},
                }
            }
            self.hand_to(payee, estate);
            Settlement { solvent: false, forfeited }
        }
    }
}

impl GameView {
    // ------------------------------------------------------------------
    // What goes back to the bank
    // ------------------------------------------------------------------
    /// The cells of `list` are properties that the bank holds, each listed once.
    pub open spec fn for_sale(self, list: Seq<usize>) -> bool {
        &&& forall|i: int|
            0 <= i < list.len() ==> {
                let cell = #[trigger] list[i];
                cell < NUM_SPACES && self.is_property(cell as int)
                    && self.ledger[cell as int] is Unowned
            }
        &&& forall|i: int, j: int| 0 <= i < j < list.len() ==> list[i] != list[j]
    }

    /// The cells that a player holds are cells of the board, listed in rising
    /// order, and the player holds each.
    pub proof fn lemma_holdings(self, player: usize, upto: int)
        requires
            0 <= upto <= NUM_SPACES,
        ensures
            forall|i: int|
                0 <= i < self.holdings(player, upto).len() ==> {
                    let cell = #[trigger] self.holdings(player, upto)[i];
                    cell < upto && self.ledger[cell as int].owner() == Some(player)
                },
            forall|i: int, j: int|
                0 <= i < j < self.holdings(player, upto).len() ==> self.holdings(player, upto)[i]
                    < self.holdings(player, upto)[j],
        decreases upto,
    {
        if upto > 0 {
            self.lemma_holdings(player, upto - 1);
            let shorter = self.holdings(player, upto - 1);
            let list = self.holdings(player, upto);
            assert forall|i: int| 0 <= i < list.len() implies {
                let cell = #[trigger] list[i];
                cell < upto && self.ledger[cell as int].owner() == Some(player)
            } by {
                if i < shorter.len() {
                    assert(list[i] == shorter[i]);
                }
            }
            assert forall|i: int, j: int| 0 <= i < j < list.len() implies list[i] < list[j] by {
                assert(list[i] == shorter[i]);
                if j < shorter.len() {
                    assert(list[j] == shorter[j]);
                }
            }
        }
    }

    /// What goes back to the bank when a debt to the kitty is settled are
    /// properties that the bank then holds, each listed once.
    pub proof fn lemma_forfeits(self, debtor: usize, amount: int)
        requires
            self.wf(),
            self.has_room(SETTLE_GROWTH as int),
            self.can_owe(debtor, Payee::Kitty),
            0 <= amount,
        ensures
            self.settled(debtor, amount, Payee::Kitty).for_sale(
                self.forfeits(debtor, amount, Payee::Kitty),
            ),
    {
        let raised = self.liquidated(debtor, amount);
        let list = self.forfeits(debtor, amount, Payee::Kitty);
        let next = self.settled(debtor, amount, Payee::Kitty);
        self.lemma_liquidated(debtor, amount);
        self.lemma_settled(debtor, amount, Payee::Kitty);
        if !self.can_settle(debtor, amount) {
            raised.lemma_holdings(debtor, NUM_SPACES as int);
            assert forall|i: int| 0 <= i < list.len() implies {
                let cell = #[trigger] list[i];
                cell < NUM_SPACES && next.is_property(cell as int)
                    && next.ledger[cell as int] is Unowned
            } by {
                let cell = list[i];
                assert(raised.entry_wf(cell as int));
            }
        }
    }
}

} // verus!
