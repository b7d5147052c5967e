//! What happens to a player on the cell where a move ends: rent, taxes, the
//! kitty, the jail, and the cards.

use vstd::prelude::*;
use crate::board::{Space, JAIL, NUM_SPACES};
use crate::deck::{cycled, lemma_cycled_wf, Effect};
use crate::game::Game;
use crate::model::{
    lemma_one_less, lemma_sum_money_bounds, GameView, Payee, GO_BONUS, MAX_PLAYERS,
};
use crate::player::{JailStatus, Player, JAIL_ATTEMPTS, MAX_JAIL_CARDS};
use crate::property::{PropertyState, Rent};
use crate::settle::{Settlement, SETTLE_GROWTH};

verus! {

/// The most that the cell where a move ends can bring into the game.
pub const LANDING_GROWTH: i64 = 6 * SETTLE_GROWTH;

/// What the cell where a move ended did to the player.
#[derive(Clone, Copy, Debug, PartialEq, Eq, Structural)]
pub enum CellEffect {
    /// Nothing: the start, a visit to the jail, a property of the player's own
    /// or a mortgaged one.
    Nothing,
    /// The player bought the property from the bank.
    Bought { property: usize, price: i64 },
    /// The player did not buy the property: it goes to auction.
    Declined { property: usize },
    /// The player owed rent. `paid` is false where the player went bankrupt.
    Rent { owner: usize, amount: i64, paid: bool },
    /// The player owed a tax. `paid` is false where the player went bankrupt.
    Tax { amount: i64, paid: bool },
    /// The player collected the kitty.
    Kitty { amount: i64 },
    /// The player was sent to jail.
    Jailed,
    /// The player drew a card. `paid` is false where the card made the player
    /// bankrupt.
    Card { effect: Effect, paid: bool },
}

/// What the game reports of a landing.
#[derive(Debug)]
pub struct Landing {
    /// What the cell did to the player.
    pub effect: CellEffect,
    /// The properties that the bank has to auction now: the one that the player
    /// did not buy, or those of a player who went bankrupt owing the kitty.
    pub to_auction: Vec<usize>,
}

impl GameView {
    /// The state in which `player` has moved to `cell`, with the bonus where
    /// the move passed the start: that is, where it led to a lower cell.
    pub open spec fn moved_to(self, player: usize, cell: usize) -> GameView {
        let before = self.players[player as int];
        let bonus = if cell < before.current_position {
            GO_BONUS as int
        } else {
            0
        };
        self.with_player(player, before.with_money(before.money + bonus).placed(cell))
    }

    /// The state in which `player` is in jail.
    pub open spec fn locked_up(self, player: usize) -> GameView {
        self.with_player(player, self.players[player as int].locked_up())
    }

    /// The state in which `player` holds one more "get out of jail free"
    /// card, unless the player holds all there are.
    pub open spec fn card_granted(self, player: usize) -> GameView {
        let before = self.players[player as int];
        self.with_player(
            player,
            Player {
                jail_cards: if before.jail_cards < MAX_JAIL_CARDS {
                    (before.jail_cards + 1) as u8
                } else {
                    before.jail_cards
                },
                ..before
            },
        )
    }

    /// The state in which each player from number `from` on who is in the game
    /// has settled a debt of `amount` to `player`, one after the other.
    pub open spec fn collected(self, player: usize, amount: int, from: int) -> GameView
        decreases MAX_PLAYERS - from,
    {
        if from < 0 || from >= MAX_PLAYERS {
            self
        } else if from != player && self.active(from) {
            self.settled(from as usize, amount, Payee::Player(player)).collected(
                player,
                amount,
                from + 1,
            )
        } else {
            self.collected(player, amount, from + 1)
        }
    }

    /// What `player` owes under an assessment of buildings.
    pub open spec fn assessment(self, player: usize, per_house: int, per_hotel: int) -> int {
        per_house * self.houses_held(player, NUM_SPACES as int) + per_hotel * self.hotels_held(
            player,
            NUM_SPACES as int,
        )
    }

    /// What `effect` makes `player` pay into the kitty, if anything.
    pub open spec fn levy(self, player: usize, effect: Effect) -> Option<int> {
        match effect {
            Effect::DebitPlayer(amount) => Some(amount as int),
            Effect::PerBuildingAssessment { per_house, per_hotel } => Some(
                self.assessment(player, per_house as int, per_hotel as int),
            ),
            _ => None,
        }
    }

    /// The state after `effect` has been applied to `player`.
    pub open spec fn applied(self, player: usize, effect: Effect) -> GameView {
        match effect {
            Effect::CreditPlayer(amount) => self.credited(player, amount as int),
            Effect::RelocateTo(cell) => self.moved_to(player, cell),
            Effect::CollectFromEachPlayer(amount) => self.collected(player, amount as int, 0),
            Effect::GrantJailCard => self.card_granted(player),
            Effect::GoToJail => self.locked_up(player),
            _ => self.settled(player, self.levy(player, effect)->0, Payee::Kitty),
        }
    }

    /// Whether `player` is still in the game after `effect`.
    pub open spec fn survives(self, player: usize, effect: Effect) -> bool {
        match self.levy(player, effect) {
            Some(amount) => self.can_settle(player, amount),
            None => true,
        }
    }

    /// The properties that go back to the bank when `effect` is applied to `player`.
    pub open spec fn effect_forfeits(self, player: usize, effect: Effect) -> Seq<usize> {
        match self.levy(player, effect) {
            Some(amount) => self.forfeits(player, amount, Payee::Kitty),
            None => Seq::empty(),
        }
    }
}

impl GameView {
    /// The state after a community chest card was drawn: the card is at the
    /// back of its deck.
    pub open spec fn drawn_from_chest(self) -> GameView {
        GameView { community_chest: cycled(self.community_chest), ..self }
    }

    /// The state after a chance card was drawn: the card is at the back of its deck.
    pub open spec fn drawn_from_chance(self) -> GameView {
        GameView { chance: cycled(self.chance), ..self }
    }

    /// The state after the cell where the move of the player whose turn it is
    /// ended has had its effect. `dice` is the total of the roll, `buy` whether
    /// the player wants to buy a property that the bank holds.
    pub open spec fn landed(self, dice: int, buy: bool) -> GameView {
        let mover = self.current;
        let pos = self.here();
        match self.board[pos as int] {
            Space::Property(property) => match self.ledger[pos as int] {
                PropertyState::Unowned => if buy && self.can_buy(mover, pos) {
                    self.bought(mover, pos)
                } else {
                    self
                },
                PropertyState::Owned { player, .. } => if player == mover {
                    self
                } else {
                    self.settled(mover, self.rent_due(pos as int, dice), Payee::Player(player))
                },
                PropertyState::Mortgaged { .. } => self,
            },
            Space::Tax(amount) => self.settled(mover, amount as int, Payee::Kitty),
            Space::FreeParking => GameView { kitty: 0, ..self.credited(mover, self.kitty) },
            Space::GoToJail => self.locked_up(mover),
            Space::CommunityChest => self.drawn_from_chest().applied(
                mover,
                self.community_chest[0],
            ),
            Space::Chance => self.drawn_from_chance().applied(mover, self.chance[0]),
            _ => self,
        }
    }

    /// What the cell does to the player whose turn it is: see [`GameView::landed`].
    pub open spec fn cell_effect(self, dice: int, buy: bool) -> CellEffect {
        let mover = self.current;
        let pos = self.here();
        match self.board[pos as int] {
            Space::Property(property) => match self.ledger[pos as int] {
                PropertyState::Unowned => if buy && self.can_buy(mover, pos) {
                    CellEffect::Bought { property: pos, price: property.price as i64 }
                } else {
                    CellEffect::Declined { property: pos }
                },
                PropertyState::Owned { player, .. } => if player == mover {
                    CellEffect::Nothing
                } else {
                    CellEffect::Rent {
                        owner: player,
                        amount: self.rent_due(pos as int, dice) as i64,
                        paid: self.can_settle(mover, self.rent_due(pos as int, dice)),
                    }
                },
                PropertyState::Mortgaged { .. } => CellEffect::Nothing,
            },
            Space::Tax(amount) => CellEffect::Tax {
                amount: amount as i64,
                paid: self.can_settle(mover, amount as int),
            },
            Space::FreeParking => CellEffect::Kitty { amount: self.kitty as i64 },
            Space::GoToJail => CellEffect::Jailed,
            Space::CommunityChest => CellEffect::Card {
                effect: self.community_chest[0],
                paid: self.drawn_from_chest().survives(mover, self.community_chest[0]),
            },
            Space::Chance => CellEffect::Card {
                effect: self.chance[0],
                paid: self.drawn_from_chance().survives(mover, self.chance[0]),
            },
            _ => CellEffect::Nothing,
        }
    }

    /// The properties that the bank has to auction after the landing: see
    /// [`GameView::landed`].
    pub open spec fn landing_auctions(self, dice: int, buy: bool) -> Seq<usize> {
        let mover = self.current;
        let pos = self.here();
        match self.board[pos as int] {
            Space::Property(property) => match self.ledger[pos as int] {
                PropertyState::Unowned => if buy && self.can_buy(mover, pos) {
                    Seq::empty()
                } else {
                    seq![pos]
                },
                _ => Seq::empty(),
            },
            Space::Tax(amount) => self.forfeits(mover, amount as int, Payee::Kitty),
            Space::CommunityChest => self.drawn_from_chest().effect_forfeits(
                mover,
                self.community_chest[0],
            ),
            Space::Chance => self.drawn_from_chance().effect_forfeits(mover, self.chance[0]),
            _ => Seq::empty(),
        }
    }

    // ------------------------------------------------------------------
    // Validity
    // ------------------------------------------------------------------
    /// A move keeps the state valid and brings in the bonus at most.
    pub proof fn lemma_moved_to(self, player: usize, cell: usize)
        requires
            self.wf(),
            self.has_headroom(),
            self.active(player as int),
            cell < NUM_SPACES,
        ensures
            self.moved_to(player, cell).wf(),
            self.moved_to(player, cell).total_funds() <= self.total_funds() + GO_BONUS,
            forall|p: int| self.moved_to(player, cell).active(p) == self.active(p),
            self.same_table(self.moved_to(player, cell)),
    {
        let before = self.players[player as int];
        let bonus = if cell < before.current_position {
            GO_BONUS as int
        } else {
            0
        };
        self.lemma_balances(player as int);
        self.lemma_with_player(player, before.with_money(before.money + bonus).placed(cell));
    }

    /// Going to jail keeps the state valid and the money in the game.
    pub proof fn lemma_locked_up(self, player: usize)
        requires
            self.wf(),
            self.active(player as int),
        ensures
            self.locked_up(player).wf(),
            self.locked_up(player).total_funds() == self.total_funds(),
            forall|p: int| self.locked_up(player).active(p) == self.active(p),
            self.same_table(self.locked_up(player)),
    {
        self.lemma_with_player(player, self.players[player as int].locked_up());
    }

    /// A card for the jail keeps the state valid and the money in the game.
    pub proof fn lemma_card_granted(self, player: usize)
        requires
            self.wf(),
            self.active(player as int),
        ensures
            self.card_granted(player).wf(),
            self.card_granted(player).total_funds() == self.total_funds(),
            forall|p: int| self.card_granted(player).active(p) == self.active(p),
            self.same_table(self.card_granted(player)),
    {
        let before = self.players[player as int];
        self.lemma_with_player(
            player,
            Player {
                jail_cards: if before.jail_cards < MAX_JAIL_CARDS {
                    (before.jail_cards + 1) as u8
                } else {
                    before.jail_cards
                },
                ..before
            },
        );
    }

    /// A collection from the other players keeps the state valid, brings in no
    /// more than the bound, and leaves the collector in the game.
    pub proof fn lemma_collected(self, player: usize, amount: int, from: int)
        requires
            self.wf(),
            self.active(player as int),
            0 <= amount,
            0 <= from <= MAX_PLAYERS,
            self.has_room((MAX_PLAYERS - from) * SETTLE_GROWTH),
        ensures
            ({
                let next = self.collected(player, amount, from);
                &&& next.wf()
                &&& next.total_funds() <= self.total_funds() + (MAX_PLAYERS - from) * SETTLE_GROWTH
                &&& next.active(player as int)
                &&& self.same_table(next)
                &&& next.chance == self.chance
                &&& next.community_chest == self.community_chest
            }),
        decreases MAX_PLAYERS - from,
    {
        if from >= MAX_PLAYERS {
        } else if from != player && self.active(from) {
            let payee = Payee::Player(player);
            lemma_one_less(MAX_PLAYERS - from, SETTLE_GROWTH as int);
            self.lemma_settled(from as usize, amount, payee);
            self.settled(from as usize, amount, payee).lemma_collected(player, amount, from + 1);
        } else {
            lemma_one_less(MAX_PLAYERS - from, SETTLE_GROWTH as int);
            self.lemma_collected(player, amount, from + 1);
        }
    }

    /// No player holds a negative number of houses or hotels, nor more than
    /// four houses or one hotel to the cell.
    pub proof fn lemma_buildings_held(self, player: usize, upto: int)
        requires
            0 <= upto,
        ensures
            0 <= self.houses_held(player, upto) <= 4 * upto,
            0 <= self.hotels_held(player, upto) <= upto,
        decreases upto,
    {
        if upto > 0 {
            self.lemma_buildings_held(player, upto - 1);
        }
    }

    /// An assessment is not negative, and fits into 64 bits with room to spare.
    pub proof fn lemma_assessment(self, player: usize, per_house: int, per_hotel: int)
        requires
            0 <= per_house <= 0xffff_ffff,
            0 <= per_hotel <= 0xffff_ffff,
        ensures
            0 <= self.assessment(player, per_house, per_hotel) <= 200 * 0xffff_ffff,
    {
        self.lemma_buildings_held(player, NUM_SPACES as int);
        let houses = self.houses_held(player, NUM_SPACES as int);
        let hotels = self.hotels_held(player, NUM_SPACES as int);
        assert(0 <= per_house * houses <= 160 * 0xffff_ffff) by (nonlinear_arith)
            requires
                0 <= per_house <= 0xffff_ffff,
                0 <= houses <= 160,
        ;
        assert(0 <= per_hotel * hotels <= 40 * 0xffff_ffff) by (nonlinear_arith)
            requires
                0 <= per_hotel <= 0xffff_ffff,
                0 <= hotels <= 40,
        ;
    }

    /// A card keeps the state valid and brings in no more than the bound.
    pub proof fn lemma_applied(self, player: usize, effect: Effect)
        requires
            self.wf(),
            self.active(player as int),
            !self.is_finished(),
            self.has_room(LANDING_GROWTH as int),
            effect.wf(),
        ensures
            ({
                let next = self.applied(player, effect);
                &&& next.wf()
                &&& next.total_funds() <= self.total_funds() + LANDING_GROWTH
                &&& self.same_table(next)
                &&& next.active(player as int) == self.survives(player, effect)
                &&& self.levy(player, effect) matches Some(amount) ==> 0 <= amount <= 200
                    * 0xffff_ffff
            }),
    {
        self.lemma_rival(player as int);
        self.lemma_balances(player as int);
        match effect {
            Effect::CreditPlayer(amount) => {
                self.lemma_credited(player, amount as int);
            },
            Effect::RelocateTo(cell) => {
                self.lemma_moved_to(player, cell);
            },
            Effect::CollectFromEachPlayer(amount) => {
                self.lemma_collected(player, amount as int, 0);
            },
            Effect::GrantJailCard => {
                self.lemma_card_granted(player);
            },
            Effect::GoToJail => {
                self.lemma_locked_up(player);
            },
            Effect::DebitPlayer(amount) => {
                self.lemma_settled(player, amount as int, Payee::Kitty);
            },
            Effect::PerBuildingAssessment { per_house, per_hotel } => {
                self.lemma_assessment(player, per_house as int, per_hotel as int);
                self.lemma_settled(
                    player,
                    self.assessment(player, per_house as int, per_hotel as int),
                    Payee::Kitty,
                );
            },
        }
    }

    /// The rent owed on a cell is not negative and fits into 64 bits with room to spare.
    pub proof fn lemma_rent_due(self, pos: int, dice: int)
        requires
            0 <= dice <= 255,
        ensures
            0 <= self.rent_due(pos, dice) <= 255 * 0xffff_ffff,
    {
        match self.ledger[pos] {
            PropertyState::Owned { player, .. } => {
                if self.is_property(pos) {
                    match self.property(pos).rent {
                        Rent::Utility { base, monopoly } => {
                            assert(0 <= dice * base <= 255 * 0xffff_ffff) by (nonlinear_arith)
                                requires
                                    0 <= dice <= 255,
                                    0 <= base <= 0xffff_ffff,
                            ;
                            assert(0 <= dice * monopoly <= 255 * 0xffff_ffff) by (nonlinear_arith)
                                requires
                                    0 <= dice <= 255,
                                    0 <= monopoly <= 0xffff_ffff,
                            ;
                        },
                        _ => {},
                    }
                }
            },
            _ => {},
        }
    }

    /// A landing keeps the state valid and brings in no more than the bound.
    /// It takes the player whose turn it is out of the game only by a debt
    /// that the player could not settle.
    pub proof fn lemma_landed(self, dice: int, buy: bool)
        requires
            self.wf(),
            self.active(self.current as int),
            !self.is_finished(),
            self.has_room(LANDING_GROWTH as int),
            0 <= dice <= 255,
        ensures
            ({
                let next = self.landed(dice, buy);
                &&& next.wf()
                &&& next.total_funds() <= self.total_funds() + LANDING_GROWTH
                &&& self.same_table(next)
            }),
    {
        let mover = self.current;
        let pos = self.here();
        assert(self.players[mover as int].wf());
        assert(self.entry_wf(pos as int));
        self.lemma_rival(mover as int);
        self.lemma_balances(mover as int);
        self.lemma_rent_due(pos as int, dice);
        match self.board[pos as int] {
            Space::Property(property) => match self.ledger[pos as int] {
                PropertyState::Unowned => {
                    if buy && self.can_buy(mover, pos) {
                        self.lemma_awarded(pos, mover, property.price as int);
                    }
                },
                PropertyState::Owned { player, .. } => {
                    if player != mover {
                        self.lemma_settled(
                            mover,
                            self.rent_due(pos as int, dice),
                            Payee::Player(player),
                        );
                    }
                },
                PropertyState::Mortgaged { .. } => {},
            },
            Space::Tax(amount) => {
                self.lemma_settled(mover, amount as int, Payee::Kitty);
            },
            Space::FreeParking => {
                self.lemma_credited(mover, self.kitty);
                let paid = self.credited(mover, self.kitty);
                let next = GameView { kitty: 0, ..paid };
                paid.lemma_same_holdings(next);
            },
            Space::GoToJail => {
                self.lemma_locked_up(mover);
            },
            Space::CommunityChest => {
                let drawn = self.drawn_from_chest();
                lemma_cycled_wf(self.community_chest);
                self.lemma_same_holdings(drawn);
                assert(drawn.is_finished() == self.is_finished());
                drawn.lemma_applied(mover, self.community_chest[0]);
            },
            Space::Chance => {
                let drawn = self.drawn_from_chance();
                lemma_cycled_wf(self.chance);
                self.lemma_same_holdings(drawn);
                assert(drawn.is_finished() == self.is_finished());
                drawn.lemma_applied(mover, self.chance[0]);
            },
            _ => {},
        }
    }
}

impl Game {
    /// Moves `player` to `cell`, with the bonus where the move passes the start.
    pub(crate) fn move_to(&mut self, player: usize, cell: usize)
        requires
            old(self)@.wf(),
            old(self)@.has_headroom(),
            old(self)@.active(player as int),
            cell < NUM_SPACES,
        ensures
            final(self)@ == old(self)@.moved_to(player, cell),
    {
        proof {
            old(self)@.lemma_balances(player as int);
        }
        if cell < self.players[player].current_position {
            self.players[player].money = self.players[player].money + GO_BONUS;
        }
        self.players[player].current_position = cell;
        self.players[player].jail = if cell == JAIL {
            JailStatus::Visiting
        } else {
            JailStatus::Free
        };
        assert(self@ =~= old(self)@.moved_to(player, cell));
    }

    /// Puts `player` in jail.
    pub(crate) fn lock_up(&mut self, player: usize)
        requires
            player < old(self).players@.len(),
        ensures
            final(self)@ == old(self)@.locked_up(player),
    {
        self.players[player].current_position = JAIL;
        self.players[player].jail = JailStatus::Jailed(JAIL_ATTEMPTS);
        self.players[player].doubles = 0;
        assert(self@ =~= old(self)@.locked_up(player));
    }

    /// The houses that `player` has on the board.
    pub fn houses_held(&self, player: usize) -> (count: u32)
        requires
            self.ledger@.len() == NUM_SPACES,
        ensures
            count == self@.houses_held(player, NUM_SPACES as int),
            count <= 160,
    {
        let mut count: u32 = 0;
        let mut cell: usize = 0;
        while cell < NUM_SPACES
            invariant
                cell <= NUM_SPACES,
                count <= 4 * cell,
                self.ledger@.len() == NUM_SPACES,
                count == self@.houses_held(player, cell as int),
            decreases NUM_SPACES - cell,
        {
            let here = match self.ledger[cell] {
                PropertyState::Owned { player: holder, level } if holder == player
                    => level.house_count(),
                _ => 0,
            };
            count += here;
            cell += 1;
        }
        count
    }

    /// The hotels that `player` has on the board.
    pub fn hotels_held(&self, player: usize) -> (count: u32)
        requires
            self.ledger@.len() == NUM_SPACES,
        ensures
            count == self@.hotels_held(player, NUM_SPACES as int),
            count <= 40,
    {
        let mut count: u32 = 0;
        let mut cell: usize = 0;
        while cell < NUM_SPACES
            invariant
                cell <= NUM_SPACES,
                count <= cell,
                self.ledger@.len() == NUM_SPACES,
                count == self@.hotels_held(player, cell as int),
            decreases NUM_SPACES - cell,
        {
            let here = match self.ledger[cell] {
                PropertyState::Owned { player: holder, level } if holder == player
                    => level.hotel_count(),
                _ => 0,
            };
            count += here;
            cell += 1;
        }
        count
    }

    /// Every other player who is in the game settles a debt of `amount` to
    /// `player`, in the order of their turns.
    fn collect_from_each(&mut self, player: usize, amount: i64)
        requires
            old(self)@.wf(),
            old(self)@.active(player as int),
            0 <= amount,
            old(self)@.has_room(LANDING_GROWTH as int),
        ensures
            final(self)@ == old(self)@.collected(player, amount as int, 0),
    {
        let mut payer: usize = 0;
        while payer < MAX_PLAYERS
            invariant
                payer <= MAX_PLAYERS,
                self@.wf(),
                self@.active(player as int),
                0 <= amount,
                self@.has_room((MAX_PLAYERS - payer) * SETTLE_GROWTH),
                old(self)@.collected(player, amount as int, 0) == self@.collected(
                    player,
                    amount as int,
                    payer as int,
                ),
            decreases MAX_PLAYERS - payer,
        {
            proof {
                lemma_one_less(MAX_PLAYERS - payer, SETTLE_GROWTH as int);
            }
            if payer != player && self.is_active(payer) {
                proof {
                    self@.lemma_settled(payer, amount as int, Payee::Player(player));
                }
                let _ = self.settle(payer, amount, Payee::Player(player));
            }
            payer += 1;
        }
    }

    /// Applies `effect` to `player`.
    ///
    /// The result says whether the player is still in the game, and which
    /// properties went back to the bank if not.
    pub fn apply_effect(&mut self, player: usize, effect: Effect) -> (result: Settlement)
        requires
            old(self)@.wf(),
            old(self)@.active(player as int),
            !old(self)@.is_finished(),
            old(self)@.has_room(LANDING_GROWTH as int),
            effect.wf(),
        ensures
            final(self)@ == old(self)@.applied(player, effect),
            result.solvent == old(self)@.survives(player, effect),
            result.forfeited@ == old(self)@.effect_forfeits(player, effect),
            final(self)@.wf(),
            final(self)@.total_funds() <= old(self)@.total_funds() + LANDING_GROWTH,
            old(self)@.same_table(final(self)@),
    {
        proof {
            old(self)@.lemma_applied(player, effect);
            old(self)@.lemma_rival(player as int);
            old(self)@.lemma_balances(player as int);
        }
        match effect {
            Effect::CreditPlayer(amount) => {
                self.players[player].money = self.players[player].money + amount as i64;
                assert(self@ =~= old(self)@.credited(player, amount as int));
                Settlement { solvent: true, forfeited: Vec::new() }
            },
            Effect::RelocateTo(cell) => {
                self.move_to(player, cell);
                Settlement { solvent: true, forfeited: Vec::new() }
            },
            Effect::CollectFromEachPlayer(amount) => {
                self.collect_from_each(player, amount as i64);
                Settlement { solvent: true, forfeited: Vec::new() }
            },
            Effect::GrantJailCard => {
                if self.players[player].jail_cards < MAX_JAIL_CARDS {
                    self.players[player].jail_cards = self.players[player].jail_cards + 1;
                }
                assert(self@ =~= old(self)@.card_granted(player));
                Settlement { solvent: true, forfeited: Vec::new() }
            },
            Effect::GoToJail => {
                self.lock_up(player);
                Settlement { solvent: true, forfeited: Vec::new() }
            },
            Effect::DebitPlayer(amount) => self.settle(player, amount as i64, Payee::Kitty),
            Effect::PerBuildingAssessment { per_house, per_hotel } => {
                let houses = self.houses_held(player) as i64;
                let hotels = self.hotels_held(player) as i64;
                proof {
                    old(self)@.lemma_assessment(player, per_house as int, per_hotel as int);
                    assert(0 <= per_house * houses <= 160 * 0xffff_ffff) by (nonlinear_arith)
                        requires
                            0 <= per_house <= 0xffff_ffff,
                            0 <= houses <= 160,
                    ;
                    assert(0 <= per_hotel * hotels <= 40 * 0xffff_ffff) by (nonlinear_arith)
                        requires
                            0 <= per_hotel <= 0xffff_ffff,
                            0 <= hotels <= 40,
                    ;
                }
                let amount = per_house as i64 * houses + per_hotel as i64 * hotels;
                self.settle(player, amount, Payee::Kitty)
            },
        }
    }

    /// The cell on which the player whose turn it is stands has its effect.
    ///
    /// `dice` is the total of the roll that brought the player, `buy` whether
    /// the player wants to buy a property that the bank holds. What the player
    /// owes and cannot pay outright is settled as [`Game::settle`] says.
    pub fn land(&mut self, dice: u8, buy: bool) -> (landing: Landing)
        requires
            old(self)@.wf(),
            old(self)@.active(old(self)@.current as int),
            !old(self)@.is_finished(),
            old(self)@.has_room(LANDING_GROWTH as int),
        ensures
            final(self)@ == old(self)@.landed(dice as int, buy),
            landing.effect == old(self)@.cell_effect(dice as int, buy),
            landing.to_auction@ == old(self)@.landing_auctions(dice as int, buy),
            final(self)@.wf(),
            final(self)@.total_funds() <= old(self)@.total_funds() + LANDING_GROWTH,
            old(self)@.same_table(final(self)@),
    {
        let mover = self.current;
        let pos = self.players[mover].current_position;
        proof {
            old(self)@.lemma_landed(dice as int, buy);
            old(self)@.lemma_rival(mover as int);
            old(self)@.lemma_balances(mover as int);
            old(self)@.lemma_rent_due(pos as int, dice as int);
            assert(old(self)@.players[mover as int].wf());
            assert(old(self)@.entry_wf(pos as int));
        }
        match self.board.0[pos] {
            Space::Property(property) => match self.ledger[pos] {
                PropertyState::Unowned => {
                    if buy && self.players[mover].money >= property.price as i64 {
                        let _ = self.buy(mover, pos);
                        Landing {
                            effect: CellEffect::Bought { property: pos, price: property.price as i64 },
                            to_auction: Vec::new(),
                        }
                    } else {
                        let mut to_auction: Vec<usize> = Vec::new();
                        to_auction.push(pos);
                        assert(to_auction@ =~= seq![pos]);
                        Landing { effect: CellEffect::Declined { property: pos }, to_auction }
                    }
                },
                PropertyState::Owned { player, .. } => {
                    if player == mover {
                        Landing { effect: CellEffect::Nothing, to_auction: Vec::new() }
                    } else {
                        let amount = self.rent_due(pos, dice);
                        let settlement = self.settle(mover, amount, Payee::Player(player));
                        Landing {
                            effect: CellEffect::Rent {
                                owner: player,
                                amount,
                                paid: settlement.solvent,
                            },
                            to_auction: settlement.forfeited,
                        }
                    }
                },
                PropertyState::Mortgaged { .. } => Landing {
                    effect: CellEffect::Nothing,
                    to_auction: Vec::new(),
                },
            },
            Space::Tax(amount) => {
                let settlement = self.settle(mover, amount as i64, Payee::Kitty);
                Landing {
                    effect: CellEffect::Tax { amount: amount as i64, paid: settlement.solvent },
                    to_auction: settlement.forfeited,
                }
            },
            Space::FreeParking => {
                let amount = self.kitty;
                proof {
                    lemma_sum_money_bounds(old(self)@.players, mover as int);
                }
                self.players[mover].money = self.players[mover].money + amount;
                self.kitty = 0;
                assert(self@ =~= old(self)@.landed(dice as int, buy));
                Landing { effect: CellEffect::Kitty { amount }, to_auction: Vec::new() }
            },
            Space::GoToJail => {
                self.lock_up(mover);
                Landing { effect: CellEffect::Jailed, to_auction: Vec::new() }
            },
            Space::CommunityChest => {
                let effect = self.community_chest.draw();
                proof {
                    let drawn = old(self)@.drawn_from_chest();
                    assert(self@ =~= drawn);
                    lemma_cycled_wf(old(self)@.community_chest);
                    old(self)@.lemma_same_holdings(drawn);
                    assert(drawn.is_finished() == old(self)@.is_finished());
                }
                let settlement = self.apply_effect(mover, effect);
                Landing {
                    effect: CellEffect::Card { effect, paid: settlement.solvent },
                    to_auction: settlement.forfeited,
                }
            },
            Space::Chance => {
                let effect = self.chance.draw();
                proof {
                    let drawn = old(self)@.drawn_from_chance();
                    assert(self@ =~= drawn);
                    lemma_cycled_wf(old(self)@.chance);
                    old(self)@.lemma_same_holdings(drawn);
                    assert(drawn.is_finished() == old(self)@.is_finished());
                }
                let settlement = self.apply_effect(mover, effect);
                Landing {
                    effect: CellEffect::Card { effect, paid: settlement.solvent },
                    to_auction: settlement.forfeited,
                }
            },
            _ => Landing { effect: CellEffect::Nothing, to_auction: Vec::new() },
        }
    }
}

impl GameView {
    // ------------------------------------------------------------------
    // What is to be auctioned
    // ------------------------------------------------------------------
    /// What goes back to the bank when a card is applied are properties that
    /// the bank then holds, each listed once.
    pub proof fn lemma_effect_forfeits(self, player: usize, effect: Effect)
        requires
            self.wf(),
            self.has_room(SETTLE_GROWTH as int),
            self.can_owe(player, Payee::Kitty),
            effect.wf(),
        ensures
            self.applied(player, effect).for_sale(self.effect_forfeits(player, effect)),
    {
        match effect {
            Effect::DebitPlayer(amount) => {
                self.lemma_forfeits(player, amount as int);
            },
            Effect::PerBuildingAssessment { per_house, per_hotel } => {
                self.lemma_assessment(player, per_house as int, per_hotel as int);
                self.lemma_forfeits(
                    player,
                    self.assessment(player, per_house as int, per_hotel as int),
                );
            },
            _ => {},
        }
    }

    /// What is to be auctioned after a landing are properties that the bank
    /// then holds, each listed once.
    pub proof fn lemma_landing_auctions(self, dice: int, buy: bool)
        requires
            self.wf(),
            self.active(self.current as int),
            !self.is_finished(),
            self.has_room(LANDING_GROWTH as int),
            0 <= dice <= 255,
        ensures
            self.landed(dice, buy).for_sale(self.landing_auctions(dice, buy)),
    {
        let mover = self.current;
        let pos = self.here();
        assert(self.mover().wf());
        self.lemma_rival(mover as int);
        match self.board[pos as int] {
            Space::Tax(amount) => {
                self.lemma_forfeits(mover, amount as int);
            },
            Space::CommunityChest => {
                let drawn = self.drawn_from_chest();
                lemma_cycled_wf(self.community_chest);
                self.lemma_same_holdings(drawn);
                assert(drawn.has_rival(mover as int)) by {
                    let rival = choose|q: int| #[trigger] self.active(q) && q != mover;
                    assert(drawn.active(rival));
                }
                let effect = self.community_chest[0];
                assert(effect.wf());
                drawn.lemma_effect_forfeits(mover, effect);
            },
            Space::Chance => {
                let drawn = self.drawn_from_chance();
                lemma_cycled_wf(self.chance);
                self.lemma_same_holdings(drawn);
                assert(drawn.has_rival(mover as int)) by {
                    let rival = choose|q: int| #[trigger] self.active(q) && q != mover;
                    assert(drawn.active(rival));
                }
                let effect = self.chance[0];
                assert(effect.wf());
                drawn.lemma_effect_forfeits(mover, effect);
            },
            _ => {},
        }
    }
}

} // verus!
