//! The property rules: buying, building, selling buildings, mortgaging, and
//! the rent that a visitor owes.

use vstd::prelude::*;
use crate::board::NUM_SPACES;
use crate::game::{Game, GameError};
use crate::model::{GameView, MAX_HOTELS, MAX_HOUSES};
use crate::property::{Property, PropertyState, RentType};

verus! {

impl GameView {
    /// The state after cell `pos` has changed hands or condition. It is valid
    /// where the new record names a player who is in the game, where buildings
    /// in it stand on a street whose group the holder has intact, and where the
    /// change takes nothing from a group that is built on.
    pub proof fn lemma_recorded(self, pos: int, entry: PropertyState)
        requires
            self.wf(),
            0 <= pos < NUM_SPACES,
            entry matches PropertyState::Owned { player, level } ==> self.is_property(pos)
                && self.active(player as int) && (level.buildings() > 0 ==> self.property(
                pos,
            ).group.is_street() && self.group_intact(player, pos)),
            entry matches PropertyState::Mortgaged { player } ==> self.is_property(pos)
                && self.active(player as int),
            (entry is Owned && self.ledger[pos] is Owned && entry.owner() == self.ledger[pos].owner())
                || self.group_unbuilt(pos) || !(self.ledger[pos] is Owned),
        ensures
            self.recorded(pos, entry).wf(),
            self.recorded(pos, entry).total_funds() == self.total_funds(),
    {
        let next = self.recorded(pos, entry);
        assert forall|p: int| self.active(p) == next.active(p) by {}
        assert forall|a: int, b: int| self.same_group(a, b) == next.same_group(a, b) by {}
        assert(self.same_group(pos, pos) || !self.is_property(pos));
        assert forall|cell: int| 0 <= cell < NUM_SPACES implies #[trigger] next.entry_wf(cell) by {
            assert(self.entry_wf(cell));
            if cell == pos {
                if let PropertyState::Owned { player, level } = entry {
                    if level.buildings() > 0 {
                        assert forall|q: int| #[trigger]
                            next.same_group(pos, q) implies (next.ledger[q] matches PropertyState::Owned {
                            player: holder,
                            ..
                        } && holder == player) by {
                            assert(self.same_group(pos, q));
                            assert(self.same_group(pos, pos));
                        }
                    }
                }
            } else {
                if let PropertyState::Owned { player, level } = self.ledger[cell] {
                    if level.buildings() > 0 {
                        assert forall|q: int| #[trigger]
                            next.same_group(cell, q) implies (next.ledger[q] matches PropertyState::Owned {
                            player: holder,
                            ..
                        } && holder == player) by {
                            assert(self.same_group(cell, q));
                            if q == pos {
                                assert(self.same_group(pos, cell));
                            }
                        }
                    }
                }
            }
        }
        let witness = choose|p: int| #[trigger] self.active(p);
        assert(next.active(witness));
    }

    // ------------------------------------------------------------------
    // Buying
    // ------------------------------------------------------------------
    /// Whether `player` may take the property on `pos` from the bank for `price`.
    pub open spec fn can_take(self, player: usize, pos: usize, price: int) -> bool {
        &&& self.active(player as int)
        &&& self.is_property(pos as int)
        &&& pos < NUM_SPACES
        &&& self.ledger[pos as int] is Unowned
        &&& 0 <= price <= self.money(player as int)
    }

    /// The state in which `player` has taken the property on `pos` from the bank
    /// for `price`, without buildings.
    pub open spec fn awarded(self, pos: usize, player: usize, price: int) -> GameView {
        self.credited(player, -price).recorded(
            pos as int,
            PropertyState::Owned { player, level: RentType::Base },
        )
    }

    /// Whether `player` may buy the property on `pos`: the bank holds it and the
    /// player has the price.
    pub open spec fn can_buy(self, player: usize, pos: usize) -> bool {
        self.is_property(pos as int) && self.can_take(
            player,
            pos,
            self.property(pos as int).price as int,
        )
    }

    /// The state in which `player` has bought the property on `pos` at its price.
    pub open spec fn bought(self, player: usize, pos: usize) -> GameView {
        self.awarded(pos, player, self.property(pos as int).price as int)
    }

    /// Taking a property from the bank keeps the state valid and takes the price
    /// out of the game.
    pub proof fn lemma_awarded(self, pos: usize, player: usize, price: int)
        requires
            self.wf(),
            self.can_take(player, pos, price),
        ensures
            self.awarded(pos, player, price).wf(),
            self.awarded(pos, player, price).total_funds() == self.total_funds() - price,
            self.awarded(pos, player, price).money(player as int) == self.money(player as int)
                - price,
    {
        self.lemma_credited(player, -price);
        let paid = self.credited(player, -price);
        assert(paid.entry_wf(pos as int));
        paid.lemma_recorded(pos as int, PropertyState::Owned { player, level: RentType::Base });
    }

    // ------------------------------------------------------------------
    // Building
    // ------------------------------------------------------------------
    /// Whether the bank still has the building that the next step up from
    /// `level` takes: a house below four houses, a hotel after that.
    pub open spec fn supply_allows(self, level: RentType) -> bool {
        if level == RentType::House4 {
            self.hotels_in_use(NUM_SPACES as int) < MAX_HOTELS
        } else {
            self.houses_in_use(NUM_SPACES as int) < MAX_HOUSES
        }
    }

    /// Whether a building may be added on `pos`: it is a street that a player
    /// holds with the whole of its group, none of the group is mortgaged, there
    /// is no hotel on it yet, the bank has the building, and the holder has its
    /// cost.
    pub open spec fn can_build(self, pos: usize) -> bool {
        &&& pos < NUM_SPACES
        &&& self.is_property(pos as int)
        &&& self.property(pos as int).building matches Some(cost)
        &&& self.ledger[pos as int] matches PropertyState::Owned { player, level }
        &&& level != RentType::Hotel
        &&& self.group_intact(player, pos as int)
        &&& self.supply_allows(level)
        &&& self.money(player as int) >= cost
    }

    /// The state in which the holder of `pos` has paid for one more building on it.
    pub open spec fn built(self, pos: usize) -> GameView {
        let holder = self.ledger[pos as int]->Owned_player;
        self.credited(holder, -(self.property(pos as int).building->0 as int)).recorded(
            pos as int,
            PropertyState::Owned { player: holder, level: self.tier(pos as int).upgraded() },
        )
    }

    /// Building keeps the state valid and takes the cost out of the game.
    pub proof fn lemma_built(self, pos: usize)
        requires
            self.wf(),
            self.can_build(pos),
        ensures
            self.built(pos).wf(),
            self.built(pos).total_funds() == self.total_funds() - self.property(
                pos as int,
            ).building->0,
            self.tier(pos as int).rank() >= 1,
            self.built(pos).ledger[pos as int].buildings() == self.ledger[pos as int].buildings()
                + 1,
    {
        let holder = self.ledger[pos as int]->Owned_player;
        let cost = self.property(pos as int).building->0 as int;
        assert(self.entry_wf(pos as int));
        assert(self.holds_group(holder, pos as int)) by {
            assert forall|q: int| #[trigger] self.same_group(pos as int, q) implies self.ledger[q].owner()
                == Some(holder) by {}
        }
        self.lemma_credited(holder, -cost);
        let paid = self.credited(holder, -cost);
        assert(paid.entry_wf(pos as int));
        assert(paid.group_intact(holder, pos as int)) by {
            assert forall|q: int| #[trigger]
                paid.same_group(pos as int, q) implies (paid.ledger[q] matches PropertyState::Owned {
                player: who,
                ..
            } && who == holder) by {
                assert(self.same_group(pos as int, q));
            }
        }
        paid.lemma_recorded(
            pos as int,
            PropertyState::Owned { player: holder, level: self.tier(pos as int).upgraded() },
        );
    }

    // ------------------------------------------------------------------
    // Selling buildings
    // ------------------------------------------------------------------
    /// Whether a building can be sold from `pos`: one stands there.
    pub open spec fn can_sell(self, pos: usize) -> bool {
        &&& pos < NUM_SPACES
        &&& self.ledger[pos as int].buildings() > 0
    }

    /// The state in which the holder of `pos` has sold one building from it to
    /// the bank, for half its cost.
    pub open spec fn sold(self, pos: usize) -> GameView {
        let holder = self.ledger[pos as int]->Owned_player;
        let level = self.ledger[pos as int]->Owned_level;
        self.credited(holder, self.property(pos as int).resale()).recorded(
            pos as int,
            PropertyState::Owned { player: holder, level: level.downgraded() },
        )
    }

    /// Selling a building keeps the state valid and brings half its cost into
    /// the game.
    pub proof fn lemma_sold(self, pos: usize)
        requires
            self.wf(),
            self.can_sell(pos),
            self.has_headroom(),
        ensures
            self.sold(pos).wf(),
            self.sold(pos).total_funds() == self.total_funds() + self.property(
                pos as int,
            ).resale(),
            0 <= self.property(pos as int).resale() <= 0x7fff_ffff,
            self.sold(pos).ledger[pos as int].buildings() == self.ledger[pos as int].buildings()
                - 1,
    {
        let holder = self.ledger[pos as int]->Owned_player;
        let level = self.ledger[pos as int]->Owned_level;
        let gain = self.property(pos as int).resale();
        assert(self.entry_wf(pos as int));
        self.lemma_balances(holder as int);
        self.lemma_credited(holder, gain);
        let paid = self.credited(holder, gain);
        assert(paid.entry_wf(pos as int));
        assert(paid.group_intact(holder, pos as int)) by {
            assert forall|q: int| #[trigger]
                paid.same_group(pos as int, q) implies (paid.ledger[q] matches PropertyState::Owned {
                player: who,
                ..
            } && who == holder) by {
                assert(self.same_group(pos as int, q));
            }
        }
        paid.lemma_recorded(
            pos as int,
            PropertyState::Owned { player: holder, level: level.downgraded() },
        );
    }

    // ------------------------------------------------------------------
    // Mortgages
    // ------------------------------------------------------------------
    /// Whether `pos` can be mortgaged: a player holds it unmortgaged and no
    /// building stands on any property of its group.
    pub open spec fn can_mortgage(self, pos: usize) -> bool {
        &&& pos < NUM_SPACES
        &&& self.ledger[pos as int] is Owned
        &&& self.group_unbuilt(pos as int)
    }

    /// The state in which the holder of `pos` has mortgaged it to the bank.
    pub open spec fn mortgaged(self, pos: usize) -> GameView {
        let holder = self.ledger[pos as int]->Owned_player;
        self.credited(holder, self.property(pos as int).mortgage as int).recorded(
            pos as int,
            PropertyState::Mortgaged { player: holder },
        )
    }

    /// Mortgaging keeps the state valid and brings the mortgage value into the game.
    pub proof fn lemma_mortgaged(self, pos: usize)
        requires
            self.wf(),
            self.can_mortgage(pos),
            self.has_headroom(),
        ensures
            self.mortgaged(pos).wf(),
            self.mortgaged(pos).total_funds() == self.total_funds() + self.property(
                pos as int,
            ).mortgage,
    {
        let holder = self.ledger[pos as int]->Owned_player;
        let gain = self.property(pos as int).mortgage as int;
        assert(self.entry_wf(pos as int));
        self.lemma_balances(holder as int);
        self.lemma_credited(holder, gain);
        let paid = self.credited(holder, gain);
        assert(paid.entry_wf(pos as int));
        assert(paid.group_unbuilt(pos as int)) by {
            assert forall|q: int| #[trigger] paid.same_group(pos as int, q) implies paid.ledger[q].buildings()
                == 0 by {
                assert(self.same_group(pos as int, q));
            }
        }
        paid.lemma_recorded(pos as int, PropertyState::Mortgaged { player: holder });
    }

    /// Whether the mortgage on `pos` can be lifted: it is mortgaged and the
    /// holder has the mortgage value with the interest on it.
    pub open spec fn can_unmortgage(self, pos: usize) -> bool {
        &&& pos < NUM_SPACES
        &&& self.ledger[pos as int] matches PropertyState::Mortgaged { player }
        &&& self.money(player as int) >= self.property(pos as int).redemption()
    }

    /// The state in which the holder of `pos` has lifted the mortgage on it.
    pub open spec fn unmortgaged(self, pos: usize) -> GameView {
        let holder = self.ledger[pos as int]->Mortgaged_player;
        self.credited(holder, -self.property(pos as int).redemption()).recorded(
            pos as int,
            PropertyState::Owned { player: holder, level: RentType::Base },
        )
    }

    /// Lifting a mortgage keeps the state valid and takes its cost out of the game.
    pub proof fn lemma_unmortgaged(self, pos: usize)
        requires
            self.wf(),
            self.can_unmortgage(pos),
        ensures
            self.unmortgaged(pos).wf(),
            self.unmortgaged(pos).total_funds() == self.total_funds() - self.property(
                pos as int,
            ).redemption(),
    {
        let holder = self.ledger[pos as int]->Mortgaged_player;
        let cost = self.property(pos as int).redemption();
        assert(self.entry_wf(pos as int));
        self.lemma_credited(holder, -cost);
        let paid = self.credited(holder, -cost);
        assert(paid.entry_wf(pos as int));
        paid.lemma_recorded(
            pos as int,
            PropertyState::Owned { player: holder, level: RentType::Base },
        );
    }
}

impl Game {
    // ------------------------------------------------------------------
    // Reading the record
    // ------------------------------------------------------------------
    /// Whether the properties on `a` and `b` belong to one group.
    pub fn same_group(&self, a: usize, b: usize) -> (same: bool)
        ensures
            same == self@.same_group(a as int, b as int),
    {
        match (self.property_at(a), self.property_at(b)) {
            (Some(first), Some(second)) => first.group == second.group,
            _ => false,
        }
    }

    /// Whether `player` holds every property of the group of `pos`, mortgaged or not.
    pub fn holds_group(&self, player: usize, pos: usize) -> (holds: bool)
        requires
            self.board.0@.len() == NUM_SPACES,
            self.ledger@.len() == NUM_SPACES,
        ensures
            holds == self@.holds_group(player, pos as int),
    {
        let mut cell: usize = 0;
        while cell < NUM_SPACES
            invariant
                cell <= NUM_SPACES,
                self.board.0@.len() == NUM_SPACES,
                self.ledger@.len() == NUM_SPACES,
                forall|q: int|
                    q < cell && #[trigger] self@.same_group(pos as int, q)
                        ==> self@.ledger[q].owner() == Some(player),
            decreases NUM_SPACES - cell,
        {
            if self.same_group(pos, cell) {
                let held = match self.ledger[cell].holder() {
                    Some(holder) => holder == player,
                    None => false,
                };
                if !held {
                    assert(self@.same_group(pos as int, cell as int));
                    return false;
                }
            }
            cell += 1;
        }
        true
    }

    /// Whether `player` holds every property of the group of `pos` and none of
    /// them is mortgaged.
    pub fn group_intact(&self, player: usize, pos: usize) -> (intact: bool)
        requires
            self.board.0@.len() == NUM_SPACES,
            self.ledger@.len() == NUM_SPACES,
        ensures
            intact == self@.group_intact(player, pos as int),
    {
        let mut cell: usize = 0;
        while cell < NUM_SPACES
            invariant
                cell <= NUM_SPACES,
                self.board.0@.len() == NUM_SPACES,
                self.ledger@.len() == NUM_SPACES,
                forall|q: int|
                    q < cell && #[trigger] self@.same_group(pos as int, q) ==> (
                    self@.ledger[q] matches PropertyState::Owned { player: holder, .. } && holder
                        == player),
            decreases NUM_SPACES - cell,
        {
            if self.same_group(pos, cell) {
                let held = match self.ledger[cell] {
                    PropertyState::Owned { player: holder, .. } => holder == player,
                    _ => false,
                };
                if !held {
                    assert(self@.same_group(pos as int, cell as int));
                    return false;
                }
            }
            cell += 1;
        }
        true
    }

    /// Whether no building stands on any property of the group of `pos`.
    pub fn group_unbuilt(&self, pos: usize) -> (unbuilt: bool)
        requires
            self.board.0@.len() == NUM_SPACES,
            self.ledger@.len() == NUM_SPACES,
        ensures
            unbuilt == self@.group_unbuilt(pos as int),
    {
        let mut cell: usize = 0;
        while cell < NUM_SPACES
            invariant
                cell <= NUM_SPACES,
                self.board.0@.len() == NUM_SPACES,
                self.ledger@.len() == NUM_SPACES,
                forall|q: int|
                    q < cell && #[trigger] self@.same_group(pos as int, q)
                        ==> self@.ledger[q].buildings() == 0,
            decreases NUM_SPACES - cell,
        {
            if self.same_group(pos, cell) {
                let built = match self.ledger[cell] {
                    PropertyState::Owned { level, .. } => level.has_houses(),
                    _ => false,
                };
                if built {
                    assert(self@.same_group(pos as int, cell as int));
                    return false;
                }
            }
            cell += 1;
        }
        true
    }

    /// How many properties of the group of `pos` `player` holds.
    pub fn owned_in_group(&self, player: usize, pos: usize) -> (count: usize)
        requires
            self.board.0@.len() == NUM_SPACES,
            self.ledger@.len() == NUM_SPACES,
        ensures
            count == self@.owned_in_group(player, pos as int, NUM_SPACES as int),
            count <= NUM_SPACES,
    {
        let mut count: usize = 0;
        let mut cell: usize = 0;
        while cell < NUM_SPACES
            invariant
                cell <= NUM_SPACES,
                count <= cell,
                self.board.0@.len() == NUM_SPACES,
                self.ledger@.len() == NUM_SPACES,
                count == self@.owned_in_group(player, pos as int, cell as int),
            decreases NUM_SPACES - cell,
        {
            if self.same_group(pos, cell) {
                let held = match self.ledger[cell].holder() {
                    Some(holder) => holder == player,
                    None => false,
                };
                if held {
                    count += 1;
                }
            }
            cell += 1;
        }
        count
    }

    /// The houses that stand on the board.
    pub fn houses_in_use(&self) -> (count: u32)
        requires
            self.ledger@.len() == NUM_SPACES,
        ensures
            count == self@.houses_in_use(NUM_SPACES as int),
    {
        let mut count: u32 = 0;
        let mut cell: usize = 0;
        while cell < NUM_SPACES
            invariant
                cell <= NUM_SPACES,
                count <= 4 * cell,
                self.ledger@.len() == NUM_SPACES,
                count == self@.houses_in_use(cell as int),
            decreases NUM_SPACES - cell,
        {
            let here = match self.ledger[cell] {
                PropertyState::Owned { level, .. } => level.house_count(),
                _ => 0,
            };
            count += here;
            cell += 1;
        }
        count
    }

    /// The hotels that stand on the board.
    pub fn hotels_in_use(&self) -> (count: u32)
        requires
            self.ledger@.len() == NUM_SPACES,
        ensures
            count == self@.hotels_in_use(NUM_SPACES as int),
    {
        let mut count: u32 = 0;
        let mut cell: usize = 0;
        while cell < NUM_SPACES
            invariant
                cell <= NUM_SPACES,
                count <= cell,
                self.ledger@.len() == NUM_SPACES,
                count == self@.hotels_in_use(cell as int),
            decreases NUM_SPACES - cell,
        {
            let here = match self.ledger[cell] {
                PropertyState::Owned { level, .. } => level.hotel_count(),
                _ => 0,
            };
            count += here;
            cell += 1;
        }
        count
    }

    /// The rent tier that applies on `pos`.
    pub fn tier(&self, pos: usize) -> (tier: RentType)
        requires
            self.board.0@.len() == NUM_SPACES,
            self.ledger@.len() == NUM_SPACES,
            pos < NUM_SPACES,
        ensures
            tier == self@.tier(pos as int),
    {
        match self.ledger[pos] {
            PropertyState::Owned { player, level } => if level.has_houses() {
                level
            } else if self.holds_group(player, pos) {
                RentType::Monopoly
            } else {
                RentType::Base
            },
            _ => RentType::Base,
        }
    }

    /// The rent that a visitor of `pos` owes after a roll of `dice` in total.
    pub fn rent_due(&self, pos: usize, dice: u8) -> (rent: i64)
        requires
            self.board.0@.len() == NUM_SPACES,
            self.ledger@.len() == NUM_SPACES,
            pos < NUM_SPACES,
        ensures
            rent == self@.rent_due(pos as int, dice as int),
            0 <= rent <= 255 * 0xffff_ffff,
    {
        match (self.ledger[pos], self.property_at(pos)) {
            (PropertyState::Owned { player, .. }, Some(property)) => property.rent.amount(
                self.tier(pos),
                self.owned_in_group(player, pos),
                dice,
            ),
            (PropertyState::Owned { .. }, None) => 0,
            _ => 0,
        }
    }

    // ------------------------------------------------------------------
    // Validity
    // ------------------------------------------------------------------
    /// Checks the record of cell `pos`: see [`GameView::entry_wf`].
    pub fn entry_valid(&self, pos: usize) -> (ok: bool)
        requires
            self.board.0@.len() == NUM_SPACES,
            self.ledger@.len() == NUM_SPACES,
            pos < NUM_SPACES,
        ensures
            ok == self@.entry_wf(pos as int),
    {
        match self.ledger[pos] {
            PropertyState::Unowned => true,
            PropertyState::Owned { player, level } => match self.property_at(pos) {
                Some(property) => self.is_active(player) && (!level.has_houses() || (
                property.group.is_colour() && self.group_intact(player, pos))),
                None => false,
            },
            PropertyState::Mortgaged { player } => self.property_at(pos).is_some()
                && self.is_active(player),
        }
    }

    // ------------------------------------------------------------------
    // The rules
    // ------------------------------------------------------------------
    /// `player` buys the property on `pos` from the bank at its price.
    ///
    /// Refused, with nothing changed, unless the bank holds the property and the
    /// player has the price.
    pub fn buy(&mut self, player: usize, pos: usize) -> (result: Result<(), GameError>)
        requires
            old(self)@.wf(),
        ensures
            result is Ok <==> old(self)@.can_buy(player, pos),
            result is Ok ==> final(self)@ == old(self)@.bought(player, pos),
            result is Err ==> result == Err::<(), GameError>(GameError::IllegalAction),
            result is Err ==> *final(self) == *old(self),
            final(self)@.wf(),
            final(self)@.total_funds() <= old(self)@.total_funds(),
    {
        if !self.is_active(player) || pos >= NUM_SPACES {
            return Err(GameError::IllegalAction);
        }
        let property = match self.property_at(pos) {
            Some(property) => property,
            None => {
                return Err(GameError::IllegalAction);
            },
        };
        let unowned = match self.ledger[pos] {
            PropertyState::Unowned => true,
            _ => false,
        };
        if !unowned || self.players[player].money < property.price as i64 {
            return Err(GameError::IllegalAction);
        }
        proof {
            old(self)@.lemma_awarded(pos, player, property.price as int);
        }
        self.players[player].money = self.players[player].money - property.price as i64;
        self.ledger[pos] = PropertyState::Owned { player, level: RentType::Base };
        assert(self@ =~= old(self)@.bought(player, pos));
        Ok(())
    }

    /// The holder of `pos` pays for one more building on it.
    ///
    /// Refused, with nothing changed, unless the holder has the whole group
    /// unmortgaged, no hotel stands on `pos` yet, the bank has the building and
    /// the holder has its cost.
    pub fn build_up(&mut self, pos: usize) -> (result: Result<(), GameError>)
        requires
            old(self)@.wf(),
        ensures
            result is Ok <==> old(self)@.can_build(pos),
            result is Ok ==> final(self)@ == old(self)@.built(pos),
            result is Err ==> result == Err::<(), GameError>(GameError::IllegalAction),
            result is Err ==> *final(self) == *old(self),
            final(self)@.wf(),
            final(self)@.total_funds() <= old(self)@.total_funds(),
    {
        if pos >= NUM_SPACES {
            return Err(GameError::IllegalAction);
        }
        let cost = match self.property_at(pos) {
            Some(Property { building: Some(cost), .. }) => cost,
            _ => {
                return Err(GameError::IllegalAction);
            },
        };
        let (holder, level) = match self.ledger[pos] {
            PropertyState::Owned { player, level } => (player, level),
            _ => {
                return Err(GameError::IllegalAction);
            },
        };
        let at_top = match level {
            RentType::Hotel => true,
            _ => false,
        };
        if at_top || !self.group_intact(holder, pos) {
            return Err(GameError::IllegalAction);
        }
        let in_supply = match level {
            RentType::House4 => self.hotels_in_use() < MAX_HOTELS,
            _ => self.houses_in_use() < MAX_HOUSES,
        };
        proof {
            assert(old(self)@.entry_wf(pos as int));
        }
        if !in_supply || self.players[holder].money < cost as i64 {
            return Err(GameError::IllegalAction);
        }
        let mut next = self.tier(pos);
        next.upgrade();
        proof {
            old(self)@.lemma_built(pos);
        }
        self.players[holder].money = self.players[holder].money - cost as i64;
        self.ledger[pos] = PropertyState::Owned { player: holder, level: next };
        assert(self@ =~= old(self)@.built(pos));
        Ok(())
    }

    /// The holder of `pos` sells one building from it to the bank, for half its cost.
    ///
    /// Refused, with nothing changed, unless a building stands on `pos`.
    pub fn sell_down(&mut self, pos: usize) -> (result: Result<(), GameError>)
        requires
            old(self)@.wf(),
            old(self)@.has_headroom(),
        ensures
            result is Ok <==> old(self)@.can_sell(pos),
            result is Ok ==> final(self)@ == old(self)@.sold(pos),
            result is Err ==> result == Err::<(), GameError>(GameError::IllegalAction),
            result is Err ==> *final(self) == *old(self),
            final(self)@.wf(),
            final(self)@.total_funds() <= old(self)@.total_funds() + 0x7fff_ffff,
    {
        if pos >= NUM_SPACES {
            return Err(GameError::IllegalAction);
        }
        let (holder, level) = match self.ledger[pos] {
            PropertyState::Owned { player, level } => (player, level),
            _ => {
                return Err(GameError::IllegalAction);
            },
        };
        if !level.has_houses() {
            return Err(GameError::IllegalAction);
        }
        proof {
            assert(old(self)@.entry_wf(pos as int));
            old(self)@.lemma_sold(pos);
            old(self)@.lemma_balances(holder as int);
        }
        let gain: i64 = match self.property_at(pos) {
            Some(Property { building: Some(cost), .. }) => (cost / 2) as i64,
            _ => 0,
        };
        let mut next = level;
        next.downgrade();
        self.players[holder].money = self.players[holder].money + gain;
        self.ledger[pos] = PropertyState::Owned { player: holder, level: next };
        assert(self@ =~= old(self)@.sold(pos));
        Ok(())
    }

    /// The holder of `pos` mortgages it to the bank for its mortgage value.
    ///
    /// Refused, with nothing changed, unless a player holds `pos` unmortgaged
    /// and no building stands on any property of its group.
    pub fn mortgage(&mut self, pos: usize) -> (result: Result<(), GameError>)
        requires
            old(self)@.wf(),
            old(self)@.has_headroom(),
        ensures
            result is Ok <==> old(self)@.can_mortgage(pos),
            result is Ok ==> final(self)@ == old(self)@.mortgaged(pos),
            result is Err ==> result == Err::<(), GameError>(GameError::IllegalAction),
            result is Err ==> *final(self) == *old(self),
            final(self)@.wf(),
            final(self)@.total_funds() <= old(self)@.total_funds() + 0xffff_ffff,
    {
        if pos >= NUM_SPACES {
            return Err(GameError::IllegalAction);
        }
        let holder = match self.ledger[pos] {
            PropertyState::Owned { player, .. } => player,
            _ => {
                return Err(GameError::IllegalAction);
            },
        };
        if !self.group_unbuilt(pos) {
            return Err(GameError::IllegalAction);
        }
        proof {
            assert(old(self)@.entry_wf(pos as int));
            old(self)@.lemma_mortgaged(pos);
            old(self)@.lemma_balances(holder as int);
        }
        let gain: i64 = match self.property_at(pos) {
            Some(property) => property.mortgage as i64,
            None => 0,
        };
        self.players[holder].money = self.players[holder].money + gain;
        self.ledger[pos] = PropertyState::Mortgaged { player: holder };
        assert(self@ =~= old(self)@.mortgaged(pos));
        Ok(())
    }

    /// The holder of `pos` lifts the mortgage on it, paying the mortgage value
    /// and a tenth of it as interest.
    ///
    /// Refused, with nothing changed, unless `pos` is mortgaged and the holder
    /// has that much.
    pub fn unmortgage(&mut self, pos: usize) -> (result: Result<(), GameError>)
        requires
            old(self)@.wf(),
        ensures
            result is Ok <==> old(self)@.can_unmortgage(pos),
            result is Ok ==> final(self)@ == old(self)@.unmortgaged(pos),
            result is Err ==> result == Err::<(), GameError>(GameError::IllegalAction),
            result is Err ==> *final(self) == *old(self),
            final(self)@.wf(),
            final(self)@.total_funds() <= old(self)@.total_funds(),
    {
        if pos >= NUM_SPACES {
            return Err(GameError::IllegalAction);
        }
        let holder = match self.ledger[pos] {
            PropertyState::Mortgaged { player } => player,
            _ => {
                return Err(GameError::IllegalAction);
            },
        };
        proof {
            assert(old(self)@.entry_wf(pos as int));
        }
        let cost: i64 = match self.property_at(pos) {
            Some(property) => property.mortgage as i64 + (property.mortgage / 10) as i64,
            None => 0,
        };
        if self.players[holder].money < cost {
            return Err(GameError::IllegalAction);
        }
        proof {
            old(self)@.lemma_unmortgaged(pos);
        }
        self.players[holder].money = self.players[holder].money - cost;
        self.ledger[pos] = PropertyState::Owned { player: holder, level: RentType::Base };
        assert(self@ =~= old(self)@.unmortgaged(pos));
        Ok(())
    }
}

} // verus!
