//! The mathematical model of a game: its state as sequences and integers,
//! what makes a state valid, and the state that each rule leads to.

use vstd::prelude::*;
use crate::board::{board_wf, Space, NUM_SPACES};
use crate::deck::{cards_wf, Effect};
use crate::player::Player;
use crate::property::{Property, PropertyState, RentType};

verus! {

/// The fewest players a game can have.
pub const MIN_PLAYERS: usize = 2;

/// The most players a game can have.
pub const MAX_PLAYERS: usize = 6;

/// What a player earns for passing the start or landing on it.
pub const GO_BONUS: i64 = 200;

/// The fine that opens the jail.
pub const JAIL_FINE: i64 = 50;

/// The houses that the bank can hand out.
pub const MAX_HOUSES: u32 = 32;

/// The hotels that the bank can hand out.
pub const MAX_HOTELS: u32 = 12;

/// How often a building can be sold from one property: four houses and the
/// step from hotel to houses.
pub const MAX_LEVELS: usize = 5;

/// The most money that may be in the game when a rule is applied, so that no
/// balance can leave the range of a 64-bit integer.
pub const FUNDS_CEILING: i64 = 0x4000_0000_0000_0000;

/// Who receives a payment that a player owes.
#[derive(Clone, Copy, Debug, PartialEq, Eq, Structural)]
pub enum Payee {
    /// Another player.
    Player(usize),
    /// The kitty, which collects taxes and fines.
    Kitty,
}

/// The money that a sequence of players holds together.
pub open spec fn sum_money(players: Seq<Player>) -> int
    decreases players.len(),
{
    if players.len() == 0 {
        0
    } else {
        sum_money(players.drop_last()) + players.last().money
    }
}

/// The state of a game.
#[verifier::ext_equal]
pub struct GameView {
    /// The players, in the order of their turns.
    pub players: Seq<Player>,
    /// The cells of the board.
    pub board: Seq<Space>,
    /// For each cell, who holds the property on it.
    pub ledger: Seq<PropertyState>,
    /// The money that taxes and fines have put aside.
    pub kitty: int,
    /// The chance cards, the next one in front.
    pub chance: Seq<Effect>,
    /// The community chest cards, the next one in front.
    pub community_chest: Seq<Effect>,
    /// The player whose turn it is.
    pub current: usize,
}

impl GameView {
    // ------------------------------------------------------------------
    // Reading the state
    // ------------------------------------------------------------------
    /// Whether `pos` is a cell with a property on it.
    pub open spec fn is_property(self, pos: int) -> bool {
        0 <= pos < self.board.len() && self.board[pos] is Property
    }

    /// The property on cell `pos`.
    pub open spec fn property(self, pos: int) -> Property
        recommends
            self.is_property(pos),
    {
        self.board[pos]->Property_0
    }

    /// Whether `player` is still in the game.
    pub open spec fn active(self, player: int) -> bool {
        0 <= player < self.players.len() && !self.players[player].bankrupt
    }

    /// Whether a player other than `player` is still in the game.
    pub open spec fn has_rival(self, player: int) -> bool {
        exists|q: int| #[trigger] self.active(q) && q != player
    }

    /// The game is over: at most one player is still in it.
    pub open spec fn is_finished(self) -> bool {
        forall|p: int, q: int| #[trigger]
            self.active(p) && #[trigger] self.active(q) ==> p == q
    }

    /// The money of `player`.
    pub open spec fn money(self, player: int) -> int {
        self.players[player].money as int
    }

    /// All the money in the game: what the players hold and the kitty.
    pub open spec fn total_funds(self) -> int {
        self.kitty + sum_money(self.players)
    }

    /// Whether the properties on `a` and `b` belong to one group.
    pub open spec fn same_group(self, a: int, b: int) -> bool {
        &&& self.is_property(a)
        &&& self.is_property(b)
        &&& self.property(a).group == self.property(b).group
    }

    /// Whether `player` holds every property of the group of `pos`, mortgaged or not.
    pub open spec fn holds_group(self, player: usize, pos: int) -> bool {
        forall|q: int| #[trigger]
            self.same_group(pos, q) ==> self.ledger[q].owner() == Some(player)
    }

    /// Whether `player` holds every property of the group of `pos` and none of
    /// them is mortgaged: what building on `pos` takes.
    pub open spec fn group_intact(self, player: usize, pos: int) -> bool {
        forall|q: int| #[trigger]
            self.same_group(pos, q) ==> (self.ledger[q] matches PropertyState::Owned {
                player: holder,
                ..
            } && holder == player)
    }

    /// Whether no building stands on any property of the group of `pos`: what
    /// mortgaging `pos` takes.
    pub open spec fn group_unbuilt(self, pos: int) -> bool {
        forall|q: int| #[trigger] self.same_group(pos, q) ==> self.ledger[q].buildings() == 0
    }

    /// How many properties of the group of `pos` `player` holds among the cells
    /// below `upto`.
    pub open spec fn owned_in_group(self, player: usize, pos: int, upto: int) -> int
        decreases upto,
    {
        if upto <= 0 {
            0
        } else {
            self.owned_in_group(player, pos, upto - 1) + if self.same_group(pos, upto - 1)
                && self.ledger[upto - 1].owner() == Some(player) {
                1int
            } else {
                0int
            }
        }
    }

    /// The houses on the cells below `upto`.
    pub open spec fn houses_in_use(self, upto: int) -> int
        decreases upto,
    {
        if upto <= 0 {
            0
        } else {
            self.houses_in_use(upto - 1) + self.ledger[upto - 1].houses()
        }
    }

    /// The hotels on the cells below `upto`.
    pub open spec fn hotels_in_use(self, upto: int) -> int
        decreases upto,
    {
        if upto <= 0 {
            0
        } else {
            self.hotels_in_use(upto - 1) + self.ledger[upto - 1].hotels()
        }
    }

    /// The houses that `player` has on the cells below `upto`.
    pub open spec fn houses_held(self, player: usize, upto: int) -> int
        decreases upto,
    {
        if upto <= 0 {
            0
        } else {
            self.houses_held(player, upto - 1) + if self.ledger[upto - 1].owner() == Some(player) {
                self.ledger[upto - 1].houses()
            } else {
                0
            }
        }
    }

    /// The hotels that `player` has on the cells below `upto`.
    pub open spec fn hotels_held(self, player: usize, upto: int) -> int
        decreases upto,
    {
        if upto <= 0 {
            0
        } else {
            self.hotels_held(player, upto - 1) + if self.ledger[upto - 1].owner() == Some(player) {
                self.ledger[upto - 1].hotels()
            } else {
                0
            }
        }
    }

    /// The cells below `upto` whose property `player` holds, in rising order.
    pub open spec fn holdings(self, player: usize, upto: int) -> Seq<usize>
        decreases upto,
    {
        if upto <= 0 {
            Seq::empty()
        } else if self.ledger[upto - 1].owner() == Some(player) {
            self.holdings(player, upto - 1).push((upto - 1) as usize)
        } else {
            self.holdings(player, upto - 1)
        }
    }

    /// The rent tier that applies on `pos`: the buildings decide where there are
    /// any; without buildings the monopoly tier applies as soon as the holder
    /// has the whole group.
    pub open spec fn tier(self, pos: int) -> RentType {
        match self.ledger[pos] {
            PropertyState::Owned { player, level } => if level.buildings() > 0 {
                level
            } else if self.holds_group(player, pos) {
                RentType::Monopoly
            } else {
                RentType::Base
            },
            _ => RentType::Base,
        }
    }

    /// The rent that a visitor of `pos` owes after a roll of `dice` in total.
    /// Nothing is owed on a property that the bank holds or that is mortgaged.
    pub open spec fn rent_due(self, pos: int, dice: int) -> int {
        match self.ledger[pos] {
            PropertyState::Owned { player, .. } if self.is_property(pos) => self.property(
                pos,
            ).rent.due(
                self.tier(pos),
                self.owned_in_group(player, pos, NUM_SPACES as int),
                dice,
            ),
            _ => 0,
        }
    }

    // ------------------------------------------------------------------
    // Validity
    // ------------------------------------------------------------------
    /// The record of cell `pos` is valid: only a property can be held, only by a
    /// player who is still in the game, and buildings stand only on a street
    /// whose whole group the holder has, none of it mortgaged.
    pub open spec fn entry_wf(self, pos: int) -> bool {
        match self.ledger[pos] {
            PropertyState::Unowned => true,
            PropertyState::Owned { player, level } => {
                &&& self.is_property(pos)
                &&& self.active(player as int)
                &&& level.buildings() > 0 ==> self.property(pos).group.is_street()
                    && self.group_intact(player, pos)
            },
            PropertyState::Mortgaged { player } => {
                &&& self.is_property(pos)
                &&& self.active(player as int)
            },
        }
    }

    /// The state is valid: the board is well formed, two to six players sit
    /// at it, none of them in debt, at least one of them still in the game;
    /// every cell has a valid record, the kitty is not negative, and each deck
    /// holds well-formed cards.
    pub open spec fn wf(self) -> bool {
        &&& board_wf(self.board)
        &&& MIN_PLAYERS <= self.players.len() <= MAX_PLAYERS
        &&& self.ledger.len() == NUM_SPACES
        &&& 0 <= self.kitty <= i64::MAX
        &&& self.current < self.players.len()
        &&& forall|p: int| 0 <= p < self.players.len() ==> (#[trigger] self.players[p]).wf()
        &&& forall|pos: int| 0 <= pos < NUM_SPACES ==> #[trigger] self.entry_wf(pos)
        &&& self.chance.len() > 0
        &&& cards_wf(self.chance)
        &&& self.community_chest.len() > 0
        &&& cards_wf(self.community_chest)
        &&& exists|p: int| #[trigger] self.active(p)
    }

    /// The money in the game leaves room for `growth` more: so much can come
    /// into the game without any balance leaving the range of a 64-bit integer.
    pub open spec fn has_room(self, growth: int) -> bool {
        self.total_funds() + growth <= FUNDS_CEILING
    }

    /// The money in the game is within the ceiling.
    pub open spec fn has_headroom(self) -> bool {
        self.has_room(0)
    }

    // ------------------------------------------------------------------
    // Elementary changes
    // ------------------------------------------------------------------
    /// The state in which `player` has `amount` more money (less, if negative).
    pub open spec fn credited(self, player: usize, amount: int) -> GameView {
        GameView {
            players: self.players.update(
                player as int,
                self.players[player as int].with_money(self.money(player as int) + amount),
            ),
            ..self
        }
    }

    /// The state in which the kitty holds `amount` more.
    pub open spec fn kitty_plus(self, amount: int) -> GameView {
        GameView { kitty: self.kitty + amount, ..self }
    }

    /// The state in which the record of cell `pos` is `entry`.
    pub open spec fn recorded(self, pos: int, entry: PropertyState) -> GameView {
        GameView { ledger: self.ledger.update(pos, entry), ..self }
    }

    /// The state in which `player` has paid `amount` to `payee`.
    pub open spec fn paid(self, player: usize, amount: int, payee: Payee) -> GameView {
        match payee {
            Payee::Player(other) => self.credited(player, -amount).credited(other, amount),
            Payee::Kitty => self.credited(player, -amount).kitty_plus(amount),
        }
    }
}

/// A product with one factor taken away once: `times * unit` is `unit` more
/// than `(times - 1) * unit`, which is not negative for a positive `times`.
pub proof fn lemma_one_less(times: int, unit: int)
    requires
        1 <= times,
        0 <= unit,
    ensures
        times * unit == (times - 1) * unit + unit,
        0 <= (times - 1) * unit,
{
    assert(times * unit == (times - 1) * unit + unit) by (nonlinear_arith);
    assert(0 <= (times - 1) * unit) by (nonlinear_arith)
        requires
            1 <= times,
            0 <= unit,
    ;
}

/// Replacing one player changes the sum of money by the difference of the two.
pub proof fn lemma_sum_money_update(players: Seq<Player>, index: int, player: Player)
    requires
        0 <= index < players.len(),
    ensures
        sum_money(players.update(index, player)) == sum_money(players) - players[index].money
            + player.money,
    decreases players.len(),
{
    let updated = players.update(index, player);
    if index == players.len() - 1 {
        assert(updated.drop_last() =~= players.drop_last());
    } else {
        lemma_sum_money_update(players.drop_last(), index, player);
        assert(updated.drop_last() =~= players.drop_last().update(index, player));
    }
}

/// Where nobody is in debt, no player holds more than all hold together.
pub proof fn lemma_sum_money_bounds(players: Seq<Player>, index: int)
    requires
        0 <= index < players.len(),
        forall|p: int| 0 <= p < players.len() ==> (#[trigger] players[p]).money >= 0,
    ensures
        0 <= players[index].money <= sum_money(players),
    decreases players.len(),
{
    lemma_sum_money_nonnegative(players.drop_last());
    if index < players.len() - 1 {
        lemma_sum_money_bounds(players.drop_last(), index);
    }
}

/// Where nobody is in debt, the sum of money is not negative.
pub proof fn lemma_sum_money_nonnegative(players: Seq<Player>)
    requires
        forall|p: int| 0 <= p < players.len() ==> (#[trigger] players[p]).money >= 0,
    ensures
        0 <= sum_money(players),
    decreases players.len(),
{
    if players.len() > 0 {
        lemma_sum_money_nonnegative(players.drop_last());
    }
}

impl GameView {
    /// In a valid state no balance is negative, and neither a player nor the
    /// kitty holds more than all the money in the game.
    pub proof fn lemma_balances(self, player: int)
        requires
            self.wf(),
            0 <= player < self.players.len(),
        ensures
            0 <= self.money(player) <= self.total_funds(),
            0 <= self.kitty <= self.total_funds(),
    {
        lemma_sum_money_bounds(self.players, player);
    }

    /// A change of money keeps the state valid where the new balance is in range,
    /// and moves the total by the same amount.
    pub proof fn lemma_credited(self, player: usize, amount: int)
        requires
            self.wf(),
            player < self.players.len(),
            0 <= self.money(player as int) + amount <= i64::MAX,
            self.players[player as int].bankrupt ==> amount == 0,
        ensures
            self.credited(player, amount).wf(),
            self.credited(player, amount).total_funds() == self.total_funds() + amount,
            self.credited(player, amount).money(player as int) == self.money(player as int)
                + amount,
    {
        let next = self.credited(player, amount);
        lemma_sum_money_update(
            self.players,
            player as int,
            self.players[player as int].with_money(self.money(player as int) + amount),
        );
        self.lemma_same_holdings(next);
    }

    /// A state that differs from a valid one only in money, places, cards and
    /// turn, with the same players in the game, has valid records too.
    pub proof fn lemma_same_holdings(self, next: GameView)
        requires
            self.wf(),
            next.board == self.board,
            next.ledger == self.ledger,
            next.players.len() == self.players.len(),
            forall|p: int|
                0 <= p < self.players.len() ==> (#[trigger] next.players[p]).bankrupt
                    == self.players[p].bankrupt,
        ensures
            forall|pos: int| 0 <= pos < NUM_SPACES ==> #[trigger] next.entry_wf(pos),
            forall|p: int| self.active(p) == next.active(p),
            exists|p: int| #[trigger] next.active(p),
    {
        assert forall|pos: int| 0 <= pos < NUM_SPACES implies #[trigger] next.entry_wf(pos) by {
            assert(self.entry_wf(pos));
            match self.ledger[pos] {
                PropertyState::Owned { player, level } => {
                    if level.buildings() > 0 {
                        assert forall|q: int| #[trigger]
                            next.same_group(pos, q) implies (next.ledger[q] matches PropertyState::Owned {
                            player: holder,
                            ..
                        } && holder == player) by {
                            assert(self.same_group(pos, q));
                        }
                    }
                },
                _ => {},
            }
        }
        let witness = choose|p: int| #[trigger] self.active(p);
        assert(next.active(witness));
    }
}

impl GameView {
    // ------------------------------------------------------------------
    // Single players and what a change leaves alone
    // ------------------------------------------------------------------
    /// The state in which `value` stands in the place of player `player`.
    pub open spec fn with_player(self, player: usize, value: Player) -> GameView {
        GameView { players: self.players.update(player as int, value), ..self }
    }

    /// The player whose turn it is.
    pub open spec fn mover(self) -> Player {
        self.players[self.current as int]
    }

    /// The cell on which the player whose turn it is stands.
    pub open spec fn here(self) -> usize {
        self.players[self.current as int].current_position
    }

    /// `next` has the board, the turn and the number of players of this state.
    pub open spec fn same_table(self, next: GameView) -> bool {
        &&& next.board == self.board
        &&& next.current == self.current
        &&& next.players.len() == self.players.len()
    }

    /// While the game is not over, every player has a rival.
    pub proof fn lemma_rival(self, player: int)
        requires
            !self.is_finished(),
        ensures
            self.has_rival(player),
    {
        let (p, q) = choose|p: int, q: int| #[trigger]
            self.active(p) && #[trigger] self.active(q) && p != q;
        if p != player {
            assert(self.active(p) && p != player);
        } else {
            assert(self.active(q) && q != player);
        }
    }

    /// Replacing a player by a valid account that is in the game just as the
    /// old one keeps the state valid, and moves the total by the difference in money.
    pub proof fn lemma_with_player(self, player: usize, value: Player)
        requires
            self.wf(),
            player < self.players.len(),
            value.wf(),
            value.bankrupt == self.players[player as int].bankrupt,
        ensures
            self.with_player(player, value).wf(),
            self.with_player(player, value).total_funds() == self.total_funds() - self.money(
                player as int,
            ) + value.money,
            forall|p: int| self.with_player(player, value).active(p) == self.active(p),
            self.same_table(self.with_player(player, value)),
    {
        let next = self.with_player(player, value);
        lemma_sum_money_update(self.players, player as int, value);
        self.lemma_same_holdings(next);
    }

    /// States with the same players in the game are over together.
    pub proof fn lemma_same_finish(self, next: GameView)
        requires
            forall|p: int| next.active(p) == self.active(p),
        ensures
            next.is_finished() == self.is_finished(),
    {
        if self.is_finished() {
            assert forall|p: int, q: int| #[trigger]
                next.active(p) && #[trigger] next.active(q) implies p == q by {
                assert(self.active(p) && self.active(q));
            }
        }
        if next.is_finished() {
            assert forall|p: int, q: int| #[trigger]
                self.active(p) && #[trigger] self.active(q) implies p == q by {
                assert(next.active(p) && next.active(q));
            }
        }
    }
}

/// Where nobody is in debt, the first players of a sequence hold no more than
/// all hold together.
pub proof fn lemma_sum_prefix(players: Seq<Player>, count: int)
    requires
        0 <= count <= players.len(),
        forall|p: int| 0 <= p < players.len() ==> (#[trigger] players[p]).money >= 0,
    ensures
        sum_money(players.subrange(0, count)) <= sum_money(players),
    decreases players.len(),
{
    if count == players.len() {
        assert(players.subrange(0, count) =~= players);
    } else {
        assert(players.subrange(0, count) =~= players.drop_last().subrange(0, count));
        lemma_sum_prefix(players.drop_last(), count);
    }
}

} // verus!
