//! The game: its players, its board, the record of who holds what, the kitty
//! and the two decks.

use vstd::prelude::*;
use crate::board::{standard_board, Board, Space, NUM_SPACES};
use crate::deck::{cards_wf, standard_chance, standard_community_chest, Deck, Effect};
use crate::model::{
    lemma_sum_money_bounds, lemma_sum_prefix, sum_money, GameView, FUNDS_CEILING, MAX_PLAYERS,
    MIN_PLAYERS,
};
use crate::player::{Player, STARTING_MONEY};
use crate::property::{Property, PropertyState};

verus! {

/// Why the game refused a request. A refused request changes nothing.
#[derive(Clone, Copy, Debug, PartialEq, Eq, Structural)]
pub enum GameError {
    /// A game takes two to six players.
    InvalidPlayerCount,
    /// The rules do not allow the action in the present state.
    IllegalAction,
}

/// The actual game to be run by users.
#[derive(Debug)]
pub struct Game {
    /// The players, in the order of their turns.
    pub players: Vec<Player>,
    /// The board.
    pub board: Board,
    /// For each cell of the board, who holds the property on it.
    pub ledger: Vec<PropertyState>,
    /// The money that taxes and fines have put aside.
    pub kitty: i64,
    /// The chance cards.
    pub chance: Deck,
    /// The community chest cards.
    pub community_chest: Deck,
    /// The player whose turn it is.
    pub current: usize,
}

impl View for Game {
    type V = GameView;

    open spec fn view(&self) -> GameView {
        GameView {
            players: self.players@,
            board: self.board.0@,
            ledger: self.ledger@,
            kitty: self.kitty as int,
            chance: self.chance.cards@,
            community_chest: self.community_chest.cards@,
            current: self.current,
        }
    }
}

/// The record of a board on which the bank holds everything.
pub open spec fn empty_ledger() -> Seq<PropertyState> {
    Seq::new(NUM_SPACES as nat, |pos: int| PropertyState::Unowned)
}

/// Players who all hold the starting money hold that much each, together.
pub proof fn lemma_sum_money_fresh(players: Seq<Player>)
    requires
        forall|p: int| 0 <= p < players.len() ==> (#[trigger] players[p]).is_fresh(),
    ensures
        sum_money(players) == STARTING_MONEY * players.len(),
    decreases players.len(),
{
    if players.len() > 0 {
        lemma_sum_money_fresh(players.drop_last());
    }
}

/// Cards that were only put into another order are as well formed as before.
pub proof fn lemma_reordered_cards_wf(before: Seq<Effect>, after: Seq<Effect>)
    requires
        cards_wf(before),
        after.to_multiset() == before.to_multiset(),
    ensures
        cards_wf(after),
        after.len() == before.len(),
{
    before.to_multiset_ensures();
    after.to_multiset_ensures();
    assert forall|i: int| 0 <= i < after.len() implies (#[trigger] after[i]).wf() by {
        assert(after.contains(after[i]));
        assert(after.to_multiset().count(after[i]) > 0);
        assert(before.to_multiset().count(after[i]) > 0);
        assert(before.contains(after[i]));
    }
}

impl Game {
    /// Starts a new game with the given players. The board is the standard
    /// one, the bank holds every property, the kitty is empty, both decks are
    /// shuffled, and the first player is to move.
    ///
    /// Refused with [`GameError::InvalidPlayerCount`] unless there are two to
    /// six players, and with [`GameError::IllegalAction`] where one of them is
    /// not as [`Player::new`] makes them.
    pub fn new(players: Vec<Player>) -> (result: Result<Game, GameError>)
        ensures
            result is Ok <==> (MIN_PLAYERS <= players@.len() <= MAX_PLAYERS && forall|p: int|
                0 <= p < players@.len() ==> (#[trigger] players@[p]).is_fresh()),
            result matches Err(GameError::InvalidPlayerCount) <==> !(MIN_PLAYERS <= players@.len()
                <= MAX_PLAYERS),
            result matches Ok(game) ==> {
                &&& game@.wf()
                &&& game@.players == players@
                &&& game@.board == standard_board()
                &&& game@.ledger == empty_ledger()
                &&& game@.kitty == 0
                &&& game@.current == 0
                &&& game@.chance.to_multiset() == standard_chance().to_multiset()
                &&& game@.community_chest.to_multiset() == standard_community_chest().to_multiset()
                &&& game@.total_funds() == STARTING_MONEY * players@.len()
                &&& !game@.is_finished()
            },
    {
        if players.len() < MIN_PLAYERS || players.len() > MAX_PLAYERS {
            return Err(GameError::InvalidPlayerCount);
        }
        let mut index: usize = 0;
        while index < players.len()
            invariant
                index <= players@.len(),
                MIN_PLAYERS <= players@.len() <= MAX_PLAYERS,
                forall|p: int| 0 <= p < index ==> (#[trigger] players@[p]).is_fresh(),
            decreases players@.len() - index,
        {
            let player = &players[index];
            let fresh = player.last_dice.is_none() && player.money == STARTING_MONEY
                && player.current_position == 0 && player.jail == crate::player::JailStatus::Free
                && player.jail_cards == 0 && player.doubles == 0 && !player.bankrupt;
            if !fresh {
                return Err(GameError::IllegalAction);
            }
            index += 1;
        }
        let mut ledger: Vec<PropertyState> = Vec::with_capacity(NUM_SPACES);
        let mut pos: usize = 0;
        while pos < NUM_SPACES
            invariant
                pos <= NUM_SPACES,
                ledger@.len() == pos,
                forall|i: int| 0 <= i < pos ==> ledger@[i] == PropertyState::Unowned,
            decreases NUM_SPACES - pos,
        {
            ledger.push(PropertyState::Unowned);
            pos += 1;
        }
        let mut chance = Deck::chance();
        chance.shuffle();
        let mut community_chest = Deck::community_chest();
        community_chest.shuffle();
        let game = Game {
            players,
            board: Board::new(),
            ledger,
            kitty: 0,
            chance,
            community_chest,
            current: 0,
        };
        proof {
            lemma_reordered_cards_wf(standard_chance(), game@.chance);
            lemma_reordered_cards_wf(standard_community_chest(), game@.community_chest);
            lemma_sum_money_fresh(game@.players);
            assert(game@.ledger =~= empty_ledger());
            assert forall|pos: int| 0 <= pos < NUM_SPACES implies #[trigger] game@.entry_wf(
                pos,
            ) by {}
            assert(game@.active(0));
            assert(game@.active(1));
        }
        Ok(game)
    }

    /// The property on cell `pos`, if there is one.
    pub fn property_at(&self, pos: usize) -> (found: Option<Property>)
        ensures
            found is Some <==> self@.is_property(pos as int),
            found matches Some(property) ==> property == self@.property(pos as int),
    {
        if pos >= self.board.0.len() {
            return None;
        }
        match self.board.0[pos] {
            Space::Property(property) => Some(property),
            _ => None,
        }
    }

    /// Whether `player` is a player of this game who has not gone bankrupt.
    pub fn is_active(&self, player: usize) -> (b: bool)
        ensures
            b == self@.active(player as int),
    {
        player < self.players.len() && !self.players[player].bankrupt
    }

    /// The first player at or after `from` who is still in the game, if any.
    pub(crate) fn first_active_from(&self, from: usize) -> (found: Option<usize>)
        ensures
            match found {
                Some(p) => from <= p < self.players@.len() && self@.active(p as int) && forall|q: int|
                    from <= q < p ==> !self@.active(q),
                None => forall|q: int| from <= q ==> !self@.active(q),
            },
    {
        let mut index: usize = from;
        while index < self.players.len()
            invariant
                from <= index,
                forall|q: int| from <= q < index ==> !self@.active(q),
            decreases self.players@.len() - index,
        {
            if !self.players[index].bankrupt {
                return Some(index);
            }
            index += 1;
        }
        None
    }

    /// Whether the game is over: at most one player is still in it.
    pub fn is_finished(&self) -> (finished: bool)
        ensures
            finished == self@.is_finished(),
    {
        let count = self.players.len();
        match self.first_active_from(0) {
            None => true,
            Some(first) => {
                assert(self@.active(first as int) && first < count);
                match self.first_active_from(first + 1) {
                    None => true,
                    Some(second) => {
                        assert(self@.active(second as int));
                        false
                    },
                }
            },
        }
    }

    /// The winner: the one player left when the game is over.
    pub fn winner(&self) -> (winner: Option<usize>)
        ensures
            winner matches Some(player) ==> self@.is_finished() && self@.active(player as int),
            winner is None ==> !self@.is_finished() || forall|p: int| !self@.active(p),
    {
        let count = self.players.len();
        match self.first_active_from(0) {
            None => None,
            Some(first) => {
                assert(self@.active(first as int) && first < count);
                match self.first_active_from(first + 1) {
                    None => Some(first),
                    Some(second) => {
                        assert(self@.active(second as int));
                        None
                    },
                }
            },
        }
    }
}

impl Game {
    /// Whether the money in the game leaves room for `growth` more.
    pub fn has_room(&self, growth: i64) -> (fits: bool)
        requires
            self@.wf(),
            0 <= growth,
        ensures
            fits == self@.has_room(growth as int),
    {
        proof {
            lemma_sum_money_bounds(self.players@, 0);
        }
        if growth > FUNDS_CEILING || self.kitty > FUNDS_CEILING - growth {
            return false;
        }
        let mut room: i64 = FUNDS_CEILING - growth - self.kitty;
        let mut index: usize = 0;
        assert(self.players@.subrange(0, 0) =~= Seq::<Player>::empty());
        while index < self.players.len()
            invariant
                index <= self.players@.len(),
                0 <= growth,
                0 <= self.kitty,
                0 <= room,
                room == FUNDS_CEILING - growth - self.kitty - sum_money(
                    self.players@.subrange(0, index as int),
                ),
                forall|p: int|
                    0 <= p < self.players@.len() ==> (#[trigger] self.players@[p]).money >= 0,
            decreases self.players@.len() - index,
        {
            let money = self.players[index].money;
            proof {
                let longer = self.players@.subrange(0, index as int + 1);
                assert(longer.drop_last() =~= self.players@.subrange(0, index as int));
                assert(longer.last() == self.players@[index as int]);
            }
            if money > room {
                proof {
                    let rest = self.players@.subrange(0, index as int + 1);
                    assert(sum_money(rest) > FUNDS_CEILING - growth - self.kitty);
                    lemma_sum_prefix(self.players@, index as int + 1);
                }
                return false;
            }
            room = room - money;
            index += 1;
        }
        assert(self.players@.subrange(0, index as int) =~= self.players@);
        true
    }

    // ------------------------------------------------------------------
    // Validity
    // ------------------------------------------------------------------
    /// Whether a turn can be played or the game is over: the state is valid,
    /// and the player whose turn it is is in the game unless nobody has a turn
    /// any more.
    pub open spec fn ready(&self) -> bool {
        self@.wf() && (self@.is_finished() || self@.active(self@.current as int))
    }

    /// Checks the game: see [`GameView::wf`].
    pub fn is_valid(&self) -> (ok: bool)
        ensures
            ok == self@.wf(),
    {
        if !self.board.is_valid() || self.players.len() < MIN_PLAYERS || self.players.len()
            > MAX_PLAYERS || self.ledger.len() != NUM_SPACES || self.kitty < 0 || self.current
            >= self.players.len() || !self.chance.is_valid() || !self.community_chest.is_valid() {
            return false;
        }
        let mut index: usize = 0;
        while index < self.players.len()
            invariant
                index <= self.players@.len(),
                forall|p: int| 0 <= p < index ==> (#[trigger] self.players@[p]).wf(),
            decreases self.players@.len() - index,
        {
            if !self.players[index].is_valid() {
                return false;
            }
            index += 1;
        }
        let mut pos: usize = 0;
        while pos < NUM_SPACES
            invariant
                pos <= NUM_SPACES,
                self.board.0@.len() == NUM_SPACES,
                self.ledger@.len() == NUM_SPACES,
                forall|cell: int| 0 <= cell < pos ==> #[trigger] self@.entry_wf(cell),
            decreases NUM_SPACES - pos,
        {
            if !self.entry_valid(pos) {
                return false;
            }
            pos += 1;
        }
        match self.first_active_from(0) {
            Some(player) => {
                assert(self@.active(player as int));
                true
            },
            None => false,
        }
    }

    /// Checks that a turn can be played or the game is over: see [`Game::ready`].
    pub fn is_ready(&self) -> (ok: bool)
        ensures
            ok == self.ready(),
    {
        self.is_valid() && (self.is_finished() || self.is_active(self.current))
    }
}

} // verus!
