//! A turn with its repeats for doubles, and the game as a run of turns.

use vstd::prelude::*;
use crate::board::JAIL;
use crate::driver::Driver;
use crate::game::Game;
use crate::model::{lemma_one_less, GameView};
use crate::player::Player;
use crate::roll::{Movement, RollOutcome, ROLL_GROWTH};

verus! {

/// The most rolls that a turn can have.
pub const MAX_ROLLS: usize = 3;

/// The most that one turn can bring into the game.
pub const TURN_GROWTH: i64 = 3 * ROLL_GROWTH;

/// What one turn brought about.
#[derive(Debug)]
pub struct TurnOutcome {
    /// The player whose turn it was.
    pub player: usize,
    /// The rolls of the turn, in order.
    pub rolls: Vec<RollOutcome>,
    /// Whether the game is over.
    pub finished: bool,
}

/// What a run of turns brought about.
#[derive(Debug)]
pub struct GameOutcome {
    /// The turns that were played, in order.
    pub turns: Vec<TurnOutcome>,
    /// The winner, if the game is over.
    pub winner: Option<usize>,
}

impl GameView {
    /// The player who moves after the one whose turn it is: the next in the
    /// order of turns who is still in the game.
    pub open spec fn next_player(self) -> usize {
        if self.bidding_order().len() > 0 {
            self.bidding_order()[0]
        } else {
            self.current
        }
    }

    /// The state in which the turn has passed to the next player.
    pub open spec fn turn_ended(self) -> GameView {
        GameView {
            current: self.next_player(),
            ..self.with_player(self.current, Player { doubles: 0, ..self.mover() })
        }
    }

    /// The state in which the player whose turn it is starts a turn: no double
    /// is counted yet.
    pub open spec fn turn_begun(self) -> GameView {
        self.with_player(self.current, Player { doubles: 0, ..self.mover() })
    }

    /// The state after rolls have ended as `rolls` say, one after the other.
    pub open spec fn after_rolls(self, rolls: Seq<RollOutcome>) -> GameView
        decreases rolls.len(),
    {
        if rolls.len() == 0 {
            self
        } else {
            let last = rolls.last();
            self.after_rolls(rolls.drop_last()).replayed(
                last.die1,
                last.die2,
                last.choice,
                last.bought,
                last.auctions@,
            )
        }
    }

    /// The state after a turn whose rolls went as `outcome` says. Where the
    /// game is over, there is no turn, and the state stays as it is.
    pub open spec fn after_turn(self, outcome: TurnOutcome) -> GameView {
        if self.is_finished() {
            self
        } else {
            self.turn_begun().after_rolls(outcome.rolls@).turn_ended()
        }
    }

    /// The state after turns that went as `turns` say, one after the other.
    pub open spec fn after_turns(self, turns: Seq<TurnOutcome>) -> GameView
        decreases turns.len(),
    {
        if turns.len() == 0 {
            self
        } else {
            self.after_turns(turns.drop_last()).after_turn(turns.last())
        }
    }

    /// Whether turn number `index` of a run that began in this state went as
    /// `turns` say: it began while the game was not over, in the state that
    /// the turns before it led to, and ended as its outcome says.
    pub open spec fn went(self, turns: Seq<TurnOutcome>, index: int) -> bool {
        let before = self.after_turns(turns.subrange(0, index));
        &&& !before.is_finished()
        &&& before.turned_into(self.after_turns(turns.subrange(0, index + 1)), turns[index])
    }

    /// Whether the turns of a run that began in this state went as `turns` say.
    pub open spec fn played(self, turns: Seq<TurnOutcome>) -> bool {
        forall|i: int| 0 <= i < turns.len() ==> #[trigger] self.went(turns, i)
    }

    /// A run that went as `turns` say, and then had one more turn that began
    /// while the game was not over and ended in `next` with `outcome`, went as
    /// `turns` with `outcome` added say, and ended in `next`.
    pub proof fn lemma_played_one_more(
        self,
        turns: Seq<TurnOutcome>,
        outcome: TurnOutcome,
        next: GameView,
    )
        requires
            self.played(turns),
            !self.after_turns(turns).is_finished(),
            self.after_turns(turns).turned_into(next, outcome),
        ensures
            self.played(turns.push(outcome)),
            self.after_turns(turns.push(outcome)) == next,
    {
        let longer = turns.push(outcome);
        self.after_turns(turns).lemma_turned_into(next, outcome);
        assert(longer.drop_last() =~= turns);
        assert(self.after_turns(longer) == next);
        assert forall|i: int| 0 <= i < longer.len() implies #[trigger] self.went(longer, i) by {
            if i < turns.len() {
                assert(self.went(turns, i));
                assert(longer.subrange(0, i) =~= turns.subrange(0, i));
                assert(longer.subrange(0, i + 1) =~= turns.subrange(0, i + 1));
                assert(longer[i] == turns[i]);
            } else {
                assert(longer.subrange(0, i) =~= turns);
                assert(longer.subrange(0, i + 1) =~= longer);
            }
        }
    }

    /// Whether roll number `index` of a turn that began in this state went as
    /// `rolls` say: it began in the state that the rolls before it led to, and
    /// ended as its outcome says.
    pub open spec fn roll_went(self, rolls: Seq<RollOutcome>, index: int) -> bool {
        self.after_rolls(rolls.subrange(0, index)).rolled_into(
            self.after_rolls(rolls.subrange(0, index + 1)),
            rolls[index],
        )
    }

    /// Whether a turn that began in this state ended in `next` with `outcome`.
    ///
    /// Where the game was over, nothing has happened. Else the turn had one to
    /// three rolls, each but the last a double after which the player rolled
    /// again; a third roll that was a double sent the player to jail; each
    /// roll went as its outcome says; and the state is the one that these
    /// rolls lead to, with the turn passed on.
    pub open spec fn turned_into(self, next: GameView, outcome: TurnOutcome) -> bool {
        let rolls = outcome.rolls@;
        let start = self.turn_begun();
        &&& outcome.player == self.current
        &&& outcome.finished == next.is_finished()
        &&& self.is_finished() ==> next == self && rolls.len() == 0
        &&& !self.is_finished() ==> {
            &&& 1 <= rolls.len() <= MAX_ROLLS
            &&& next == start.after_rolls(rolls).turn_ended()
            &&& forall|i: int| 0 <= i < rolls.len() ==> #[trigger] start.roll_went(rolls, i)
            &&& forall|i: int|
                0 <= i < rolls.len() - 1 ==> (#[trigger] rolls[i]).roll_again && rolls[i].die1
                    == rolls[i].die2
            &&& !rolls.last().roll_again
            &&& rolls.len() == MAX_ROLLS && rolls.last().die1 == rolls.last().die2 ==> {
                &&& rolls.last().movement == Movement::SentToJail
                &&& next.players[outcome.player as int].is_jailed()
                &&& next.players[outcome.player as int].current_position == JAIL
            }
        }
    }

    /// A turn that ended in `next` with `outcome` led to the state that the
    /// rules give for the rolls of `outcome`.
    pub proof fn lemma_turned_into(self, next: GameView, outcome: TurnOutcome)
        requires
            self.turned_into(next, outcome),
        ensures
            next == self.after_turn(outcome),
            outcome.player == self.current,
            outcome.finished == next.is_finished(),
            self.is_finished() ==> outcome.rolls@.len() == 0,
            !self.is_finished() ==> 1 <= outcome.rolls@.len() <= MAX_ROLLS,
    {
    }

    /// The end of a turn keeps the state valid and the money in the game, and
    /// gives the turn to a player who is in the game.
    pub proof fn lemma_turn_ended(self)
        requires
            self.wf(),
        ensures
            self.turn_ended().wf(),
            self.turn_ended().total_funds() == self.total_funds(),
            self.turn_ended().active(self.turn_ended().current as int),
            forall|p: int| self.turn_ended().active(p) == self.active(p),
            self.turn_ended().is_finished() == self.is_finished(),
            self.bidding_order().len() > 0,
    {
        let reset = self.with_player(self.current, Player { doubles: 0, ..self.mover() });
        let next = self.turn_ended();
        assert(self.mover().wf());
        self.lemma_with_player(self.current, Player { doubles: 0, ..self.mover() });
        let somebody = choose|p: int| #[trigger] self.active(p);
        let order = self.bidding_order();
        let count = self.players.len() as int;
        self.lemma_active_between(self.current + 1, count);
        self.lemma_active_between(0, self.current + 1);
        if somebody > self.current {
            self.lemma_active_listed(self.current + 1, count, somebody);
            let tail = self.active_between(self.current + 1, count);
            assert(tail.len() > 0);
            assert(order[0] == tail[0]);
        } else {
            self.lemma_active_listed(0, self.current + 1, somebody);
            let head = self.active_between(0, self.current + 1);
            let tail = self.active_between(self.current + 1, count);
            assert(head.len() > 0);
            if tail.len() > 0 {
                assert(order[0] == tail[0]);
            } else {
                assert(order[0] == head[0]);
            }
        }
        assert(self.active(order[0] as int));
        reset.lemma_same_holdings(next);
        self.lemma_same_finish(next);
    }
}

impl Game {
    /// Advances the game by one turn of the player whose turn it is: the
    /// rolls of that player, with a repeat after each double up to the third,
    /// which leads to jail; then the turn passes to the next player who is in
    /// the game. Where the game is over, nothing happens.
    ///
    /// The outcome lists the rolls with the driver's answers, and the state
    /// that results is the one that the rules give for these rolls and answers.
    /// No player is left with a negative balance.
    pub fn advance<D: Driver>(&mut self, driver: &mut D) -> (outcome: TurnOutcome)
        requires
            old(self).ready(),
            old(self)@.has_room(TURN_GROWTH as int),
        ensures
            final(self).ready(),
            final(self)@.total_funds() <= old(self)@.total_funds() + TURN_GROWTH,
            old(self)@.turned_into(final(self)@, outcome),
            forall|p: int|
                0 <= p < final(self)@.players.len() ==> (#[trigger] final(self)@.players[p]).money
                    >= 0,
    {
        let mover = self.current;
        let mut rolls: Vec<RollOutcome> = Vec::new();
        if self.is_finished() {
            return TurnOutcome { player: mover, rolls, finished: true };
        }
        proof {
            assert(old(self)@.mover().wf());
            old(self)@.lemma_with_player(mover, Player { doubles: 0, ..old(self)@.mover() });
            old(self)@.lemma_same_finish(old(self)@.turn_begun());
        }
        self.players[mover].doubles = 0;
        let ghost start = self@;
        assert(start =~= old(self)@.turn_begun());
        let mut again = true;
        while again
            invariant
                self@.wf(),
                rolls@.len() <= MAX_ROLLS,
                again ==> rolls@.len() < MAX_ROLLS,
                !again ==> rolls@.len() >= 1,
                start.same_table(self@),
                start.current == mover,
                mover < start.players.len(),
                self@ == start.after_rolls(rolls@),
                self@.total_funds() <= start.total_funds() + rolls@.len() * ROLL_GROWTH,
                start.has_room(TURN_GROWTH as int),
                again ==> self@.active(mover as int) && !self@.is_finished()
                    && self@.mover().doubles == rolls@.len(),
                again && rolls@.len() > 0 ==> !self@.mover().is_jailed(),
                rolls@.len() > 0 ==> rolls@.last().roll_again == again,
                rolls@.len() > 0 && again ==> rolls@.last().die1 == rolls@.last().die2,
                forall|i: int| 0 <= i < rolls@.len() ==> #[trigger] start.roll_went(rolls@, i),
                forall|i: int|
                    0 <= i < rolls@.len() - 1 ==> (#[trigger] rolls@[i]).roll_again && rolls@[i].die1
                        == rolls@[i].die2,
                rolls@.len() == MAX_ROLLS && rolls@.last().die1 == rolls@.last().die2 ==> {
                    &&& rolls@.last().movement == Movement::SentToJail
                    &&& self@.mover().is_jailed()
                    &&& self@.here() == JAIL
                },
            decreases MAX_ROLLS - rolls@.len(),
        {
            let ghost before = self@;
            let ghost so_far = rolls@;
            proof {
                let count = rolls@.len() as int;
                assert((count + 1) * ROLL_GROWTH <= 3 * ROLL_GROWTH) by (nonlinear_arith)
                    requires
                        count + 1 <= 3,
                        ROLL_GROWTH >= 0,
                ;
                lemma_one_less(count + 1, ROLL_GROWTH as int);
            }
            let roll = self.take_turn(driver);
            again = roll.roll_again;
            rolls.push(roll);
            proof {
                assert(rolls@.drop_last() =~= so_far);
                assert forall|i: int| 0 <= i < rolls@.len() - 1 implies (#[trigger] rolls@[i]).roll_again
                    && rolls@[i].die1 == rolls@[i].die2 by {
                    assert(rolls@[i] == so_far[i]);
                }
                let last = rolls@.last();
                assert(self@ == before.replayed(
                    last.die1,
                    last.die2,
                    last.choice,
                    last.bought,
                    last.auctions@,
                ));
                assert forall|i: int| 0 <= i < rolls@.len() implies #[trigger] start.roll_went(
                    rolls@,
                    i,
                ) by {
                    if i < so_far.len() {
                        assert(start.roll_went(so_far, i));
                        assert(rolls@.subrange(0, i) =~= so_far.subrange(0, i));
                        assert(rolls@.subrange(0, i + 1) =~= so_far.subrange(0, i + 1));
                        assert(rolls@[i] == so_far[i]);
                    } else {
                        assert(rolls@.subrange(0, i) =~= so_far);
                        assert(rolls@.subrange(0, i + 1) =~= rolls@);
                    }
                }
            }
        }
        let ghost played = self@;
        proof {
            played.lemma_turn_ended();
            assert(rolls@.len() * ROLL_GROWTH <= 3 * ROLL_GROWTH) by (nonlinear_arith)
                requires
                    rolls@.len() <= 3,
                    ROLL_GROWTH >= 0,
            ;
        }
        self.players[mover].doubles = 0;
        let order = self.bidders();
        proof {
            let reset = played.with_player(mover, Player { doubles: 0, ..played.mover() });
            assert(self@ =~= reset);
            assert forall|p: int| reset.active(p) == played.active(p) by {}
            reset.lemma_same_order(played);
        }
        self.current = order[0];
        assert(self@ =~= played.turn_ended());
        let finished = self.is_finished();
        TurnOutcome { player: mover, rolls, finished }
    }

    /// Advances the game by one turn, as [`Game::advance`] does, where the
    /// game is ready for it and the money in the game leaves room for what a
    /// turn may bring in. Otherwise nothing happens.
    pub fn try_advance<D: Driver>(&mut self, driver: &mut D) -> (result: Option<TurnOutcome>)
        ensures
            result is Some <==> old(self).ready() && old(self)@.has_room(TURN_GROWTH as int),
            result is None ==> *final(self) == *old(self),
            result matches Some(outcome) ==> {
                &&& final(self).ready()
                &&& final(self)@.total_funds() <= old(self)@.total_funds() + TURN_GROWTH
                &&& old(self)@.turned_into(final(self)@, outcome)
                &&& forall|p: int|
                    0 <= p < final(self)@.players.len() ==> (
                    #[trigger] final(self)@.players[p]).money >= 0
            },
    {
        if self.is_ready() && self.has_room(TURN_GROWTH) {
            Some(self.advance(driver))
        } else {
            None
        }
    }

    /// Runs the game turn by turn until a winner is determined, for
    /// `max_turns` turns at most, and for as long as the money in the game
    /// leaves room for another turn. A game that is not ready for a turn is
    /// left as it is.
    ///
    /// The outcome lists the turns that were played, each begun while the
    /// game was not over, and names the winner where the game is over. The
    /// state that results is the one that the rules give for these turns, and
    /// no player is left with a negative balance.
    pub fn run<D: Driver>(&mut self, driver: &mut D, max_turns: usize) -> (outcome: GameOutcome)
        ensures
            !old(self).ready() ==> outcome.turns@.len() == 0 && outcome.winner is None,
            !old(self).ready() ==> *final(self) == *old(self),
            old(self).ready() ==> {
                &&& final(self).ready()
                &&& outcome.turns@.len() <= max_turns
                &&& old(self)@.played(outcome.turns@)
                &&& final(self)@ == old(self)@.after_turns(outcome.turns@)
                &&& outcome.turns@.len() < max_turns ==> final(self)@.is_finished()
                    || !final(self)@.has_room(TURN_GROWTH as int)
                &&& match outcome.winner {
                    Some(player) => final(self)@.is_finished() && final(self)@.active(
                        player as int,
                    ),
                    None => !final(self)@.is_finished(),
                }
                &&& forall|p: int|
                    0 <= p < final(self)@.players.len() ==> (
                    #[trigger] final(self)@.players[p]).money >= 0
            },
    {
        let mut turns: Vec<TurnOutcome> = Vec::new();
        if !self.is_ready() {
            return GameOutcome { turns, winner: None };
        }
        let ghost start = self@;
        while turns.len() < max_turns && !self.is_finished() && self.has_room(TURN_GROWTH)
            invariant
                self.ready(),
                turns@.len() <= max_turns,
                start.played(turns@),
                self@ == start.after_turns(turns@),
            decreases max_turns - turns@.len(),
        {
            let ghost so_far = turns@;
            let ghost before = self@;
            let turn = self.advance(driver);
            turns.push(turn);
            proof {
                assert(turns@ == so_far.push(turns@.last()));
                start.lemma_played_one_more(so_far, turns@.last(), self@);
            }
        }
        proof {
            let somebody = choose|p: int| #[trigger] self@.active(p);
            assert(self@.active(somebody));
            assert forall|p: int| 0 <= p < self@.players.len() implies (
            #[trigger] self@.players[p]).money >= 0 by {
                assert(self@.players[p].wf());
            }
        }
        let winner = self.winner();
        GameOutcome { turns, winner }
    }
}

} // verus!
