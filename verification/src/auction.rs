//! Auctions: bidders take turns to raise the bid by a fixed step or to
//! withdraw for good, until one is left.

use vstd::prelude::*;
use crate::board::NUM_SPACES;
use crate::driver::Driver;
use crate::game::Game;
use crate::model::{GameView, FUNDS_CEILING, MAX_PLAYERS};
use crate::property::{PropertyState, RentType};

verus! {

/// The lowest bid that opens an auction.
pub const MIN_BID: i64 = 10;

/// The step by which each bid exceeds the one before.
pub const BID_INCREMENT: i64 = 10;

/// The bid that is asked when the highest bid stands at `current_bid`: the
/// opening bid where there is none yet, else one step more.
pub open spec fn asking_after(current_bid: int) -> int {
    if current_bid == 0 {
        MIN_BID as int
    } else {
        current_bid + BID_INCREMENT
    }
}

/// An auction as a mathematical value.
pub struct AuctionView {
    /// The cell whose property is for sale.
    pub property: usize,
    /// The bidders who have not withdrawn, the next to speak in front.
    pub queue: Seq<usize>,
    /// The highest bid so far, 0 before the first.
    pub high_bid: int,
    /// Who made the highest bid.
    pub leader: Option<usize>,
}

impl AuctionView {
    /// The auction is over: nobody is left, or only the bidder who leads.
    pub open spec fn is_over(self) -> bool {
        self.queue.len() == 0 || (self.queue.len() == 1 && self.leader is Some)
    }

    /// The bid that the next bidder must make to stay in.
    pub open spec fn asking(self) -> int {
        if self.leader is Some {
            self.high_bid + BID_INCREMENT
        } else {
            MIN_BID as int
        }
    }

    /// The auction after the bidder in front has made the bid asked: that
    /// bidder leads and goes to the back of the queue.
    pub open spec fn raised(self) -> AuctionView {
        AuctionView {
            queue: self.queue.drop_first().push(self.queue[0]),
            high_bid: self.asking(),
            leader: Some(self.queue[0]),
            ..self
        }
    }

    /// The auction after the bidder in front has withdrawn.
    pub open spec fn withdrawn(self) -> AuctionView {
        AuctionView { queue: self.queue.drop_first(), ..self }
    }

    /// Whether an answer of `bid` from a bidder who holds `money` is a raise:
    /// the bid is at least what is asked, and the bidder can pay what is asked.
    pub open spec fn is_raise(self, bid: Option<i64>, money: int) -> bool {
        bid matches Some(offered) && offered >= self.asking() && money >= self.asking()
    }

    /// The auction after the bidder in front, who holds `money`, has answered
    /// `bid`: a raise by the step, or else a withdrawal.
    pub open spec fn answered(self, bid: Option<i64>, money: int) -> AuctionView {
        if self.is_raise(bid, money) {
            self.raised()
        } else {
            self.withdrawn()
        }
    }

    /// Who gets the property, and for how much: the one bidder left, if that
    /// bidder has made a bid.
    pub open spec fn winner(self) -> Option<(usize, int)> {
        if self.queue.len() == 1 && self.leader is Some {
            Some((self.leader->0, self.high_bid))
        } else {
            None
        }
    }

    /// The auction fits the game: every bidder is in the game, the leader is
    /// the last in the queue and can pay the highest bid, and the bids are the
    /// opening bid and steps above it.
    pub open spec fn wf(self, game: GameView) -> bool {
        &&& forall|i: int| 0 <= i < self.queue.len() ==> game.active(#[trigger] self.queue[i] as int)
        &&& match self.leader {
            Some(leader) => {
                &&& self.queue.len() >= 1
                &&& self.queue.last() == leader
                &&& MIN_BID <= self.high_bid <= game.money(leader as int)
                &&& (self.high_bid - MIN_BID) % (BID_INCREMENT as int) == 0
            },
            None => self.high_bid == 0,
        }
    }

    /// A raise by a bidder who can pay keeps the auction fit for the game.
    pub proof fn lemma_raised(self, game: GameView)
        requires
            self.wf(game),
            !self.is_over(),
            self.asking() <= game.money(self.queue[0] as int),
        ensures
            self.raised().wf(game),
            self.raised().queue.len() == self.queue.len(),
            self.raised().high_bid >= self.high_bid + BID_INCREMENT,
    {
        let next = self.raised();
        assert forall|i: int| 0 <= i < next.queue.len() implies game.active(
            #[trigger] next.queue[i] as int,
        ) by {
            if i < next.queue.len() - 1 {
                assert(next.queue[i] == self.queue[i + 1]);
            } else {
                assert(next.queue[i] == self.queue[0]);
            }
        }
    }

    /// A withdrawal keeps the auction fit for the game.
    pub proof fn lemma_withdrawn(self, game: GameView)
        requires
            self.wf(game),
            !self.is_over(),
        ensures
            self.withdrawn().wf(game),
            self.withdrawn().queue.len() == self.queue.len() - 1,
    {
        let next = self.withdrawn();
        assert forall|i: int| 0 <= i < next.queue.len() implies game.active(
            #[trigger] next.queue[i] as int,
        ) by {
            assert(next.queue[i] == self.queue[i + 1]);
        }
        if self.leader is Some {
            assert(next.queue.last() == self.queue.last());
        }
    }
}

/// An auction in progress.
#[derive(Debug)]
pub struct Auction {
    /// The cell whose property is for sale.
    pub property: usize,
    /// The bidders who have not withdrawn, the next to speak in front.
    pub queue: Vec<usize>,
    /// The highest bid so far, 0 before the first.
    pub high_bid: i64,
    /// Who made the highest bid.
    pub leader: Option<usize>,
}

impl View for Auction {
    type V = AuctionView;

    open spec fn view(&self) -> AuctionView {
        AuctionView {
            property: self.property,
            queue: self.queue@,
            high_bid: self.high_bid as int,
            leader: self.leader,
        }
    }
}

/// How an auction went and ended.
#[derive(Clone, Debug, PartialEq, Eq)]
pub struct AuctionResult {
    /// The cell whose property was for sale.
    pub property: usize,
    /// Who won it. `None` where nobody made a bid: the bank keeps the property.
    pub winner: Option<usize>,
    /// What the winner paid the bank, 0 without a winner.
    pub price: i64,
    /// The answers of the bidders, in the order in which they were given.
    /// `None` stands for a withdrawal, and for a bidder who could not pay
    /// what was asked and so was not asked at all.
    pub answers: Vec<Option<i64>>,
}

impl Auction {
    /// Opens an auction of `property` among `bidders`, who speak in that order.
    pub fn open(property: usize, bidders: Vec<usize>) -> (auction: Auction)
        ensures
            auction@ == (AuctionView { property, queue: bidders@, high_bid: 0, leader: None }),
    {
        Auction { property, queue: bidders, high_bid: 0, leader: None }
    }

    /// Whether the auction is over.
    pub fn is_over(&self) -> (over: bool)
        ensures
            over == self@.is_over(),
    {
        self.queue.len() == 0 || (self.queue.len() == 1 && self.leader.is_some())
    }

    /// The bidder who speaks next, unless the auction is over.
    pub fn next_bidder(&self) -> (bidder: Option<usize>)
        ensures
            bidder == (if self@.is_over() {
                None
            } else {
                Some(self@.queue[0])
            }),
    {
        if self.is_over() {
            None
        } else {
            Some(self.queue[0])
        }
    }

    /// The bid that the next bidder must make to stay in.
    pub fn asking(&self) -> (bid: i64)
        requires
            self.high_bid <= FUNDS_CEILING,
        ensures
            bid == self@.asking(),
    {
        if self.leader.is_some() {
            self.high_bid + BID_INCREMENT
        } else {
            MIN_BID
        }
    }

    /// The bidder in front makes the bid asked.
    pub fn raise(&mut self)
        requires
            !old(self)@.is_over(),
            old(self).high_bid <= FUNDS_CEILING,
        ensures
            final(self)@ == old(self)@.raised(),
    {
        let bid = self.asking();
        let bidder = self.queue.remove(0);
        self.queue.push(bidder);
        self.high_bid = bid;
        self.leader = Some(bidder);
        assert(self.queue@ =~= old(self)@.queue.drop_first().push(old(self)@.queue[0]));
    }

    /// The bidder in front withdraws for good.
    pub fn withdraw(&mut self)
        requires
            !old(self)@.is_over(),
        ensures
            final(self)@ == old(self)@.withdrawn(),
    {
        let _ = self.queue.remove(0);
        assert(self.queue@ =~= old(self)@.queue.drop_first());
    }

    /// Takes the answer of the bidder in front, who holds `money`: a bid of at
    /// least what is asked, which the bidder can pay, raises the highest bid by
    /// the step; anything else withdraws the bidder for good.
    pub fn answer(&mut self, bid: Option<i64>, money: i64) -> (raised: bool)
        requires
            !old(self)@.is_over(),
            old(self).high_bid <= FUNDS_CEILING,
        ensures
            raised == old(self)@.is_raise(bid, money as int),
            final(self)@ == old(self)@.answered(bid, money as int),
    {
        let asked = self.asking();
        let raises = match bid {
            Some(offered) => offered >= asked && money >= asked,
            None => false,
        };
        if raises {
            self.raise();
        } else {
            self.withdraw();
        }
        raises
    }

    /// Who gets the property, and for how much.
    pub fn winner(&self) -> (winner: Option<(usize, i64)>)
        ensures
            match winner {
                Some((bidder, price)) => self@.winner() == Some((bidder, price as int)),
                None => self@.winner() is None,
            },
    {
        match self.leader {
            Some(leader) if self.queue.len() == 1 => Some((leader, self.high_bid)),
            _ => None,
        }
    }
}

impl GameView {
    /// The players who are in the game among those numbered `from` up to, but
    /// not including, `upto`, in rising order.
    pub open spec fn active_between(self, from: int, upto: int) -> Seq<usize>
        decreases upto - from,
    {
        if upto <= from {
            Seq::empty()
        } else if self.active(upto - 1) {
            self.active_between(from, upto - 1).push((upto - 1) as usize)
        } else {
            self.active_between(from, upto - 1)
        }
    }

    /// The order in which the players bid: those in the game, beginning with
    /// the player after the one whose turn it is, who comes last.
    pub open spec fn bidding_order(self) -> Seq<usize> {
        self.active_between(self.current + 1, self.players.len() as int) + self.active_between(
            0,
            self.current + 1,
        )
    }

    /// The auction of `property` before the first answer: nobody leads, and
    /// the bidders stand in the bidding order.
    pub open spec fn auction_opened(self, property: usize) -> AuctionView {
        AuctionView { property, queue: self.bidding_order(), high_bid: 0, leader: None }
    }

    /// The auction of `property` after the bidders have answered as `answers`
    /// say, each as the bidder in front at the time, with that bidder's money.
    pub open spec fn auction_after(self, property: usize, answers: Seq<Option<i64>>) -> AuctionView
        decreases answers.len(),
    {
        if answers.len() == 0 {
            self.auction_opened(property)
        } else {
            let before = self.auction_after(property, answers.drop_last());
            before.answered(answers.last(), self.money(before.queue[0] as int))
        }
    }

    /// Whether answer number `index` of an auction of `property` held in this
    /// state was due as `answers` record it: the auction was not over before
    /// it, and a bidder who could not pay what was asked is recorded with no bid.
    pub open spec fn answer_due(
        self,
        property: usize,
        answers: Seq<Option<i64>>,
        index: int,
    ) -> bool {
        let before = self.auction_after(property, answers.subrange(0, index));
        &&& !before.is_over()
        &&& self.money(before.queue[0] as int) < before.asking() ==> answers[index] is None
    }

    /// Whether an auction held in this state went as `result` says: the
    /// bidders answered in the bidding order, each answer was due, the auction
    /// was over after the last of them and not before, and the winner and
    /// the price are those of the last bidder left, if that bidder made a bid.
    pub open spec fn auction_went(self, result: AuctionResult) -> bool {
        let end = self.auction_after(result.property, result.answers@);
        &&& end.is_over()
        &&& forall|k: int|
            0 <= k < result.answers@.len() ==> #[trigger] self.answer_due(
                result.property,
                result.answers@,
                k,
            )
        &&& match end.winner() {
            Some((winner, price)) => result.winner == Some(winner) && result.price == price,
            None => result.winner is None && result.price == 0,
        }
    }

    /// An auction whose answers were all due, held among at most as many
    /// players as a game can have, fits the game after them: whoever leads
    /// is in the game and can pay the highest bid.
    pub proof fn lemma_auction_after(self, property: usize, answers: Seq<Option<i64>>)
        requires
            self.players.len() <= MAX_PLAYERS,
            self.current < self.players.len(),
            forall|k: int| 0 <= k < answers.len() ==> #[trigger] self.answer_due(property, answers, k),
        ensures
            self.auction_after(property, answers).wf(self),
            self.auction_after(property, answers).property == property,
        decreases answers.len(),
    {
        if answers.len() == 0 {
            let head = self.active_between(self.current + 1, self.players.len() as int);
            let tail = self.active_between(0, self.current + 1);
            self.lemma_active_between(self.current + 1, self.players.len() as int);
            self.lemma_active_between(0, self.current + 1);
            let order = self.bidding_order();
            assert forall|i: int| 0 <= i < order.len() implies self.active(
                #[trigger] order[i] as int,
            ) by {
                if i < head.len() {
                    assert(order[i] == head[i]);
                } else {
                    assert(order[i] == tail[i - head.len()]);
                }
            }
        } else {
            let earlier = answers.drop_last();
            assert forall|k: int| 0 <= k < earlier.len() implies #[trigger] self.answer_due(
                property,
                earlier,
                k,
            ) by {
                assert(self.answer_due(property, answers, k));
                assert(earlier.subrange(0, k) =~= answers.subrange(0, k));
            }
            self.lemma_auction_after(property, earlier);
            let before = self.auction_after(property, earlier);
            assert(self.answer_due(property, answers, answers.len() - 1));
            assert(answers.subrange(0, answers.len() - 1) =~= earlier);
            let money = self.money(before.queue[0] as int);
            if before.is_raise(answers.last(), money) {
                before.lemma_raised(self);
            } else {
                before.lemma_withdrawn(self);
            }
        }
    }

    /// Every player listed between two numbers is in the game.
    pub proof fn lemma_active_between(self, from: int, upto: int)
        requires
            0 <= from,
            upto <= usize::MAX,
        ensures
            forall|i: int|
                0 <= i < self.active_between(from, upto).len() ==> self.active(
                    #[trigger] self.active_between(from, upto)[i] as int,
                ),
        decreases upto - from,
    {
        if upto > from {
            self.lemma_active_between(from, upto - 1);
            let shorter = self.active_between(from, upto - 1);
            let list = self.active_between(from, upto);
            assert forall|i: int| 0 <= i < list.len() implies self.active(
                #[trigger] list[i] as int,
            ) by {
                if i < shorter.len() {
                    assert(list[i] == shorter[i]);
                }
            }
        }
    }
}

impl Game {
    /// The players who are in the game among those numbered `from` up to, but
    /// not including, `upto`, added to `out` in rising order.
    fn push_active(&self, out: &mut Vec<usize>, from: usize, upto: usize)
        requires
            from <= upto <= self.players@.len(),
        ensures
            final(out)@ == old(out)@ + self@.active_between(from as int, upto as int),
    {
        let mut index: usize = from;
        assert(self@.active_between(from as int, from as int) =~= Seq::<usize>::empty());
        assert(old(out)@ + Seq::<usize>::empty() =~= old(out)@);
        while index < upto
            invariant
                from <= index <= upto <= self.players@.len(),
                out@ == old(out)@ + self@.active_between(from as int, index as int),
            decreases upto - index,
        {
            if !self.players[index].bankrupt {
                out.push(index);
                assert(out@ =~= old(out)@ + self@.active_between(from as int, index as int + 1));
            }
            index += 1;
        }
    }

    /// The order in which the players bid: those in the game, beginning with
    /// the player after the one whose turn it is.
    pub fn bidders(&self) -> (order: Vec<usize>)
        requires
            self.current < self.players@.len(),
        ensures
            order@ == self@.bidding_order(),
            forall|i: int| 0 <= i < order@.len() ==> self@.active(#[trigger] order@[i] as int),
    {
        let mut order: Vec<usize> = Vec::new();
        let count = self.players.len();
        self.push_active(&mut order, self.current + 1, count);
        self.push_active(&mut order, 0, self.current + 1);
        proof {
            self@.lemma_active_between(self.current + 1, self.players@.len() as int);
            self@.lemma_active_between(0, self.current + 1);
            assert(order@ =~= self@.bidding_order());
        }
        order
    }

    /// `winner` takes the property on `property` from the bank for `price`,
    /// without buildings.
    pub fn award(&mut self, property: usize, winner: usize, price: i64)
        requires
            old(self)@.wf(),
            old(self)@.can_take(winner, property, price as int),
        ensures
            final(self)@ == old(self)@.awarded(property, winner, price as int),
            final(self)@.wf(),
            final(self)@.total_funds() == old(self)@.total_funds() - price,
    {
        proof {
            old(self)@.lemma_awarded(property, winner, price as int);
        }
        self.players[winner].money = self.players[winner].money - price;
        self.ledger[property] = PropertyState::Owned { player: winner, level: RentType::Base };
        assert(self@ =~= old(self)@.awarded(property, winner, price as int));
    }

    /// Auctions the property on `property`, which the bank holds.
    ///
    /// The players who are in the game bid in turn, beginning with the player
    /// after the one whose turn it is. A bidder who can pay what is asked is
    /// asked for a bid; one who cannot, or who answers with less than is asked,
    /// withdraws for good. The auction goes on until it is over. The one
    /// bidder left pays the bank the last bid and takes the property without
    /// buildings. Where nobody bids, nothing changes.
    ///
    /// The result records the answers, and the winner and the price are those
    /// that the rules give for these answers.
    pub fn auction<D: Driver>(&mut self, property: usize, driver: &mut D) -> (result: AuctionResult)
        requires
            old(self)@.wf(),
            old(self)@.has_headroom(),
            property < NUM_SPACES,
            old(self)@.is_property(property as int),
            old(self)@.ledger[property as int] is Unowned,
        ensures
            result.property == property,
            old(self)@.auction_went(result),
            match result.winner {
                Some(winner) => {
                    &&& old(self)@.can_take(winner, property, result.price as int)
                    &&& result.price >= MIN_BID
                    &&& (result.price - MIN_BID) % (BID_INCREMENT as int) == 0
                    &&& final(self)@ == old(self)@.awarded(property, winner, result.price as int)
                },
                None => final(self)@ == old(self)@,
            },
            final(self)@.wf(),
            final(self)@.total_funds() == old(self)@.total_funds() - result.price,
    {
        let mut auction = Auction::open(property, self.bidders());
        let mut answers: Vec<Option<i64>> = Vec::new();
        while !auction.is_over()
            invariant
                *self == *old(self),
                self@.wf(),
                self@.has_headroom(),
                self@.is_property(property as int),
                self@.ledger[property as int] is Unowned,
                auction@.wf(self@),
                auction@ == self@.auction_after(property, answers@),
                forall|k: int|
                    0 <= k < answers@.len() ==> #[trigger] self@.answer_due(property, answers@, k),
            decreases auction@.queue.len() + FUNDS_CEILING - auction@.high_bid,
        {
            let bidder = auction.queue[0];
            proof {
                if auction@.leader is Some {
                    self@.lemma_balances(auction@.leader->0 as int);
                }
                self@.lemma_balances(bidder as int);
                assert(self@.active(auction@.queue[0] as int));
            }
            let money = self.players[bidder].money;
            let bid = if money >= auction.asking() {
                driver.decide_bid(self, bidder, property, auction.high_bid)
            } else {
                None
            };
            let ghost so_far = answers@;
            proof {
                if auction@.is_raise(bid, money as int) {
                    auction@.lemma_raised(self@);
                } else {
                    auction@.lemma_withdrawn(self@);
                }
            }
            let _ = auction.answer(bid, money);
            answers.push(bid);
            proof {
                assert(answers@.drop_last() =~= so_far);
                assert forall|k: int| 0 <= k < answers@.len() implies #[trigger] self@.answer_due(
                    property,
                    answers@,
                    k,
                ) by {
                    if k < so_far.len() {
                        assert(self@.answer_due(property, so_far, k));
                        assert(answers@.subrange(0, k) =~= so_far.subrange(0, k));
                        assert(answers@[k] == so_far[k]);
                    } else {
                        assert(answers@.subrange(0, k) =~= so_far);
                    }
                }
            }
        }
        match auction.winner() {
            Some((winner, price)) => {
                assert(self@.active(auction@.queue[0] as int));
                self.award(property, winner, price);
                AuctionResult { property, winner: Some(winner), price, answers }
            },
            None => AuctionResult { property, winner: None, price: 0, answers },
        }
    }
}

impl GameView {
    // ------------------------------------------------------------------
    // The order of the players
    // ------------------------------------------------------------------
    /// Whoever is in the game is listed among the players between two numbers
    /// that enclose the player's own.
    pub proof fn lemma_active_listed(self, from: int, upto: int, player: int)
        requires
            0 <= from <= player < upto <= usize::MAX,
            self.active(player),
        ensures
            self.active_between(from, upto).contains(player as usize),
        decreases upto - from,
    {
        let list = self.active_between(from, upto);
        if player == upto - 1 {
            assert(list.last() == player as usize);
        } else {
            self.lemma_active_listed(from, upto - 1, player);
            let shorter = self.active_between(from, upto - 1);
            let i = choose|i: int| 0 <= i < shorter.len() && shorter[i] == player as usize;
            assert(list[i] == player as usize);
        }
    }

    /// States with the same players in the game list the same players
    /// between two numbers.
    pub proof fn lemma_same_between(self, other: GameView, from: int, upto: int)
        requires
            forall|p: int| self.active(p) == other.active(p),
        ensures
            self.active_between(from, upto) == other.active_between(from, upto),
        decreases upto - from,
    {
        if upto > from {
            self.lemma_same_between(other, from, upto - 1);
        }
    }

    /// States with the same players in the game and the same turn have the
    /// same bidding order.
    pub proof fn lemma_same_order(self, other: GameView)
        requires
            self.current == other.current,
            self.players.len() == other.players.len(),
            forall|p: int| self.active(p) == other.active(p),
        ensures
            self.bidding_order() == other.bidding_order(),
    {
        self.lemma_same_between(other, self.current + 1, self.players.len() as int);
        self.lemma_same_between(other, 0, self.current + 1);
    }
}

} // verus!
