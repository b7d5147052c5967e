//! The two decks of event cards, and what a card does.

use vstd::prelude::*;
use crate::board::{GO, NUM_SPACES};
use crate::dice::random_between;

verus! {

/// The number of cards in each standard deck.
pub const DECK_SIZE: usize = 16;

/// What a card does to the player who draws it.
#[derive(Clone, Copy, Debug, PartialEq, Eq, Structural)]
pub enum Effect {
    /// The bank pays the player this amount.
    CreditPlayer(u32),
    /// The player pays this amount into the kitty.
    DebitPlayer(u32),
    /// The player moves to this cell, and earns the bonus when that passes the start.
    RelocateTo(usize),
    /// Every other player pays the player this amount.
    CollectFromEachPlayer(u32),
    /// The player pays into the kitty for each house and each hotel held.
    PerBuildingAssessment { per_house: u32, per_hotel: u32 },
    /// The player receives a "get out of jail free" card.
    GrantJailCard,
    /// The player goes to jail.
    GoToJail,
}

impl Effect {
    /// A relocation leads to a cell of the board.
    pub open spec fn wf(self) -> bool {
        self matches Effect::RelocateTo(cell) ==> cell < NUM_SPACES
    }

    /// Checks the card: see [`Effect::wf`].
    pub fn is_valid(&self) -> (ok: bool)
        ensures
            ok == self.wf(),
    {
        match self {
            Effect::RelocateTo(cell) => *cell < NUM_SPACES,
            _ => true,
        }
    }
}

/// The community chest cards, in the order in which a fresh deck holds them.
pub open spec fn standard_community_chest() -> Seq<Effect> {
    seq![
        Effect::RelocateTo(GO),
        Effect::CreditPlayer(200),
        Effect::DebitPlayer(50),
        Effect::CreditPlayer(50),
        Effect::GrantJailCard,
        Effect::GoToJail,
        Effect::CreditPlayer(100),
        Effect::CreditPlayer(20),
        Effect::CollectFromEachPlayer(10),
        Effect::CreditPlayer(100),
        Effect::DebitPlayer(50),
        Effect::DebitPlayer(50),
        Effect::CreditPlayer(25),
        Effect::PerBuildingAssessment { per_house: 40, per_hotel: 115 },
        Effect::CreditPlayer(10),
        Effect::CreditPlayer(100),
    ]
}

/// The chance cards, in the order in which a fresh deck holds them.
pub open spec fn standard_chance() -> Seq<Effect> {
    standard_community_chest().update(9, Effect::CreditPlayer(20))
}

/// All cards of a sequence are well formed.
pub open spec fn cards_wf(cards: Seq<Effect>) -> bool {
    forall|i: int| 0 <= i < cards.len() ==> (#[trigger] cards[i]).wf()
}

/// The deck after one draw: the front card has gone to the back.
pub open spec fn cycled(cards: Seq<Effect>) -> Seq<Effect>
    recommends
        cards.len() > 0,
{
    cards.drop_first().push(cards[0])
}

/// The deck after `draws` draws.
pub open spec fn after_draws(cards: Seq<Effect>, draws: nat) -> Seq<Effect>
    decreases draws,
{
    if draws == 0 {
        cards
    } else {
        cycled(after_draws(cards, (draws - 1) as nat))
    }
}

/// The card that the draw after `before` earlier draws hands out.
pub open spec fn drawn(cards: Seq<Effect>, before: nat) -> Effect {
    after_draws(cards, before)[0]
}

/// A deck of cards. The front card is drawn next.
#[derive(Clone, Debug)]
pub struct Deck {
    pub cards: Vec<Effect>,
}

impl Deck {
    /// The deck holds at least one card, and each card is well formed.
    pub open spec fn wf(&self) -> bool {
        self.cards@.len() > 0 && cards_wf(self.cards@)
    }

    /// Checks the deck: see [`Deck::wf`].
    pub fn is_valid(&self) -> (ok: bool)
        ensures
            ok == self.wf(),
    {
        if self.cards.len() == 0 {
            return false;
        }
        let mut index: usize = 0;
        while index < self.cards.len()
            invariant
                index <= self.cards@.len(),
                forall|i: int| 0 <= i < index ==> (#[trigger] self.cards@[i]).wf(),
            decreases self.cards@.len() - index,
        {
            if !self.cards[index].is_valid() {
                return false;
            }
            index += 1;
        }
        true
    }

    /// A fresh community chest deck, unshuffled.
    pub fn community_chest() -> (deck: Deck)
        ensures
            deck.cards@ == standard_community_chest(),
            deck.cards@.len() == DECK_SIZE,
            deck.wf(),
    {
        let mut cards: Vec<Effect> = Vec::with_capacity(DECK_SIZE);
        cards.push(Effect::RelocateTo(GO));
        cards.push(Effect::CreditPlayer(200));
        cards.push(Effect::DebitPlayer(50));
        cards.push(Effect::CreditPlayer(50));
        cards.push(Effect::GrantJailCard);
        cards.push(Effect::GoToJail);
        cards.push(Effect::CreditPlayer(100));
        cards.push(Effect::CreditPlayer(20));
        cards.push(Effect::CollectFromEachPlayer(10));
        cards.push(Effect::CreditPlayer(100));
        cards.push(Effect::DebitPlayer(50));
        cards.push(Effect::DebitPlayer(50));
        cards.push(Effect::CreditPlayer(25));
        cards.push(Effect::PerBuildingAssessment { per_house: 40, per_hotel: 115 });
        cards.push(Effect::CreditPlayer(10));
        cards.push(Effect::CreditPlayer(100));
        assert(cards@ =~= standard_community_chest());
        Deck { cards }
    }

    /// A fresh chance deck, unshuffled.
    pub fn chance() -> (deck: Deck)
        ensures
            deck.cards@ == standard_chance(),
            deck.cards@.len() == DECK_SIZE,
            deck.wf(),
    {
        let mut deck = Deck::community_chest();
        deck.cards[9] = Effect::CreditPlayer(20);
        assert(deck.cards@ =~= standard_chance());
        deck
    }

    /// Draws the front card and puts it back at the end of the deck.
    pub fn draw(&mut self) -> (card: Effect)
        requires
            old(self).cards@.len() > 0,
        ensures
            card == old(self).cards@[0],
            final(self).cards@ == cycled(old(self).cards@),
    {
        let card = self.cards.remove(0);
        self.cards.push(card);
        assert(self.cards@ =~= cycled(old(self).cards@));
        card
    }

    /// Puts the cards into a random order: the order that [`Deck::shuffle_by`]
    /// gives for picks drawn at random, each from the places up to its own.
    /// Whatever the numbers drawn, the deck holds the same cards afterwards,
    /// each as often as before.
    pub fn shuffle(&mut self)
        ensures
            exists|picks: Seq<usize>|
                picks_fit(old(self).cards@.len(), picks) && final(self).cards@ == #[trigger] shuffled(
                    old(self).cards@,
                    picks,
                ),
            final(self).cards@.to_multiset() == old(self).cards@.to_multiset(),
            final(self).cards@.len() == old(self).cards@.len(),
    {
        let count = self.cards.len();
        let mut picks: Vec<usize> = Vec::new();
        let mut last: usize = count;
        while last > 1
            invariant
                last <= count,
                count > 0 ==> last >= 1,
                count == old(self).cards@.len(),
                self.cards@ == old(self).cards@,
                picks@.len() == count - last,
                forall|k: int| 0 <= k < picks@.len() ==> (#[trigger] picks@[k]) + k < count,
            decreases last,
        {
            last -= 1;
            picks.push(random_between(0, last));
        }
        assert(picks_fit(count as nat, picks@));
        let _ = self.shuffle_by(&picks);
        assert(self.cards@ == shuffled(old(self).cards@, picks@));
    }

    /// Puts the cards into the order that `picks` give: for each place from
    /// the last down to the second, the card there changes places with the
    /// card at the place picked for it, which must not lie beyond it.
    ///
    /// Picks that do not fit the deck are refused, and the deck stays as it is.
    pub fn shuffle_by(&mut self, picks: &Vec<usize>) -> (done: bool)
        ensures
            done == picks_fit(old(self).cards@.len(), picks@),
            done ==> final(self).cards@ == shuffled(old(self).cards@, picks@),
            !done ==> final(self).cards@ == old(self).cards@,
            final(self).cards@.to_multiset() == old(self).cards@.to_multiset(),
            final(self).cards@.len() == old(self).cards@.len(),
    {
        let count = self.cards.len();
        if (count == 0 && picks.len() != 0) || (count > 0 && picks.len() != count - 1) {
            return false;
        }
        let mut index: usize = 0;
        while index < picks.len()
            invariant
                index <= picks@.len(),
                count == old(self).cards@.len(),
                picks@.len() + 1 == count || (count == 0 && picks@.len() == 0),
                self.cards@ == old(self).cards@,
                forall|k: int| 0 <= k < index ==> (#[trigger] picks@[k]) + k < count,
            decreases picks@.len() - index,
        {
            if picks[index] >= count - index {
                assert(picks@[index as int] + index >= count);
                return false;
            }
            index += 1;
        }
        let mut step: usize = 0;
        while step < picks.len()
            invariant
                step <= picks@.len(),
                picks_fit(count as nat, picks@),
                self.cards@.len() == count,
                old(self).cards@.len() == count,
                self.cards@ == shuffled_upto(old(self).cards@, picks@, step as nat),
                self.cards@.to_multiset() == old(self).cards@.to_multiset(),
            decreases picks@.len() - step,
        {
            let last = count - 1 - step;
            let other = picks[step];
            let ghost before = self.cards@;
            let a = self.cards[last];
            let b = self.cards[other];
            self.cards[last] = b;
            self.cards[other] = a;
            proof {
                lemma_swap_keeps_cards(before, last as int, other as int);
                assert(self.cards@ =~= exchanged(before, last as int, other as int));
            }
            step += 1;
        }
        true
    }
}

/// The cards with those at the places `i` and `j` exchanged.
pub open spec fn exchanged(cards: Seq<Effect>, i: int, j: int) -> Seq<Effect> {
    cards.update(i, cards[j]).update(j, cards[i])
}

/// Whether `picks` fit a deck of `count` cards: there is one pick for each
/// place from the last down to the second, and none lies beyond its place.
pub open spec fn picks_fit(count: nat, picks: Seq<usize>) -> bool {
    &&& picks.len() == if count == 0 {
        0
    } else {
        count - 1
    }
    &&& forall|k: int| 0 <= k < picks.len() ==> (#[trigger] picks[k]) + k < count
}

/// The cards after the first `steps` exchanges of a shuffle by `picks`: the
/// first exchange is that of the last card with the card at the first pick,
/// the next that of the card before the last with the card at the second
/// pick, and so on.
pub open spec fn shuffled_upto(cards: Seq<Effect>, picks: Seq<usize>, steps: nat) -> Seq<Effect>
    decreases steps,
{
    if steps == 0 {
        cards
    } else {
        exchanged(
            shuffled_upto(cards, picks, (steps - 1) as nat),
            cards.len() - steps,
            picks[steps - 1] as int,
        )
    }
}

/// The cards in the order that a shuffle by `picks` gives.
pub open spec fn shuffled(cards: Seq<Effect>, picks: Seq<usize>) -> Seq<Effect> {
    shuffled_upto(cards, picks, picks.len())
}

/// Exchanging two cards of a sequence leaves the same cards in it.
pub proof fn lemma_swap_keeps_cards(cards: Seq<Effect>, i: int, j: int)
    requires
        0 <= i < cards.len(),
        0 <= j < cards.len(),
    ensures
        cards.update(i, cards[j]).update(j, cards[i]).to_multiset() == cards.to_multiset(),
{
    broadcast use vstd::multiset::group_multiset_axioms;

    let a = cards[i];
    let b = cards[j];
    let step = cards.update(i, b);
    vstd::seq_lib::to_multiset_update(cards, i, b);
    vstd::seq_lib::to_multiset_update(step, j, a);
    if i == j {
        assert(step.update(j, a) =~= cards);
    } else {
        assert(step[j] == b);
        cards.to_multiset_ensures();
        assert(cards.contains(a) && cards.contains(b));
        assert(cards.to_multiset().insert(b).remove(a).insert(a).remove(b)
            =~= cards.to_multiset());
    }
}

/// A well-formed sequence of cards stays well formed when its front card goes to the back.
pub proof fn lemma_cycled_wf(cards: Seq<Effect>)
    requires
        cards.len() > 0,
        cards_wf(cards),
    ensures
        cards_wf(cycled(cards)),
        cycled(cards).len() == cards.len(),
{
    let next = cycled(cards);
    assert forall|i: int| 0 <= i < next.len() implies (#[trigger] next[i]).wf() by {
        if i < cards.len() - 1 {
            assert(next[i] == cards[i + 1]);
        } else {
            assert(next[i] == cards[0]);
        }
    }
}

/// After any number of draws the deck is the deck as it was, turned by that many
/// places: the card at place `i` is the one that stood `draws` places further
/// on, counted round the deck.
pub proof fn lemma_after_draws(cards: Seq<Effect>, draws: nat)
    requires
        cards.len() > 0,
    ensures
        after_draws(cards, draws).len() == cards.len(),
        forall|i: int|
            0 <= i < cards.len() ==> #[trigger] after_draws(cards, draws)[i] == cards[(i + draws) % (
            cards.len() as int)],
    decreases draws,
{
    let n = cards.len() as int;
    if draws == 0 {
        assert forall|i: int| 0 <= i < n implies #[trigger] after_draws(cards, draws)[i]
            == cards[(i + draws) % n] by {
            vstd::arithmetic::div_mod::lemma_small_mod(i as nat, n as nat);
        }
    } else {
        let before = after_draws(cards, (draws - 1) as nat);
        lemma_after_draws(cards, (draws - 1) as nat);
        assert forall|i: int| 0 <= i < n implies #[trigger] after_draws(cards, draws)[i]
            == cards[(i + draws) % n] by {
            if i < n - 1 {
                assert(cycled(before)[i] == before[i + 1]);
            } else {
                assert(cycled(before)[i] == before[0]);
                assert((0 + (draws - 1)) % n == (i + draws) % n) by {
                    vstd::arithmetic::div_mod::lemma_mod_add_multiples_vanish(draws - 1, n);
                }
            }
        }
    }
}

/// Drawing is cyclic: the draw that follows `before` earlier draws hands out the
/// card at place `before` modulo the size of the deck, so no card is skipped in a
/// round, a card comes back after as many draws as the deck has cards, and a
/// full round leaves the deck as it was.
pub proof fn lemma_draw_is_cyclic(cards: Seq<Effect>, before: nat)
    requires
        cards.len() > 0,
    ensures
        drawn(cards, before) == cards[before as int % (cards.len() as int)],
        before < cards.len() ==> drawn(cards, before) == cards[before as int],
        drawn(cards, before + cards.len()) == drawn(cards, before),
        after_draws(cards, cards.len()) == cards,
{
    let n = cards.len() as int;
    lemma_after_draws(cards, before);
    lemma_after_draws(cards, before + cards.len());
    lemma_after_draws(cards, cards.len());
    assert((0 + before as int) % n == before as int % n);
    assert((0 + (before as int + n)) % n == before as int % n) by {
        vstd::arithmetic::div_mod::lemma_mod_add_multiples_vanish(before as int, n);
    }
    if before < cards.len() {
        vstd::arithmetic::div_mod::lemma_small_mod(before, cards.len());
    }
    assert forall|i: int| 0 <= i < n implies #[trigger] after_draws(cards, cards.len())[i]
        == cards[i] by {
        vstd::arithmetic::div_mod::lemma_mod_add_multiples_vanish(i, n);
        vstd::arithmetic::div_mod::lemma_small_mod(i as nat, n as nat);
    }
    assert(after_draws(cards, cards.len()) =~= cards);
}

} // verus!
