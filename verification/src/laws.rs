//! What holds of the rules as a whole, beyond what each function says of itself.

use vstd::prelude::*;
use crate::board::{standard_board, standard_space, Space, NUM_SPACES};
use crate::landing::LANDING_GROWTH;
use crate::board::JAIL;
use crate::landing::CellEffect;
use crate::model::{GameView, Payee};
use crate::roll::{auctioned, Movement, RollOutcome};
use crate::property::{PropertyGroup, PropertyState, Rent, RentType};
use crate::auction::MIN_BID;
use crate::model::MAX_LEVELS;
use crate::settle::{SELL_PASS_GROWTH, SETTLE_GROWTH};
use crate::turn::{TurnOutcome, MAX_ROLLS};

verus! {

/// On a street without buildings whose holder has the whole colour group, the
/// rent is the monopoly entry of the schedule, whatever the dice.
pub proof fn lemma_monopoly_rent(game: GameView, pos: int, dice: int)
    requires
        game.is_property(pos),
        game.property(pos).rent is Property,
        game.ledger[pos] matches PropertyState::Owned { player, level } && level.buildings() == 0
            && game.holds_group(player, pos),
    ensures
        game.tier(pos) == RentType::Monopoly,
        game.rent_due(pos, dice) == game.property(pos).rent->Property_monopoly,
{
}

/// On a street without buildings whose holder lacks a property of the colour
/// group, the rent is the base entry of the schedule.
pub proof fn lemma_base_rent(game: GameView, pos: int, dice: int)
    requires
        game.is_property(pos),
        game.property(pos).rent is Property,
        game.ledger[pos] matches PropertyState::Owned { player, level } && level.buildings() == 0
            && !game.holds_group(player, pos),
    ensures
        game.tier(pos) == RentType::Base,
        game.rent_due(pos, dice) == game.property(pos).rent->Property_base,
{
}

/// On every street of the standard board the monopoly entry of the rent
/// schedule is twice the base entry, and so strictly greater.
pub proof fn lemma_standard_monopoly_entry(pos: usize)
    requires
        pos < NUM_SPACES,
        standard_space(pos) matches Space::Property(property) && property.group.is_street(),
    ensures
        standard_space(pos) matches Space::Property(property) && (
        property.rent matches Rent::Property { base, monopoly, .. } && monopoly == 2 * base
            && monopoly > base),
{
}

/// On the standard board, the rent on a street without buildings whose holder
/// has the whole colour group is the monopoly entry of its schedule, which is
/// strictly greater than the base entry.
pub proof fn lemma_monopoly_rent_exceeds_base(game: GameView, pos: usize, dice: int)
    requires
        game.board == standard_board(),
        pos < NUM_SPACES,
        game.is_property(pos as int),
        game.property(pos as int).group.is_street(),
        game.ledger[pos as int] matches PropertyState::Owned { player, level } && level.buildings()
            == 0 && game.holds_group(player, pos as int),
    ensures
        game.property(pos as int).rent is Property,
        game.rent_due(pos as int, dice) == game.property(pos as int).rent->Property_monopoly,
        game.rent_due(pos as int, dice) > game.property(pos as int).rent->Property_base,
{
    assert(game.board[pos as int] == standard_space(pos));
    lemma_standard_monopoly_entry(pos);
    lemma_monopoly_rent(game, pos as int, dice);
}

/// On the standard board the rent of a railroad is 25 for one railroad held
/// and doubles with each further one.
pub proof fn lemma_standard_railroad_rent(pos: usize, tier: RentType, dice: int)
    requires
        pos < NUM_SPACES,
        standard_space(pos) matches Space::Property(property) && property.group
            == PropertyGroup::Railroad,
    ensures
        standard_space(pos)->Property_0.rent.due(tier, 1, dice) == 25,
        standard_space(pos)->Property_0.rent.due(tier, 2, dice) == 25 * 2,
        standard_space(pos)->Property_0.rent.due(tier, 3, dice) == 25 * 2 * 2,
        standard_space(pos)->Property_0.rent.due(tier, 4, dice) == 25 * 2 * 2 * 2,
{
}

/// On the standard board the rent of a utility is four times the dice for
/// one utility held and ten times the dice for both.
pub proof fn lemma_standard_utility_rent(pos: usize, tier: RentType, dice: int)
    requires
        pos < NUM_SPACES,
        standard_space(pos) matches Space::Property(property) && property.group
            == PropertyGroup::Utility,
    ensures
        standard_space(pos)->Property_0.rent.due(tier, 1, dice) == 4 * dice,
        standard_space(pos)->Property_0.rent.due(tier, 2, dice) == 10 * dice,
{
    assert(pos == 12 || pos == 28);
    let rent = standard_space(pos)->Property_0.rent;
    assert(rent == Rent::Utility { base: 4, monopoly: 10 });
}

/// A visitor who has the rent pays exactly the rent that is due: the holder
/// has that much more afterwards and the visitor that much less, and nothing
/// is sold or mortgaged.
pub proof fn lemma_rent_collected(game: GameView, dice: int, buy: bool)
    requires
        game.wf(),
        game.has_room(LANDING_GROWTH as int),
        game.active(game.current as int),
        0 <= dice <= 255,
        game.is_property(game.here() as int),
        game.ledger[game.here() as int] matches PropertyState::Owned { player, .. } && player
            != game.current,
        game.money(game.current as int) >= game.rent_due(game.here() as int, dice),
    ensures
        ({
            let rent = game.rent_due(game.here() as int, dice);
            let holder = game.ledger[game.here() as int]->Owned_player;
            let next = game.landed(dice, buy);
            &&& next.money(holder as int) == game.money(holder as int) + rent
            &&& next.money(game.current as int) == game.money(game.current as int) - rent
            &&& next.ledger == game.ledger
            &&& next.kitty == game.kitty
        }),
{
    let pos = game.here() as int;
    let rent = game.rent_due(pos, dice);
    let holder = game.ledger[pos]->Owned_player;
    assert(game.mover().wf());
    assert(game.entry_wf(pos));
    game.lemma_rent_due(pos, dice);
    game.lemma_liquidated(game.current, rent);
    game.lemma_balances(game.current as int);
    game.lemma_credited(game.current, -rent);
    let mid = game.credited(game.current, -rent);
    mid.lemma_balances(holder as int);
    mid.lemma_credited(holder, rent);
    assert(mid.money(holder as int) == game.money(holder as int));
    let next = mid.credited(holder, rent);
    assert(next == game.landed(dice, buy));
    assert(next.money(game.current as int) == mid.money(game.current as int));
}

/// Whoever settles a debt ends with the debt paid in full or bankrupt, and
/// with no less than nothing either way. A debtor goes bankrupt only when the
/// buildings are sold, every property is mortgaged and the money still falls
/// short; a debtor who has the money sells and mortgages nothing.
pub proof fn lemma_debts_end_in_payment_or_bankruptcy(
    game: GameView,
    debtor: usize,
    amount: int,
    payee: Payee,
)
    requires
        game.wf(),
        game.has_room(SETTLE_GROWTH as int),
        game.can_owe(debtor, payee),
        0 <= amount,
    ensures
        ({
            let raised = game.liquidated(debtor, amount);
            let next = game.settled(debtor, amount, payee);
            &&& next.wf()
            &&& forall|p: int| 0 <= p < next.players.len() ==> (#[trigger] next.players[p]).money >= 0
            &&& next.players[debtor as int].bankrupt <==> raised.money(debtor as int) < amount
            &&& !next.players[debtor as int].bankrupt ==> next.money(debtor as int) == raised.money(
                debtor as int,
            ) - amount
            &&& next.players[debtor as int].bankrupt ==> {
                &&& next.money(debtor as int) == 0
                &&& raised.levels_at_most(debtor, 0)
                &&& forall|pos: int|
                    0 <= pos < NUM_SPACES && (#[trigger] raised.ledger[pos]).owner() == Some(debtor)
                        ==> raised.ledger[pos] is Mortgaged
                &&& forall|pos: int|
                    0 <= pos < NUM_SPACES ==> (#[trigger] next.ledger[pos]).owner() != Some(debtor)
            }
            &&& game.money(debtor as int) >= amount ==> raised == game
        }),
{
    let raised = game.liquidated(debtor, amount);
    let next = game.settled(debtor, amount, payee);
    game.lemma_liquidated(debtor, amount);
    game.lemma_settled(debtor, amount, payee);
    game.lemma_eased_can_owe(raised, debtor, payee);
    if raised.money(debtor as int) >= amount {
        raised.lemma_paid(debtor, amount, payee);
    } else {
        raised.lemma_surrendered(debtor, payee);
    }
    assert forall|p: int| 0 <= p < next.players.len() implies (#[trigger] next.players[p]).money
        >= 0 by {
        assert(next.players[p].wf());
    }
}

/// A double grants another roll, whatever its faces, to a player who is in
/// the game and out of jail when the roll is over, unless the game is over
/// by then. No other roll grants one.
pub proof fn lemma_double_rolls_again(game: GameView, next: GameView, outcome: RollOutcome)
    requires
        game.rolled_into(next, outcome),
    ensures
        outcome.roll_again <==> outcome.die1 == outcome.die2 && next.active(next.current as int)
            && !next.mover().is_jailed() && !next.is_finished(),
        outcome.roll_again ==> next.mover().doubles == game.mover().doubles + 1,
        !outcome.roll_again ==> next.mover().doubles == 0,
{
}

/// The third double in a row sends the player to jail, whatever its faces:
/// the player does not move by it, stands on the jail cell as an inmate
/// afterwards, and does not roll again.
pub proof fn lemma_third_double_leads_to_jail(
    game: GameView,
    next: GameView,
    outcome: RollOutcome,
)
    requires
        game.wf(),
        game.rolled_into(next, outcome),
        outcome.die1 == outcome.die2,
        !game.mover().is_jailed(),
        game.mover().doubles >= 2,
    ensures
        outcome.movement == Movement::SentToJail,
        outcome.effect == CellEffect::Nothing,
        outcome.auctions@.len() == 0,
        next.mover().is_jailed(),
        next.here() == JAIL,
        next.mover().money == game.mover().money,
        !outcome.roll_again,
{
    let a = outcome.die1;
    let b = outcome.die2;
    assert(!game.roll_moves(a, b, outcome.choice));
    assert(auctioned(outcome.auctions@).len() == 0);
    assert(outcome.auctions@ =~= Seq::empty());
    let begun = game.roll_begun(a, b, outcome.choice);
    assert(begun.after_auctions(outcome.auctions@) == begun);
}

/// A property that the player whose turn it is lands on and does not buy is
/// auctioned exactly once in that roll, among the players who are in the
/// game, in the state in which the player landed.
///
/// The auction goes as its recorded answers say and is over with the last of
/// them. Where a bidder is left who has made a bid, that bidder is the
/// winner, the price is that bidder's last bid, the winner's money falls by
/// exactly the price, and the property is the winner's, without buildings.
/// Where nobody has made a bid, there is no winner and the property stays
/// the bank's. Nobody else's money and no other property changes.
pub proof fn lemma_declined_property_is_auctioned_once(
    game: GameView,
    next: GameView,
    outcome: RollOutcome,
)
    requires
        game.wf(),
        game.rolled_into(next, outcome),
        outcome.effect is Declined,
    ensures
        ({
            let property = outcome.effect->Declined_property;
            let begun = game.roll_begun(outcome.die1, outcome.die2, outcome.choice);
            let sale = outcome.auctions@[0];
            let end = begun.auction_after(property, sale.answers@);
            &&& outcome.auctions@.len() == 1
            &&& sale.property == property
            &&& property == begun.here()
            &&& begun.ledger[property as int] is Unowned
            &&& begun.auction_went(sale)
            &&& end.is_over()
            &&& match end.winner() {
                Some((winner, price)) => {
                    &&& sale.winner == Some(winner)
                    &&& sale.price == price
                    &&& begun.active(winner as int)
                    &&& MIN_BID <= price <= begun.money(winner as int)
                    &&& next.ledger[property as int] == (PropertyState::Owned {
                        player: winner,
                        level: RentType::Base,
                    })
                    &&& next.money(winner as int) == begun.money(winner as int) - price
                    &&& forall|p: int|
                        0 <= p < begun.players.len() && p != winner ==> #[trigger] next.money(p)
                            == begun.money(p)
                },
                None => {
                    &&& sale.winner is None
                    &&& sale.price == 0
                    &&& next.ledger[property as int] is Unowned
                    &&& forall|p: int|
                        0 <= p < begun.players.len() ==> #[trigger] next.money(p) == begun.money(p)
                },
            }
            &&& forall|pos: int|
                0 <= pos < begun.ledger.len() && pos != property ==> #[trigger] next.ledger[pos]
                    == begun.ledger[pos]
            &&& next.kitty == begun.kitty
        }),
{
    let a = outcome.die1;
    let b = outcome.die2;
    let property = outcome.effect->Declined_property;
    let begun = game.roll_begun(a, b, outcome.choice);
    assert(game.mover().wf());
    assert(game.roll_moves(a, b, outcome.choice));
    let list = begun.landing_auctions(a + b, outcome.bought);
    assert(list =~= seq![property]);
    assert(auctioned(outcome.auctions@).len() == 1);
    assert(auctioned(outcome.auctions@)[0] == property);
    let landed = game.roll_landed(a, b, outcome.choice, outcome.bought);
    assert(landed == begun);
    let sale = outcome.auctions@[0];
    assert(outcome.auctions@.drop_last() =~= Seq::empty());
    assert(outcome.auctions@.subrange(0, 0) =~= Seq::empty());
    assert(landed.after_auctions(outcome.auctions@.drop_last()) == landed);
    assert(outcome.auctions@.last() == sale);
    assert(landed.auction_held(outcome.auctions@, 0));
    assert(begun.auction_went(sale));
    begun.lemma_auction_after(property, sale.answers@);
    let sold = begun.after_auction(sale);
    assert(begun.after_auctions(outcome.auctions@) == sold);
    assert(next == sold.roll_ended(a, b, game.mover().doubles));
}

/// Who owes more than the money in hand sells buildings first and mortgages
/// only when no building is left: where the sales cover the debt, nothing
/// is mortgaged, and where something is mortgaged, the debtor has no
/// building any more. Sales and mortgages change nothing but the debtor's
/// own money and properties.
pub proof fn lemma_sales_come_before_mortgages(game: GameView, debtor: usize, amount: int)
    requires
        game.wf(),
        game.has_room(SETTLE_GROWTH as int),
        debtor < game.players.len(),
    ensures
        ({
            let sold = game.sell_rounds(debtor, amount, MAX_LEVELS as nat);
            let raised = game.liquidated(debtor, amount);
            &&& game.eased(sold, debtor)
            &&& sold.eased(raised, debtor)
            &&& forall|pos: int|
                0 <= pos < NUM_SPACES ==> ((#[trigger] sold.ledger[pos]) is Mortgaged
                    <==> game.ledger[pos] is Mortgaged)
            &&& sold.money(debtor as int) >= amount ==> raised == sold
            &&& raised != sold ==> sold.levels_at_most(debtor, 0) && raised.levels_at_most(
                debtor,
                0,
            )
        }),
{
    let sold = game.sell_rounds(debtor, amount, MAX_LEVELS as nat);
    let raised = game.liquidated(debtor, amount);
    assert(game.levels_at_most(debtor, 5)) by {
        assert forall|pos: int|
            0 <= pos < NUM_SPACES && (#[trigger] game.ledger[pos]).owner() == Some(
                debtor,
            ) implies game.ledger[pos].buildings() <= 5 by {}
    }
    assert(MAX_LEVELS * SELL_PASS_GROWTH <= SETTLE_GROWTH);
    game.lemma_sell_rounds(debtor, amount, MAX_LEVELS as nat, 5);
    assert forall|pos: int| 0 <= pos < NUM_SPACES implies ((#[trigger] sold.ledger[pos]) is Mortgaged
        <==> game.ledger[pos] is Mortgaged) by {
        game.lemma_sell_rounds_keep_mortgages(debtor, amount, MAX_LEVELS as nat, pos);
    }
    if sold.money(debtor as int) < amount {
        sold.lemma_mortgage_pass(debtor, amount, 0);
    } else {
        sold.lemma_eased_same(debtor);
    }
}

/// The rolls of a turn are linked by doubles: a roll after which the player
/// rolls again is a double and is followed by another roll, and a roll that
/// is no double is the last of its turn.
pub proof fn lemma_rolls_are_linked_by_doubles(
    game: GameView,
    next: GameView,
    outcome: TurnOutcome,
    index: int,
)
    requires
        game.turned_into(next, outcome),
        !game.is_finished(),
        0 <= index < outcome.rolls@.len(),
    ensures
        outcome.rolls@[index].roll_again ==> outcome.rolls@[index].die1 == outcome.rolls@[index].die2
            && index + 1 < outcome.rolls@.len(),
        outcome.rolls@[index].die1 != outcome.rolls@[index].die2 ==> index + 1
            == outcome.rolls@.len(),
        !outcome.rolls@[index].roll_again <==> index + 1 == outcome.rolls@.len(),
{
    let rolls = outcome.rolls@;
    let start = game.turn_begun();
    assert(start.roll_went(rolls, index));
    if index + 1 < rolls.len() {
        assert(rolls[index].roll_again);
    } else {
        assert(rolls[index] == rolls.last());
    }
}

/// A turn in which the player rolls three doubles in a row ends with the
/// player in jail, on the jail cell, whatever the faces of the third double;
/// and no turn has more than three rolls.
pub proof fn lemma_three_doubles_end_the_turn_in_jail(
    game: GameView,
    next: GameView,
    outcome: TurnOutcome,
)
    requires
        game.turned_into(next, outcome),
        !game.is_finished(),
    ensures
        outcome.rolls@.len() <= MAX_ROLLS,
        outcome.rolls@.len() == MAX_ROLLS && outcome.rolls@[2].die1 == outcome.rolls@[2].die2 ==> {
            &&& outcome.rolls@[0].die1 == outcome.rolls@[0].die2
            &&& outcome.rolls@[1].die1 == outcome.rolls@[1].die2
            &&& outcome.rolls@[2].movement == Movement::SentToJail
            &&& next.players[game.current as int].is_jailed()
            &&& next.players[game.current as int].current_position == JAIL
        },
{
}

} // verus!
