use monopoly::model::Payee;
use monopoly::{Game, Player, PropertyState, RentType};

fn game(count: usize) -> Game {
    let players = (0..count).map(|index| Player::new(&format!("Player {}", index + 1))).collect();
    Game::new(players).unwrap()
}

fn fresh(count: usize) -> Game {
    game(count)
}

fn owned(player: usize, level: RentType) -> PropertyState {
    PropertyState::Owned { player, level }
}

fn total(game: &Game) -> i64 {
    game.kitty + game.players.iter().map(|player| player.money).sum::<i64>()
}

#[test]
fn debtor_with_the_money_pays_another_player() {
    let mut game = game(2);
    game.buy(0, 6).unwrap();
    let result = game.settle(0, 500, Payee::Player(1));
    assert!(result.solvent);
    assert!(result.forfeited.is_empty());
    assert_eq!(game.players[0].money, 900);
    assert_eq!(game.players[1].money, 2000);
    assert_eq!(game.kitty, 0);
    assert_eq!(game.ledger[6], owned(0, RentType::Base));
    assert!(!game.players[0].bankrupt);
}

#[test]
fn debtor_with_the_money_pays_the_kitty() {
    let mut game = game(2);
    let result = game.settle(1, 1500, Payee::Kitty);
    assert!(result.solvent);
    assert!(result.forfeited.is_empty());
    assert_eq!(game.players[1].money, 0);
    assert_eq!(game.kitty, 1500);
    assert!(!game.players[1].bankrupt);
    assert!(!game.is_finished());
}

#[test]
fn debt_of_nothing_changes_nothing() {
    let mut game = game(2);
    game.players[0].money = 0;
    let result = game.settle(0, 0, Payee::Player(1));
    assert!(result.solvent);
    assert_eq!(game.players[0].money, 0);
    assert_eq!(game.players[1].money, 1500);
    assert!(!game.players[0].bankrupt);
}

#[test]
fn hotel_owner_owing_500_sells_down_then_mortgages() {
    let mut game = game(2);
    for cell in [11, 13, 14] {
        game.ledger[cell] = owned(0, RentType::Base);
    }
    game.ledger[11] = owned(0, RentType::Hotel);
    game.players[0].money = 50;
    // the first step on its own: hotel to four houses, 50 for it
    let mut first = fresh(2);
    first.ledger = game.ledger.clone();
    first.players[0].money = 50;
    first.sell_down(11).unwrap();
    assert_eq!(first.ledger[11], owned(0, RentType::House4));
    assert_eq!(first.players[0].money, 100);

    let before = total(&game);
    let result = game.settle(0, 500, Payee::Player(1));
    // five sales bring 250, three mortgages 70 + 70 + 80
    assert!(result.solvent);
    assert!(result.forfeited.is_empty());
    assert_eq!(game.ledger[11], PropertyState::Mortgaged { player: 0 });
    assert_eq!(game.ledger[13], PropertyState::Mortgaged { player: 0 });
    assert_eq!(game.ledger[14], PropertyState::Mortgaged { player: 0 });
    assert_eq!(game.players[0].money, 50 + 250 + 220 - 500);
    assert_eq!(game.players[1].money, 2000);
    assert!(!game.players[0].bankrupt);
    assert_eq!(total(&game), before + 250 + 220);
}

#[test]
fn liquidation_stops_as_soon_as_the_money_suffices() {
    let mut game = game(2);
    for cell in [11, 13, 14] {
        game.ledger[cell] = owned(0, RentType::Base);
    }
    game.ledger[11] = owned(0, RentType::Hotel);
    game.players[0].money = 50;
    // 50 + 3 * 50 = 200
    let result = game.settle(0, 200, Payee::Kitty);
    assert!(result.solvent);
    assert_eq!(game.ledger[11], owned(0, RentType::House2));
    assert_eq!(game.ledger[13], owned(0, RentType::Base));
    assert_eq!(game.players[0].money, 0);
    assert_eq!(game.kitty, 200);
}

#[test]
fn liquidation_mortgages_only_what_is_needed() {
    let mut game = game(2);
    for cell in [11, 13, 14] {
        game.ledger[cell] = owned(0, RentType::Base);
    }
    game.ledger[11] = owned(0, RentType::Hotel);
    game.players[0].money = 50;
    // 50 + 250 = 300; one mortgage of 70 covers 350
    let result = game.settle(0, 350, Payee::Player(1));
    assert!(result.solvent);
    assert_eq!(game.ledger[11], PropertyState::Mortgaged { player: 0 });
    assert_eq!(game.ledger[13], owned(0, RentType::Base));
    assert_eq!(game.ledger[14], owned(0, RentType::Base));
    assert_eq!(game.players[0].money, 20);
    assert_eq!(game.players[1].money, 1850);
}

#[test]
fn hotel_owner_who_falls_short_goes_bankrupt_to_the_creditor() {
    let mut game = game(3);
    for cell in [11, 13, 14] {
        game.ledger[cell] = owned(0, RentType::Base);
    }
    game.ledger[11] = owned(0, RentType::Hotel);
    game.ledger[5] = PropertyState::Mortgaged { player: 0 };
    game.ledger[6] = owned(2, RentType::Base);
    game.players[0].money = 50;
    let result = game.settle(0, 1000, Payee::Player(1));
    // all that can be raised is 50 + 250 + 220 = 520
    assert!(!result.solvent);
    assert!(result.forfeited.is_empty());
    assert!(game.players[0].bankrupt);
    assert_eq!(game.players[0].money, 0);
    assert_eq!(game.players[1].money, 1500 + 520);
    assert_eq!(game.players[2].money, 1500);
    assert_eq!(game.kitty, 0);
    assert_eq!(game.ledger[11], PropertyState::Mortgaged { player: 1 });
    assert_eq!(game.ledger[13], PropertyState::Mortgaged { player: 1 });
    assert_eq!(game.ledger[14], PropertyState::Mortgaged { player: 1 });
    assert_eq!(game.ledger[5], PropertyState::Mortgaged { player: 1 });
    assert_eq!(game.ledger[6], owned(2, RentType::Base));
    assert_eq!(game.holdings(0), Vec::<usize>::new());
    assert_eq!(game.holdings(1), vec![5, 11, 13, 14]);
    assert!(!game.is_finished());
    assert!(!game.is_active(0));
}

#[test]
fn small_estate_with_a_hotel_falls_short_of_500() {
    let mut game = game(2);
    game.ledger[1] = owned(0, RentType::Hotel);
    game.ledger[3] = owned(0, RentType::Base);
    game.players[0].money = 50;
    let result = game.settle(0, 500, Payee::Player(1));
    // 50 + 5 * 25 + 30 + 30 = 235
    assert!(!result.solvent);
    assert!(game.players[0].bankrupt);
    assert_eq!(game.players[0].money, 0);
    assert_eq!(game.players[1].money, 1500 + 235);
    assert_eq!(game.ledger[1], PropertyState::Mortgaged { player: 1 });
    assert_eq!(game.ledger[3], PropertyState::Mortgaged { player: 1 });
    assert!(game.is_finished());
    assert_eq!(game.winner(), Some(1));
}

#[test]
fn bankruptcy_to_the_kitty_returns_the_properties_to_the_bank() {
    let mut game = game(3);
    game.ledger[1] = owned(1, RentType::House1);
    game.ledger[3] = owned(1, RentType::Base);
    game.ledger[5] = owned(1, RentType::Base);
    game.ledger[12] = PropertyState::Mortgaged { player: 1 };
    game.ledger[6] = owned(0, RentType::Base);
    game.players[1].money = 10;
    game.kitty = 7;
    let result = game.settle(1, 400, Payee::Kitty);
    // 10 + 25 + 30 + 30 + 100 = 195
    assert!(!result.solvent);
    assert_eq!(result.forfeited, vec![1, 3, 5, 12]);
    assert!(game.players[1].bankrupt);
    assert_eq!(game.players[1].money, 0);
    assert_eq!(game.kitty, 7 + 195);
    for cell in [1, 3, 5, 12] {
        assert_eq!(game.ledger[cell], PropertyState::Unowned);
    }
    assert_eq!(game.ledger[6], owned(0, RentType::Base));
    assert_eq!(game.players[0].money, 1500);
    assert_eq!(game.players[2].money, 1500);
}

#[test]
fn debtor_without_anything_goes_bankrupt_at_once() {
    let mut game = game(2);
    game.players[0].money = 0;
    let result = game.settle(0, 1, Payee::Player(1));
    assert!(!result.solvent);
    assert!(game.players[0].bankrupt);
    assert_eq!(game.players[1].money, 1500);
    assert_eq!(game.winner(), Some(1));
}

#[test]
fn buildings_are_sold_one_from_each_property_in_turn() {
    let mut game = game(2);
    game.ledger[1] = owned(0, RentType::House2);
    game.ledger[3] = owned(0, RentType::House2);
    game.players[0].money = 0;
    let result = game.settle(0, 75, Payee::Player(1));
    assert!(result.solvent);
    assert_eq!(game.ledger[1], owned(0, RentType::Monopoly));
    assert_eq!(game.ledger[3], owned(0, RentType::House1));
    assert_eq!(game.players[0].money, 0);
    assert_eq!(game.players[1].money, 1575);
}

#[test]
fn buildings_go_before_any_mortgage() {
    let mut game = game(2);
    game.ledger[1] = owned(0, RentType::House1);
    game.ledger[3] = owned(0, RentType::Base);
    game.ledger[5] = owned(0, RentType::Base);
    game.players[0].money = 0;
    let result = game.settle(0, 20, Payee::Kitty);
    assert!(result.solvent);
    assert_eq!(game.ledger[1], owned(0, RentType::Monopoly));
    assert_eq!(game.ledger[3], owned(0, RentType::Base));
    assert_eq!(game.ledger[5], owned(0, RentType::Base));
    assert_eq!(game.players[0].money, 5);
    assert_eq!(game.kitty, 20);
}

#[test]
fn mortgages_go_in_the_order_of_the_board() {
    let mut game = game(2);
    game.ledger[39] = owned(0, RentType::Base);
    game.ledger[5] = owned(0, RentType::Base);
    game.ledger[12] = owned(0, RentType::Base);
    game.players[0].money = 0;
    let result = game.settle(0, 150, Payee::Player(1));
    // 100 for the railroad, 75 for the utility
    assert!(result.solvent);
    assert_eq!(game.ledger[5], PropertyState::Mortgaged { player: 0 });
    assert_eq!(game.ledger[12], PropertyState::Mortgaged { player: 0 });
    assert_eq!(game.ledger[39], owned(0, RentType::Base));
    assert_eq!(game.players[0].money, 25);
}

#[test]
fn nobody_is_left_in_debt_whatever_the_amount() {
    for amount in [0i64, 1, 49, 50, 51, 299, 300, 301, 519, 520, 521, 5000, i64::MAX] {
        for payee in [Payee::Kitty, Payee::Player(1)] {
            let mut game = game(3);
            for cell in [11, 13, 14] {
                game.ledger[cell] = owned(0, RentType::Base);
            }
            game.ledger[11] = owned(0, RentType::Hotel);
            game.players[0].money = 50;
            let before = total(&game);
            let result = game.settle(0, amount, payee);
            assert_eq!(result.solvent, amount <= 520, "amount {}", amount);
            assert_eq!(game.players[0].bankrupt, !result.solvent);
            for player in game.players.iter() {
                assert!(player.money >= 0);
                assert!(player.is_valid());
            }
            assert!(game.kitty >= 0);
            assert!(total(&game) >= before);
            assert!(total(&game) <= before + 470);
            if result.solvent {
                assert_eq!(game.holdings(0), vec![11, 13, 14]);
            } else {
                assert_eq!(game.holdings(0), Vec::<usize>::new());
                assert_eq!(total(&game), before + 470);
            }
        }
    }
}

#[test]
fn handing_over_keeps_the_mortgage_and_drops_the_rest() {
    let to_player = Payee::Player(4);
    assert_eq!(owned(1, RentType::Monopoly).hand_over(1, to_player), owned(4, RentType::Base));
    assert_eq!(
        PropertyState::Mortgaged { player: 1 }.hand_over(1, to_player),
        PropertyState::Mortgaged { player: 4 }
    );
    assert_eq!(owned(2, RentType::Hotel).hand_over(1, to_player), owned(2, RentType::Hotel));
    assert_eq!(PropertyState::Unowned.hand_over(1, to_player), PropertyState::Unowned);
    assert_eq!(owned(1, RentType::Base).hand_over(1, Payee::Kitty), PropertyState::Unowned);
    assert_eq!(
        PropertyState::Mortgaged { player: 1 }.hand_over(1, Payee::Kitty),
        PropertyState::Unowned
    );
    assert_eq!(
        PropertyState::Mortgaged { player: 3 }.hand_over(1, Payee::Kitty),
        PropertyState::Mortgaged { player: 3 }
    );
}
