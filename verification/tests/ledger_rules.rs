use monopoly::{Game, GameError, Player, PropertyState, RentType};

fn game(count: usize) -> Game {
    let players = (0..count).map(|index| Player::new(&format!("Player {}", index + 1))).collect();
    Game::new(players).unwrap()
}

fn owned(player: usize, level: RentType) -> PropertyState {
    PropertyState::Owned { player, level }
}

fn snapshot(game: &Game) -> (Vec<i64>, Vec<PropertyState>, i64) {
    (game.players.iter().map(|player| player.money).collect(), game.ledger.clone(), game.kitty)
}

#[test]
fn buying_pays_the_price_and_records_the_owner() {
    let mut game = game(2);
    assert_eq!(game.buy(0, 6), Ok(()));
    assert_eq!(game.players[0].money, 1400);
    assert_eq!(game.players[1].money, 1500);
    assert_eq!(game.ledger[6], owned(0, RentType::Base));
    assert_eq!(game.buy(1, 39), Ok(()));
    assert_eq!(game.players[1].money, 1100);
    assert_eq!(game.ledger[39], owned(1, RentType::Base));
    assert_eq!(game.holdings(0), vec![6]);
    assert_eq!(game.holdings(1), vec![39]);
}

#[test]
fn buying_with_exactly_the_price() {
    let mut game = game(2);
    game.players[0].money = 100;
    assert_eq!(game.buy(0, 6), Ok(()));
    assert_eq!(game.players[0].money, 0);
}

#[test]
fn buying_is_refused_without_changes() {
    let mut game = game(2);
    game.buy(1, 6).unwrap();
    let before = snapshot(&game);
    // already owned
    assert_eq!(game.buy(0, 6), Err(GameError::IllegalAction));
    assert_eq!(game.buy(1, 6), Err(GameError::IllegalAction));
    // no property on the cell
    assert_eq!(game.buy(0, 0), Err(GameError::IllegalAction));
    assert_eq!(game.buy(0, 7), Err(GameError::IllegalAction));
    assert_eq!(game.buy(0, 30), Err(GameError::IllegalAction));
    // no such cell, no such player
    assert_eq!(game.buy(0, 40), Err(GameError::IllegalAction));
    assert_eq!(game.buy(2, 8), Err(GameError::IllegalAction));
    // not enough money
    game.players[0].money = 99;
    assert_eq!(game.buy(0, 8), Err(GameError::IllegalAction));
    game.players[0].money = 1500;
    assert_eq!(snapshot(&game), before);
}

#[test]
fn bankrupt_player_cannot_buy() {
    let mut game = game(3);
    game.players[2].bankrupt = true;
    game.players[2].money = 0;
    assert_eq!(game.buy(2, 6), Err(GameError::IllegalAction));
    assert_eq!(game.ledger[6], PropertyState::Unowned);
}

#[test]
fn mortgaged_property_cannot_be_bought() {
    let mut game = game(2);
    game.buy(0, 6).unwrap();
    game.mortgage(6).unwrap();
    assert_eq!(game.buy(1, 6), Err(GameError::IllegalAction));
}

#[test]
fn building_needs_the_whole_group() {
    let mut game = game(2);
    game.buy(0, 6).unwrap();
    game.buy(0, 8).unwrap();
    let before = snapshot(&game);
    assert_eq!(game.build_up(6), Err(GameError::IllegalAction));
    assert_eq!(snapshot(&game), before);
    game.buy(1, 9).unwrap();
    assert_eq!(game.build_up(6), Err(GameError::IllegalAction));
    assert_eq!(game.build_up(9), Err(GameError::IllegalAction));
}

#[test]
fn building_goes_from_no_building_to_hotel_and_stops() {
    let mut game = game(2);
    for cell in [6, 8, 9] {
        game.buy(0, cell).unwrap();
    }
    assert_eq!(game.players[0].money, 1500 - 100 - 100 - 120);
    assert_eq!(game.tier(6), RentType::Monopoly);
    let levels = [
        RentType::House1,
        RentType::House2,
        RentType::House3,
        RentType::House4,
        RentType::Hotel,
    ];
    let mut money = 1180;
    for level in levels {
        assert_eq!(game.build_up(6), Ok(()));
        money -= 50;
        assert_eq!(game.ledger[6], owned(0, level));
        assert_eq!(game.players[0].money, money);
        assert_eq!(game.tier(6), level);
    }
    let before = snapshot(&game);
    assert_eq!(game.build_up(6), Err(GameError::IllegalAction));
    assert_eq!(snapshot(&game), before);
    assert_eq!(game.houses_in_use(), 0);
    assert_eq!(game.hotels_in_use(), 1);
    assert_eq!(game.ledger[8], owned(0, RentType::Base));
}

#[test]
fn building_is_refused_on_what_is_not_a_street_of_one_holder() {
    let mut game = game(2);
    for cell in [5, 15, 25, 35, 12, 28] {
        game.buy(0, cell).unwrap();
    }
    let before = snapshot(&game);
    assert_eq!(game.build_up(5), Err(GameError::IllegalAction));
    assert_eq!(game.build_up(12), Err(GameError::IllegalAction));
    assert_eq!(game.build_up(6), Err(GameError::IllegalAction));
    assert_eq!(game.build_up(0), Err(GameError::IllegalAction));
    assert_eq!(game.build_up(40), Err(GameError::IllegalAction));
    assert_eq!(snapshot(&game), before);
}

#[test]
fn building_is_refused_while_the_group_has_a_mortgage() {
    let mut game = game(2);
    for cell in [1, 3] {
        game.buy(0, cell).unwrap();
    }
    game.mortgage(3).unwrap();
    let before = snapshot(&game);
    assert_eq!(game.build_up(1), Err(GameError::IllegalAction));
    assert_eq!(game.build_up(3), Err(GameError::IllegalAction));
    assert_eq!(snapshot(&game), before);
    game.unmortgage(3).unwrap();
    assert_eq!(game.build_up(1), Ok(()));
}

#[test]
fn building_is_refused_without_the_money() {
    let mut game = game(2);
    for cell in [37, 39] {
        game.buy(0, cell).unwrap();
    }
    game.players[0].money = 199;
    assert_eq!(game.build_up(39), Err(GameError::IllegalAction));
    assert_eq!(game.players[0].money, 199);
    game.players[0].money = 200;
    assert_eq!(game.build_up(39), Ok(()));
    assert_eq!(game.players[0].money, 0);
    assert_eq!(game.ledger[39], owned(0, RentType::House1));
}

#[test]
fn thirty_third_house_is_refused() {
    let mut game = game(2);
    for cell in [1, 3, 6, 8, 9, 11, 13, 14] {
        game.ledger[cell] = owned(0, RentType::House4);
    }
    for cell in [16, 18, 19] {
        game.ledger[cell] = owned(1, RentType::Base);
    }
    assert_eq!(game.houses_in_use(), 32);
    assert_eq!(game.houses_held(0), 32);
    assert_eq!(game.houses_held(1), 0);
    let before = snapshot(&game);
    assert_eq!(game.build_up(16), Err(GameError::IllegalAction));
    assert_eq!(snapshot(&game), before);
    // a hotel takes no house from the bank and gives four back
    assert_eq!(game.build_up(1), Ok(()));
    assert_eq!(game.ledger[1], owned(0, RentType::Hotel));
    assert_eq!(game.houses_in_use(), 28);
    assert_eq!(game.hotels_in_use(), 1);
    assert_eq!(game.build_up(16), Ok(()));
    assert_eq!(game.ledger[16], owned(1, RentType::House1));
    assert_eq!(game.houses_in_use(), 29);
}

#[test]
fn thirteenth_hotel_is_refused() {
    let mut game = game(2);
    for cell in [1, 3, 6, 8, 9, 11, 13, 14, 16, 18, 19, 21] {
        game.ledger[cell] = owned(0, RentType::Hotel);
    }
    game.ledger[23] = owned(0, RentType::House4);
    game.ledger[24] = owned(0, RentType::House4);
    assert_eq!(game.hotels_in_use(), 12);
    assert_eq!(game.hotels_held(0), 12);
    assert_eq!(game.houses_in_use(), 8);
    let before = snapshot(&game);
    assert_eq!(game.build_up(23), Err(GameError::IllegalAction));
    assert_eq!(snapshot(&game), before);
    game.sell_down(21).unwrap();
    assert_eq!(game.hotels_in_use(), 11);
    assert_eq!(game.build_up(23), Ok(()));
    assert_eq!(game.ledger[23], owned(0, RentType::Hotel));
}

#[test]
fn selling_a_building_returns_half_its_cost() {
    let mut game = game(2);
    for cell in [11, 13, 14] {
        game.ledger[cell] = owned(1, RentType::Base);
    }
    game.ledger[11] = owned(1, RentType::Hotel);
    game.players[1].money = 50;
    assert_eq!(game.sell_down(11), Ok(()));
    assert_eq!(game.ledger[11], owned(1, RentType::House4));
    assert_eq!(game.players[1].money, 100);
    for (level, money) in [
        (RentType::House3, 150),
        (RentType::House2, 200),
        (RentType::House1, 250),
        (RentType::Monopoly, 300),
    ] {
        assert_eq!(game.sell_down(11), Ok(()));
        assert_eq!(game.ledger[11], owned(1, level));
        assert_eq!(game.players[1].money, money);
    }
    let before = snapshot(&game);
    assert_eq!(game.sell_down(11), Err(GameError::IllegalAction));
    assert_eq!(game.sell_down(13), Err(GameError::IllegalAction));
    assert_eq!(game.sell_down(12), Err(GameError::IllegalAction));
    assert_eq!(game.sell_down(40), Err(GameError::IllegalAction));
    assert_eq!(snapshot(&game), before);
    assert_eq!(game.players[0].money, 1500);
}

#[test]
fn selling_rounds_half_the_cost_down() {
    let mut game = game(2);
    // a board of one's own: a street whose buildings cost 75
    if let monopoly::Space::Property(property) = &mut game.board.0[1] {
        property.building = Some(75);
    }
    game.ledger[1] = owned(0, RentType::House1);
    game.ledger[3] = owned(0, RentType::Base);
    assert_eq!(game.sell_down(1), Ok(()));
    assert_eq!(game.players[0].money, 1537);
}

#[test]
fn mortgaging_pays_the_mortgage_value_and_stops_the_rent() {
    let mut game = game(2);
    game.buy(0, 6).unwrap();
    assert_eq!(game.rent_due(6, 7), 6);
    assert_eq!(game.mortgage(6), Ok(()));
    assert_eq!(game.ledger[6], PropertyState::Mortgaged { player: 0 });
    assert_eq!(game.players[0].money, 1400 + 50);
    assert_eq!(game.rent_due(6, 7), 0);
    assert_eq!(game.holdings(0), vec![6]);
    let before = snapshot(&game);
    assert_eq!(game.mortgage(6), Err(GameError::IllegalAction));
    assert_eq!(game.mortgage(8), Err(GameError::IllegalAction));
    assert_eq!(game.mortgage(0), Err(GameError::IllegalAction));
    assert_eq!(game.mortgage(40), Err(GameError::IllegalAction));
    assert_eq!(snapshot(&game), before);
}

#[test]
fn mortgaging_is_refused_while_the_group_is_built_on() {
    let mut game = game(2);
    for cell in [6, 8, 9] {
        game.buy(0, cell).unwrap();
    }
    game.build_up(9).unwrap();
    let before = snapshot(&game);
    assert_eq!(game.mortgage(6), Err(GameError::IllegalAction));
    assert_eq!(game.mortgage(8), Err(GameError::IllegalAction));
    assert_eq!(game.mortgage(9), Err(GameError::IllegalAction));
    assert_eq!(snapshot(&game), before);
    game.sell_down(9).unwrap();
    assert_eq!(game.ledger[9], owned(0, RentType::Monopoly));
    assert_eq!(game.mortgage(9), Ok(()));
    assert_eq!(game.ledger[9], PropertyState::Mortgaged { player: 0 });
}

#[test]
fn lifting_a_mortgage_costs_a_tenth_more() {
    let mut game = game(2);
    game.buy(0, 6).unwrap();
    game.mortgage(6).unwrap();
    assert_eq!(game.players[0].money, 1450);
    assert_eq!(game.unmortgage(6), Ok(()));
    assert_eq!(game.players[0].money, 1450 - 55);
    assert_eq!(game.ledger[6], owned(0, RentType::Base));
    // 175 and a tenth of it, rounded down
    game.buy(1, 37).unwrap();
    game.mortgage(37).unwrap();
    assert_eq!(game.players[1].money, 1500 - 350 + 175);
    assert_eq!(game.unmortgage(37), Ok(()));
    assert_eq!(game.players[1].money, 1325 - 192);
}

#[test]
fn lifting_a_mortgage_is_refused_without_changes() {
    let mut game = game(2);
    game.buy(0, 6).unwrap();
    let before = snapshot(&game);
    assert_eq!(game.unmortgage(6), Err(GameError::IllegalAction));
    assert_eq!(game.unmortgage(8), Err(GameError::IllegalAction));
    assert_eq!(game.unmortgage(40), Err(GameError::IllegalAction));
    assert_eq!(snapshot(&game), before);
    game.mortgage(6).unwrap();
    game.players[0].money = 54;
    assert_eq!(game.unmortgage(6), Err(GameError::IllegalAction));
    assert_eq!(game.players[0].money, 54);
    assert_eq!(game.ledger[6], PropertyState::Mortgaged { player: 0 });
    game.players[0].money = 55;
    assert_eq!(game.unmortgage(6), Ok(()));
    assert_eq!(game.players[0].money, 0);
}

#[test]
fn rent_on_a_street_follows_holdings_and_buildings() {
    let mut game = game(2);
    assert_eq!(game.rent_due(6, 7), 0);
    game.buy(0, 6).unwrap();
    assert_eq!(game.tier(6), RentType::Base);
    assert_eq!(game.rent_due(6, 7), 6);
    game.buy(0, 8).unwrap();
    assert_eq!(game.rent_due(6, 7), 6);
    game.buy(0, 9).unwrap();
    // the monopoly tier applies at once, on each street of the group
    assert_eq!(game.ledger[6], owned(0, RentType::Base));
    assert_eq!(game.tier(6), RentType::Monopoly);
    assert_eq!(game.rent_due(6, 7), 12);
    assert_eq!(game.rent_due(8, 7), 12);
    assert_eq!(game.rent_due(9, 7), 16);
    game.build_up(9).unwrap();
    assert_eq!(game.rent_due(9, 7), 40);
    assert_eq!(game.rent_due(6, 7), 12);
    game.build_up(9).unwrap();
    assert_eq!(game.rent_due(9, 7), 100);
    game.build_up(9).unwrap();
    assert_eq!(game.rent_due(9, 7), 300);
    game.build_up(9).unwrap();
    assert_eq!(game.rent_due(9, 7), 450);
    game.build_up(9).unwrap();
    assert_eq!(game.rent_due(9, 7), 600);
}

#[test]
fn monopoly_rent_exceeds_base_rent_on_every_street() {
    let groups: [&[usize]; 8] = [
        &[1, 3],
        &[6, 8, 9],
        &[11, 13, 14],
        &[16, 18, 19],
        &[21, 23, 24],
        &[26, 27, 29],
        &[31, 32, 34],
        &[37, 39],
    ];
    for group in groups {
        let mut game = game(2);
        let mut base = Vec::new();
        for cell in group {
            game.ledger[*cell] = owned(1, RentType::Base);
        }
        // one street of the group with another holder: base rent everywhere
        game.ledger[group[0]] = owned(0, RentType::Base);
        for cell in group {
            assert_eq!(game.tier(*cell), RentType::Base);
            base.push(game.rent_due(*cell, 7));
        }
        game.ledger[group[0]] = owned(1, RentType::Base);
        for (index, cell) in group.iter().enumerate() {
            assert_eq!(game.tier(*cell), RentType::Monopoly);
            let rent = game.rent_due(*cell, 7);
            assert!(rent > base[index]);
            assert_eq!(rent, 2 * base[index]);
            match game.property_at(*cell).unwrap().rent {
                monopoly::Rent::Property { base: entry, monopoly, .. } => {
                    assert_eq!(rent, monopoly as i64);
                    assert_eq!(base[index], entry as i64);
                }
                _ => panic!("a street"),
            }
        }
    }
}

#[test]
fn monopoly_rent_applies_even_with_a_mortgage_in_the_group() {
    let mut game = game(2);
    for cell in [6, 8, 9] {
        game.buy(0, cell).unwrap();
    }
    game.mortgage(8).unwrap();
    assert!(game.holds_group(0, 6));
    assert!(!game.group_intact(0, 6));
    assert_eq!(game.rent_due(6, 7), 12);
    assert_eq!(game.rent_due(8, 7), 0);
}

#[test]
fn rent_on_railroads_counts_the_railroads_held() {
    let mut game = game(3);
    game.buy(0, 5).unwrap();
    assert_eq!(game.owned_in_group(0, 5), 1);
    assert_eq!(game.rent_due(5, 7), 25);
    game.buy(0, 15).unwrap();
    assert_eq!(game.rent_due(5, 7), 50);
    assert_eq!(game.rent_due(15, 7), 50);
    game.buy(1, 25).unwrap();
    assert_eq!(game.rent_due(25, 7), 25);
    assert_eq!(game.rent_due(5, 7), 50);
    game.buy(0, 35).unwrap();
    assert_eq!(game.owned_in_group(0, 5), 3);
    assert_eq!(game.owned_in_group(1, 5), 1);
    assert_eq!(game.owned_in_group(2, 5), 0);
    assert_eq!(game.rent_due(35, 7), 100);
    game.ledger[25] = owned(0, RentType::Base);
    assert_eq!(game.rent_due(5, 7), 200);
    assert_eq!(game.rent_due(25, 2), 200);
}

#[test]
fn rent_on_utilities_multiplies_the_dice() {
    let mut game = game(2);
    game.buy(1, 12).unwrap();
    assert_eq!(game.rent_due(12, 7), 28);
    assert_eq!(game.rent_due(12, 12), 48);
    assert_eq!(game.rent_due(12, 2), 8);
    game.buy(1, 28).unwrap();
    assert_eq!(game.rent_due(12, 7), 70);
    assert_eq!(game.rent_due(28, 11), 110);
}

#[test]
fn group_questions() {
    let mut game = game(2);
    assert!(!game.holds_group(0, 6));
    assert!(game.group_unbuilt(6));
    game.buy(0, 1).unwrap();
    assert!(!game.holds_group(0, 1));
    game.buy(0, 3).unwrap();
    assert!(game.holds_group(0, 1));
    assert!(game.holds_group(0, 3));
    assert!(!game.holds_group(1, 1));
    assert!(game.group_intact(0, 1));
    game.build_up(3).unwrap();
    assert!(!game.group_unbuilt(1));
    assert!(!game.group_unbuilt(3));
    assert!(game.group_unbuilt(6));
}
