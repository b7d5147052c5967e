use monopoly::{
    Auction, Board, Deck, Driver, Effect, Game, JailChoice, JailOptions, JailStatus, Player, Property,
    PropertyGroup, PropertyState, Rent, RentType, Space,
};

fn game(count: usize) -> Game {
    let players = (0..count).map(|index| Player::new(&format!("Player {}", index + 1))).collect();
    Game::new(players).unwrap()
}

fn owned(player: usize, level: RentType) -> PropertyState {
    PropertyState::Owned { player, level }
}

struct Spender;

impl Driver for Spender {
    fn decide_purchase(&mut self, _game: &Game, _: usize, _: usize, _: u32) -> bool {
        true
    }
    fn decide_bid(&mut self, _game: &Game, _: usize, _: usize, current_bid: i64) -> Option<i64> {
        if current_bid < 200 {
            Some(current_bid + 10)
        } else {
            None
        }
    }
    fn decide_jail_exit(&mut self, _game: &Game, _: usize, options: JailOptions) -> JailChoice {
        if options.has_card {
            JailChoice::UseCard
        } else {
            JailChoice::Roll
        }
    }
}

#[test]
fn new_games_are_valid_and_ready() {
    for count in 2..=6 {
        let game = game(count);
        assert!(game.is_valid());
        assert!(game.is_ready());
    }
}

#[test]
fn standard_board_is_valid() {
    assert!(Board::new().is_valid());
    assert!(Board::default().is_valid());
}

#[test]
fn boards_of_the_wrong_size_are_not_valid() {
    let mut board = Board::new();
    board.0.pop();
    assert!(!board.is_valid());
    let mut board = Board::new();
    board.0.push(Space::Chance);
    assert!(!board.is_valid());
    assert!(!Board(Vec::new()).is_valid());
}

#[test]
fn corner_cells_must_stand_in_their_places() {
    for (corner, place) in
        [(Space::Go, 0usize), (Space::Jail, 10), (Space::FreeParking, 20), (Space::GoToJail, 30)]
    {
        assert!(corner.fits(place));
        assert!(!corner.fits(place + 1));
        assert!(!Space::Chance.fits(place));
        assert!(!Space::Tax(5).fits(place));
        let mut board = Board::new();
        board.0[place] = Space::Chance;
        assert!(!board.is_valid());
        let mut board = Board::new();
        board.0[place + 2] = corner;
        assert!(!board.is_valid());
    }
    assert!(Space::Chance.fits(7));
    assert!(Space::CommunityChest.fits(39));
    assert!(Space::Tax(0).fits(1));
}

#[test]
fn properties_must_have_the_schedule_of_their_group() {
    let street = Property {
        name: "Somewhere",
        group: PropertyGroup::Red,
        price: 10,
        mortgage: 5,
        building: Some(3),
        rent: Rent::Property {
            base: 1,
            monopoly: 2,
            house1: 3,
            house2: 4,
            house3: 5,
            house4: 6,
            hotel: 7,
        },
    };
    assert!(street.is_valid());
    assert!(Space::Property(street).fits(1));
    assert!(!Space::Property(street).fits(0));
    assert!(!Property { building: None, ..street }.is_valid());
    assert!(!Property { group: PropertyGroup::Railroad, ..street }.is_valid());
    assert!(!Property { rent: Rent::Utility { base: 4, monopoly: 10 }, ..street }.is_valid());
    let railroad = Property {
        group: PropertyGroup::Railroad,
        building: None,
        rent: Rent::Railroad { owned1: 1, owned2: 2, owned3: 3, owned4: 4 },
        ..street
    };
    assert!(railroad.is_valid());
    assert!(!Property { building: Some(1), ..railroad }.is_valid());
    assert!(!Property { group: PropertyGroup::Utility, ..railroad }.is_valid());
    let utility = Property {
        group: PropertyGroup::Utility,
        building: None,
        rent: Rent::Utility { base: 4, monopoly: 10 },
        ..street
    };
    assert!(utility.is_valid());
    assert!(!Property { group: PropertyGroup::Brown, ..utility }.is_valid());
    let mut board = Board::new();
    board.0[1] = Space::Property(Property { building: None, ..street });
    assert!(!board.is_valid());
}

#[test]
fn cards_and_decks_are_checked() {
    assert!(Effect::RelocateTo(39).is_valid());
    assert!(!Effect::RelocateTo(40).is_valid());
    assert!(Effect::CreditPlayer(u32::MAX).is_valid());
    assert!(Effect::GoToJail.is_valid());
    assert!(Deck::chance().is_valid());
    assert!(Deck::community_chest().is_valid());
    assert!(!Deck { cards: Vec::new() }.is_valid());
    assert!(!Deck { cards: vec![Effect::GoToJail, Effect::RelocateTo(99)] }.is_valid());
    assert!(Deck { cards: vec![Effect::GoToJail] }.is_valid());
}

#[test]
fn games_with_broken_parts_are_not_valid() {
    let mut broken = game(2);
    broken.kitty = -1;
    assert!(!broken.is_valid());
    let mut broken = game(2);
    broken.current = 2;
    assert!(!broken.is_valid());
    let mut broken = game(2);
    broken.ledger.pop();
    assert!(!broken.is_valid());
    let mut broken = game(2);
    broken.players.pop();
    assert!(!broken.is_valid());
    let mut broken = game(6);
    broken.players.push(Player::new("Gus"));
    assert!(!broken.is_valid());
    let mut broken = game(2);
    broken.players[1].money = -5;
    assert!(!broken.is_valid());
    let mut broken = game(2);
    broken.players[1].jail = JailStatus::Visiting;
    assert!(!broken.is_valid());
    let mut broken = game(2);
    broken.chance = Deck { cards: Vec::new() };
    assert!(!broken.is_valid());
    let mut broken = game(2);
    broken.community_chest = Deck { cards: vec![Effect::RelocateTo(40)] };
    assert!(!broken.is_valid());
    let mut broken = game(2);
    broken.board.0[0] = Space::Chance;
    assert!(!broken.is_valid());
}

#[test]
fn records_must_name_properties_and_players_in_the_game() {
    let mut broken = game(2);
    broken.ledger[0] = owned(0, RentType::Base);
    assert!(!broken.entry_valid(0));
    assert!(!broken.is_valid());
    let mut broken = game(2);
    broken.ledger[7] = PropertyState::Mortgaged { player: 0 };
    assert!(!broken.is_valid());
    let mut broken = game(2);
    broken.ledger[6] = owned(2, RentType::Base);
    assert!(!broken.is_valid());
    let mut broken = game(3);
    broken.players[2].bankrupt = true;
    broken.players[2].money = 0;
    assert!(broken.is_valid());
    broken.ledger[6] = PropertyState::Mortgaged { player: 2 };
    assert!(!broken.entry_valid(6));
    assert!(!broken.is_valid());
}

#[test]
fn buildings_need_the_group_intact() {
    let mut game = game(2);
    game.ledger[6] = owned(0, RentType::House1);
    assert!(!game.entry_valid(6));
    assert!(!game.is_valid());
    game.ledger[8] = owned(0, RentType::Base);
    game.ledger[9] = PropertyState::Mortgaged { player: 0 };
    assert!(!game.is_valid());
    game.ledger[9] = owned(1, RentType::Base);
    assert!(!game.is_valid());
    game.ledger[9] = owned(0, RentType::Monopoly);
    assert!(game.entry_valid(6));
    assert!(game.is_valid());
    // no buildings on railroads
    game.ledger[5] = owned(1, RentType::House1);
    for cell in [15, 25, 35] {
        game.ledger[cell] = owned(1, RentType::Base);
    }
    assert!(!game.is_valid());
    game.ledger[5] = owned(1, RentType::Monopoly);
    assert!(game.is_valid());
}

#[test]
fn somebody_must_be_in_the_game() {
    let mut game = game(2);
    for player in game.players.iter_mut() {
        player.bankrupt = true;
        player.money = 0;
    }
    assert!(!game.is_valid());
    assert!(!game.is_ready());
}

#[test]
fn bankrupt_player_has_no_turn_while_the_game_goes_on() {
    let mut game = game(3);
    game.players[0].bankrupt = true;
    game.players[0].money = 0;
    assert!(game.is_valid());
    assert!(!game.is_ready());
    game.current = 1;
    assert!(game.is_ready());
    game.players[2].bankrupt = true;
    game.players[2].money = 0;
    game.current = 0;
    // over: nobody has a turn any more
    assert!(game.is_ready());
}

#[test]
fn run_leaves_a_game_alone_that_is_not_ready() {
    let mut game = game(2);
    game.players[0].money = -1;
    let outcome = game.run(&mut Spender, 10);
    assert_eq!(outcome.winner, None);
    assert!(outcome.turns.is_empty());
    assert_eq!(game.players[0].money, -1);
    assert_eq!(game.players[0].current_position, 0);
    assert_eq!(game.players[1].current_position, 0);
    assert_eq!(game.current, 0);
}

#[test]
fn games_stay_valid_turn_after_turn() {
    for count in 2..=6 {
        let mut game = game(count);
        for _ in 0..300 {
            if game.is_finished() {
                break;
            }
            game.advance(&mut Spender);
            assert!(game.is_valid());
            assert!(game.is_ready());
            assert!(game.players.iter().all(|player| player.money >= 0));
        }
    }
}

#[test]
fn games_stay_valid_roll_after_roll() {
    let mut game = game(4);
    let mut faces = (1usize, 1usize);
    for step in 0..2000 {
        if game.is_finished() {
            break;
        }
        faces = (1 + (faces.0 * 5 + step) % 6, 1 + (faces.1 * 3 + step / 7) % 6);
        let outcome = game.resolve_roll(faces.0, faces.1, &mut Spender);
        assert!(game.is_valid(), "after step {}", step);
        if !outcome.roll_again {
            // pass the turn on by hand
            game.players[outcome.player].doubles = 0;
            let order = game.bidders();
            game.current = order[0];
        }
        assert!(game.is_ready());
    }
}

#[test]
fn answers_raise_or_withdraw() {
    let mut auction = Auction::open(6, vec![0, 1, 2]);
    // less than asked: out
    assert!(!auction.answer(Some(9), 1000));
    assert_eq!(auction.queue, vec![1, 2]);
    // enough, and the money is there: the opening bid
    assert!(auction.answer(Some(10), 10));
    assert_eq!((auction.high_bid, auction.leader), (10, Some(1)));
    assert_eq!(auction.queue, vec![2, 1]);
    // enough, but the money is not there: out
    assert!(!auction.answer(Some(500), 19));
    assert_eq!(auction.queue, vec![1]);
    assert!(auction.is_over());
    assert_eq!(auction.winner(), Some((1, 10)));
    let mut auction = Auction::open(6, vec![0, 1]);
    assert!(auction.answer(Some(700), 20));
    assert_eq!(auction.high_bid, 10);
    assert!(!auction.answer(None, 1000));
    assert_eq!(auction.winner(), Some((0, 10)));
}

#[test]
fn try_advance_plays_only_where_a_turn_can_be_played() {
    let mut game = game(2);
    let outcome = game.try_advance(&mut Spender).expect("a new game is ready");
    assert_eq!(outcome.player, 0);
    assert!(!outcome.rolls.is_empty());
    assert_eq!(game.current, 1);
    // not valid: nothing happens
    game.players[1].money = -1;
    assert!(game.try_advance(&mut Spender).is_none());
    assert_eq!(game.current, 1);
    assert_eq!(game.players[1].current_position, 0);
    game.players[1].money = 1500;
    // no room: nothing happens
    game.kitty = 0x4000_0000_0000_0000;
    assert!(game.is_ready());
    assert!(game.try_advance(&mut Spender).is_none());
    assert_eq!(game.current, 1);
    assert_eq!(game.players[1].current_position, 0);
    game.kitty = 0;
    let outcome = game.try_advance(&mut Spender).expect("ready again");
    assert_eq!(outcome.player, 1);
}

#[test]
fn try_advance_on_a_finished_game_reports_the_end() {
    let mut game = game(2);
    game.players[0].bankrupt = true;
    game.players[0].money = 0;
    let outcome = game.try_advance(&mut Spender).expect("a finished game is ready");
    assert!(outcome.finished);
    assert!(outcome.rolls.is_empty());
}

/// A driver that checks what it is asked.
struct Inspector {
    purchases: usize,
    bids: usize,
    jails: usize,
}

impl Driver for Inspector {
    fn decide_purchase(&mut self, game: &Game, player: usize, property: usize, price: u32) -> bool {
        assert!(game.is_valid());
        assert_eq!(player, game.current);
        assert_eq!(property, game.players[player].current_position);
        assert_eq!(game.ledger[property], PropertyState::Unowned);
        assert_eq!(game.property_at(property).unwrap().price, price);
        assert!(game.players[player].money >= i64::from(price));
        self.purchases += 1;
        self.purchases % 3 != 0
    }

    fn decide_bid(
        &mut self,
        game: &Game,
        player: usize,
        property: usize,
        current_bid: i64,
    ) -> Option<i64> {
        assert!(game.is_valid());
        assert!(game.is_active(player));
        assert_eq!(game.ledger[property], PropertyState::Unowned);
        assert!(game.property_at(property).is_some());
        assert!(current_bid >= 0);
        assert_eq!(current_bid % 10, 0);
        let asked = if current_bid == 0 { 10 } else { current_bid + 10 };
        assert!(game.players[player].money >= asked);
        self.bids += 1;
        if (self.bids + player) % 4 != 0 {
            Some(asked)
        } else {
            None
        }
    }

    fn decide_jail_exit(&mut self, game: &Game, player: usize, options: JailOptions) -> JailChoice {
        assert!(game.is_valid());
        assert_eq!(player, game.current);
        assert!(matches!(game.players[player].jail, JailStatus::Jailed(_)));
        assert_eq!(options.can_pay, game.players[player].money >= 50);
        assert_eq!(options.has_card, game.players[player].jail_cards > 0);
        self.jails += 1;
        match self.jails % 3 {
            0 => JailChoice::UseCard,
            1 => JailChoice::PayFine,
            _ => JailChoice::Roll,
        }
    }
}

#[test]
fn the_driver_is_asked_only_what_it_is_promised() {
    let mut inspector = Inspector { purchases: 0, bids: 0, jails: 0 };
    for count in 2..=6 {
        let mut game = game(count);
        let outcome = game.run(&mut inspector, 400);
        assert!(game.is_ready());
        assert!(outcome.turns.len() <= 400);
    }
    assert!(inspector.purchases > 0);
    assert!(inspector.bids > 0);
    assert!(inspector.jails > 0);
}
