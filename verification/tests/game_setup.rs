use monopoly::deck::DECK_SIZE;
use monopoly::turn::TURN_GROWTH;
use monopoly::{Deck, Effect, Game, GameError, Player, PropertyState, Space};

fn players(count: usize) -> Vec<Player> {
    (0..count).map(|index| Player::new(&format!("Player {}", index + 1))).collect()
}

fn occurrences(cards: &[Effect], card: Effect) -> usize {
    cards.iter().filter(|other| **other == card).count()
}

fn same_cards(left: &[Effect], right: &[Effect]) -> bool {
    left.len() == right.len()
        && left.iter().all(|card| occurrences(left, *card) == occurrences(right, *card))
}

fn standard_chest() -> Vec<Effect> {
    vec![
        Effect::RelocateTo(0),
        Effect::CreditPlayer(200),
        Effect::DebitPlayer(50),
        Effect::CreditPlayer(50),
        Effect::GrantJailCard,
        Effect::GoToJail,
        Effect::CreditPlayer(100),
        Effect::CreditPlayer(20),
        Effect::CollectFromEachPlayer(10),
        Effect::CreditPlayer(100),
        Effect::DebitPlayer(50),
        Effect::DebitPlayer(50),
        Effect::CreditPlayer(25),
        Effect::PerBuildingAssessment { per_house: 40, per_hotel: 115 },
        Effect::CreditPlayer(10),
        Effect::CreditPlayer(100),
    ]
}

#[test]
fn new_game_needs_at_least_two_players() {
    assert_eq!(Game::new(players(0)).err(), Some(GameError::InvalidPlayerCount));
    assert_eq!(Game::new(players(1)).err(), Some(GameError::InvalidPlayerCount));
}

#[test]
fn new_game_takes_at_most_six_players() {
    assert_eq!(Game::new(players(7)).err(), Some(GameError::InvalidPlayerCount));
    assert_eq!(Game::new(players(20)).err(), Some(GameError::InvalidPlayerCount));
}

#[test]
fn new_game_takes_two_to_six_players() {
    for count in 2..=6 {
        let game = Game::new(players(count)).expect("a valid number of players");
        assert_eq!(game.players.len(), count);
        for (index, player) in game.players.iter().enumerate() {
            assert_eq!(player.name, format!("Player {}", index + 1));
            assert_eq!(player.money, 1500);
            assert_eq!(player.current_position, 0);
        }
    }
}

#[test]
fn new_game_refuses_players_who_are_not_fresh() {
    let mut list = players(3);
    list[1].money = 2000;
    assert_eq!(Game::new(list).err(), Some(GameError::IllegalAction));
    let mut list = players(2);
    list[0].current_position = 5;
    assert_eq!(Game::new(list).err(), Some(GameError::IllegalAction));
    let mut list = players(2);
    list[1].bankrupt = true;
    assert_eq!(Game::new(list).err(), Some(GameError::IllegalAction));
    let mut list = players(2);
    list[1].jail_cards = 1;
    assert_eq!(Game::new(list).err(), Some(GameError::IllegalAction));
    let mut list = players(2);
    list[1].last_dice = Some((1, 2));
    assert_eq!(Game::new(list).err(), Some(GameError::IllegalAction));
}

#[test]
fn wrong_count_is_reported_before_stale_players() {
    let mut list = players(7);
    list[1].money = 0;
    assert_eq!(Game::new(list).err(), Some(GameError::InvalidPlayerCount));
}

#[test]
fn new_game_starts_with_the_bank_holding_everything() {
    let game = Game::new(players(4)).unwrap();
    assert_eq!(game.ledger.len(), 40);
    assert!(game.ledger.iter().all(|entry| *entry == PropertyState::Unowned));
    assert_eq!(game.kitty, 0);
    assert_eq!(game.current, 0);
    assert_eq!(game.board.0.len(), 40);
    assert!(matches!(game.board.0[6], Space::Property(property) if property.price == 100));
    assert!(!game.is_finished());
    assert_eq!(game.winner(), None);
    assert_eq!(game.houses_in_use(), 0);
    assert_eq!(game.hotels_in_use(), 0);
}

#[test]
fn new_game_shuffles_both_decks_and_keeps_their_cards() {
    let chest = standard_chest();
    let mut chance = standard_chest();
    chance[9] = Effect::CreditPlayer(20);
    for _ in 0..20 {
        let game = Game::new(players(2)).unwrap();
        assert_eq!(game.community_chest.cards.len(), 16);
        assert_eq!(game.chance.cards.len(), 16);
        assert!(same_cards(&game.community_chest.cards, &chest));
        assert!(same_cards(&game.chance.cards, &chance));
    }
}

#[test]
fn fresh_decks_hold_the_standard_cards_in_order() {
    assert_eq!(DECK_SIZE, 16);
    assert_eq!(Deck::community_chest().cards, standard_chest());
    let mut chance = standard_chest();
    chance[9] = Effect::CreditPlayer(20);
    assert_eq!(Deck::chance().cards, chance);
}

#[test]
fn seventeenth_draw_repeats_the_first() {
    let mut deck = Deck::community_chest();
    let mut drawn = Vec::new();
    for _ in 0..17 {
        drawn.push(deck.draw());
    }
    assert_eq!(drawn[16], drawn[0]);
    assert_eq!(&drawn[..16], &standard_chest()[..]);
    assert_eq!(deck.cards.len(), 16);
    assert_eq!(deck.cards[0], standard_chest()[1]);
}

#[test]
fn no_card_is_skipped_in_a_round_of_a_shuffled_deck() {
    let mut deck = Deck::chance();
    deck.shuffle();
    let before = deck.cards.clone();
    let mut drawn = Vec::new();
    for _ in 0..16 {
        drawn.push(deck.draw());
    }
    assert_eq!(drawn, before);
    assert_eq!(deck.cards, before);
    for round in 0..3 {
        for place in 0..16 {
            assert_eq!(deck.draw(), before[place], "round {} place {}", round, place);
        }
    }
}

#[test]
fn draw_moves_the_front_card_to_the_back() {
    let mut deck = Deck {
        cards: vec![Effect::GoToJail, Effect::GrantJailCard, Effect::CreditPlayer(7)],
    };
    assert_eq!(deck.draw(), Effect::GoToJail);
    assert_eq!(deck.cards, vec![Effect::GrantJailCard, Effect::CreditPlayer(7), Effect::GoToJail]);
    assert_eq!(deck.draw(), Effect::GrantJailCard);
    assert_eq!(deck.draw(), Effect::CreditPlayer(7));
    assert_eq!(deck.draw(), Effect::GoToJail);
}

#[test]
fn deck_of_one_card_draws_it_again_and_again() {
    let mut deck = Deck { cards: vec![Effect::CreditPlayer(1)] };
    for _ in 0..5 {
        assert_eq!(deck.draw(), Effect::CreditPlayer(1));
        assert_eq!(deck.cards, vec![Effect::CreditPlayer(1)]);
    }
}

#[test]
fn shuffle_keeps_the_cards_and_changes_the_order() {
    let fresh = standard_chest();
    let mut changed = 0;
    for _ in 0..30 {
        let mut deck = Deck::community_chest();
        deck.shuffle();
        assert!(same_cards(&deck.cards, &fresh));
        if deck.cards != fresh {
            changed += 1;
        }
    }
    assert!(changed > 0);
}

#[test]
fn shuffle_of_small_decks() {
    let mut empty = Deck { cards: Vec::new() };
    empty.shuffle();
    assert!(empty.cards.is_empty());
    let mut single = Deck { cards: vec![Effect::GoToJail] };
    single.shuffle();
    assert_eq!(single.cards, vec![Effect::GoToJail]);
    let mut orders = [0usize; 2];
    for _ in 0..200 {
        let mut pair = Deck { cards: vec![Effect::GoToJail, Effect::GrantJailCard] };
        pair.shuffle();
        if pair.cards[0] == Effect::GoToJail {
            assert_eq!(pair.cards[1], Effect::GrantJailCard);
            orders[0] += 1;
        } else {
            assert_eq!(pair.cards, vec![Effect::GrantJailCard, Effect::GoToJail]);
            orders[1] += 1;
        }
    }
    assert!(orders[0] > 0 && orders[1] > 0);
}

#[test]
fn game_is_finished_when_one_player_is_left() {
    let mut game = Game::new(players(3)).unwrap();
    assert!(!game.is_finished());
    assert_eq!(game.winner(), None);
    game.players[0].bankrupt = true;
    game.players[0].money = 0;
    assert!(!game.is_finished());
    assert_eq!(game.winner(), None);
    game.players[2].bankrupt = true;
    game.players[2].money = 0;
    assert!(game.is_finished());
    assert_eq!(game.winner(), Some(1));
    assert!(game.is_active(1));
    assert!(!game.is_active(0));
    assert!(!game.is_active(2));
    assert!(!game.is_active(3));
}

#[test]
fn room_for_a_turn_depends_on_the_money_in_the_game() {
    let mut game = Game::new(players(2)).unwrap();
    assert!(game.has_room(TURN_GROWTH));
    assert!(game.has_room(0));
    let ceiling: i64 = 0x4000_0000_0000_0000;
    assert!(game.has_room(ceiling - 3000));
    assert!(!game.has_room(ceiling - 2999));
    game.kitty = 1;
    assert!(!game.has_room(ceiling - 3000));
    assert!(game.has_room(ceiling - 3001));
    game.players[1].money = ceiling;
    assert!(!game.has_room(0));
    game.players[0].money = 0;
    game.kitty = 0;
    assert!(game.has_room(0));
    assert!(!game.has_room(1));
}

#[test]
fn properties_are_found_on_their_cells() {
    let game = Game::new(players(2)).unwrap();
    assert!(game.property_at(0).is_none());
    assert!(game.property_at(2).is_none());
    assert!(game.property_at(40).is_none());
    assert_eq!(game.property_at(6).unwrap().name, "Oriental Avenue");
    assert_eq!(game.property_at(5).unwrap().name, "Reading Railroad");
    assert!(game.same_group(6, 8));
    assert!(game.same_group(6, 9));
    assert!(game.same_group(5, 35));
    assert!(game.same_group(12, 28));
    assert!(!game.same_group(6, 5));
    assert!(!game.same_group(6, 7));
    assert!(!game.same_group(0, 0));
    assert!(!game.same_group(6, 40));
}

fn three_cards() -> Vec<Effect> {
    vec![Effect::GoToJail, Effect::GrantJailCard, Effect::CreditPlayer(7)]
}

#[test]
fn shuffle_by_exchanges_from_the_last_place_down() {
    let mut deck = Deck { cards: three_cards() };
    // the last card with the first, then the second with itself
    assert!(deck.shuffle_by(&vec![0, 1]));
    assert_eq!(deck.cards, vec![Effect::CreditPlayer(7), Effect::GrantJailCard, Effect::GoToJail]);
    let mut deck = Deck { cards: three_cards() };
    // the last card with itself, then the second with the first
    assert!(deck.shuffle_by(&vec![2, 0]));
    assert_eq!(deck.cards, vec![Effect::GrantJailCard, Effect::GoToJail, Effect::CreditPlayer(7)]);
    let mut deck = Deck { cards: three_cards() };
    // the last card with the second, then the second, which was the last, with the first
    assert!(deck.shuffle_by(&vec![1, 0]));
    assert_eq!(deck.cards, vec![Effect::CreditPlayer(7), Effect::GoToJail, Effect::GrantJailCard]);
}

#[test]
fn shuffle_by_picks_of_each_place_itself_changes_nothing() {
    let mut deck = Deck::community_chest();
    let picks: Vec<usize> = (1..16).rev().collect();
    assert!(deck.shuffle_by(&picks));
    assert_eq!(deck.cards, standard_chest());
}

#[test]
fn shuffle_by_first_place_throughout_turns_the_deck_by_one() {
    let mut deck = Deck::community_chest();
    assert!(deck.shuffle_by(&vec![0; 15]));
    let mut turned = standard_chest();
    let front = turned.remove(0);
    turned.push(front);
    assert_eq!(deck.cards, turned);
}

#[test]
fn shuffle_by_refuses_picks_that_do_not_fit() {
    for picks in [vec![], vec![0], vec![0, 0, 0], vec![3, 0], vec![0, 2], vec![usize::MAX, 0]] {
        let mut deck = Deck { cards: three_cards() };
        assert!(!deck.shuffle_by(&picks), "picks {:?}", picks);
        assert_eq!(deck.cards, three_cards());
    }
    let mut empty = Deck { cards: Vec::new() };
    assert!(empty.shuffle_by(&Vec::new()));
    assert!(!empty.shuffle_by(&vec![0]));
    let mut single = Deck { cards: vec![Effect::GoToJail] };
    assert!(single.shuffle_by(&Vec::new()));
    assert!(!single.shuffle_by(&vec![0]));
    assert_eq!(single.cards, vec![Effect::GoToJail]);
}
