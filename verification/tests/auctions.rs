use monopoly::auction::{BID_INCREMENT, MIN_BID};
use monopoly::roll::Movement;
use monopoly::landing::CellEffect;
use monopoly::{
    Auction, AuctionResult, Driver, Game, JailChoice, JailOptions, Player, PropertyState, RentType,
};

fn game(count: usize) -> Game {
    let players = (0..count).map(|index| Player::new(&format!("Player {}", index + 1))).collect();
    Game::new(players).unwrap()
}

fn brief(result: &AuctionResult) -> (usize, Option<usize>, i64) {
    (result.property, result.winner, result.price)
}

fn briefs(results: &[AuctionResult]) -> Vec<(usize, Option<usize>, i64)> {
    results.iter().map(brief).collect()
}

/// A driver whose players bid up to a limit each.
struct Limits {
    buys: bool,
    limits: Vec<i64>,
    asked: Vec<(usize, usize, i64)>,
    offers: Vec<(usize, usize, u32)>,
}

impl Limits {
    fn new(buys: bool, limits: &[i64]) -> Limits {
        Limits { buys, limits: limits.to_vec(), asked: Vec::new(), offers: Vec::new() }
    }
}

impl Driver for Limits {
    fn decide_purchase(&mut self, _game: &Game, player: usize, property: usize, price: u32) -> bool {
        self.offers.push((player, property, price));
        self.buys
    }

    fn decide_bid(&mut self, _game: &Game, player: usize, property: usize, current_bid: i64) -> Option<i64> {
        self.asked.push((player, property, current_bid));
        let next = if current_bid == 0 { 10 } else { current_bid + 10 };
        if next <= self.limits[player] {
            Some(next)
        } else {
            None
        }
    }

    fn decide_jail_exit(&mut self, _game: &Game, _player: usize, _options: JailOptions) -> JailChoice {
        JailChoice::Roll
    }
}

#[test]
fn auction_constants() {
    assert_eq!(MIN_BID, 10);
    assert_eq!(BID_INCREMENT, 10);
}

#[test]
fn auction_steps() {
    let mut auction = Auction::open(6, vec![1, 2, 0]);
    assert!(!auction.is_over());
    assert_eq!(auction.next_bidder(), Some(1));
    assert_eq!(auction.asking(), 10);
    assert_eq!(auction.winner(), None);
    auction.raise();
    assert_eq!(auction.queue, vec![2, 0, 1]);
    assert_eq!(auction.high_bid, 10);
    assert_eq!(auction.leader, Some(1));
    assert_eq!(auction.asking(), 20);
    auction.withdraw();
    assert_eq!(auction.queue, vec![0, 1]);
    assert_eq!(auction.leader, Some(1));
    assert!(!auction.is_over());
    auction.raise();
    assert_eq!(auction.queue, vec![1, 0]);
    assert_eq!(auction.high_bid, 20);
    assert_eq!(auction.leader, Some(0));
    assert_eq!(auction.winner(), None);
    auction.withdraw();
    assert_eq!(auction.queue, vec![0]);
    assert!(auction.is_over());
    assert_eq!(auction.next_bidder(), None);
    assert_eq!(auction.winner(), Some((0, 20)));
}

#[test]
fn auction_that_everybody_leaves_has_no_winner() {
    let mut auction = Auction::open(6, vec![0, 1]);
    auction.withdraw();
    assert!(!auction.is_over());
    assert_eq!(auction.next_bidder(), Some(1));
    assert_eq!(auction.winner(), None);
    auction.withdraw();
    assert!(auction.is_over());
    assert_eq!(auction.winner(), None);
    assert_eq!(auction.high_bid, 0);
}

#[test]
fn auction_without_bidders_is_over_at_once() {
    let auction = Auction::open(6, Vec::new());
    assert!(auction.is_over());
    assert_eq!(auction.winner(), None);
    assert_eq!(auction.next_bidder(), None);
}

#[test]
fn last_bidder_left_must_still_bid_to_win() {
    let mut auction = Auction::open(6, vec![1, 0]);
    auction.withdraw();
    assert!(!auction.is_over());
    auction.raise();
    assert!(auction.is_over());
    assert_eq!(auction.winner(), Some((0, 10)));
}

#[test]
fn bidding_starts_after_the_player_whose_turn_it_is() {
    let mut game = game(4);
    assert_eq!(game.bidders(), vec![1, 2, 3, 0]);
    game.current = 2;
    assert_eq!(game.bidders(), vec![3, 0, 1, 2]);
    game.current = 3;
    assert_eq!(game.bidders(), vec![0, 1, 2, 3]);
    game.players[0].bankrupt = true;
    game.players[0].money = 0;
    assert_eq!(game.bidders(), vec![1, 2, 3]);
    game.players[3].bankrupt = true;
    game.players[3].money = 0;
    assert_eq!(game.bidders(), vec![1, 2]);
}

#[test]
fn award_takes_the_price_and_records_the_winner() {
    let mut game = game(2);
    game.award(6, 1, 110);
    assert_eq!(game.players[1].money, 1390);
    assert_eq!(game.players[0].money, 1500);
    assert_eq!(game.ledger[6], PropertyState::Owned { player: 1, level: RentType::Base });
}

#[test]
fn second_player_wins_at_110_when_the_first_stops_at_100() {
    let mut game = game(2);
    let mut driver = Limits::new(false, &[100, 400]);
    let result = game.auction(6, &mut driver);
    assert_eq!(brief(&result), (6, Some(1), 110));
    assert_eq!(game.players[1].money, 1500 - 110);
    assert_eq!(game.players[0].money, 1500);
    assert_eq!(game.ledger[6], PropertyState::Owned { player: 1, level: RentType::Base });
    // the second player spoke first, at 0, 20, .. 100; the first at 10, .. 110
    let mut answers: Vec<Option<i64>> = (1..=11).map(|step| Some(10 * step)).collect();
    answers.push(None);
    assert_eq!(result.answers, answers);
    assert_eq!(driver.asked.first(), Some(&(1, 6, 0)));
    assert_eq!(driver.asked.last(), Some(&(0, 6, 110)));
    assert_eq!(driver.asked.len(), 12);
    for (turn, asked) in driver.asked.iter().enumerate() {
        assert_eq!(*asked, ((turn + 1) % 2, 6, 10 * turn as i64));
    }
}

#[test]
fn auction_without_a_bid_leaves_the_property_with_the_bank() {
    let mut game = game(3);
    let mut driver = Limits::new(false, &[0, 0, 0]);
    let result = game.auction(6, &mut driver);
    assert_eq!(brief(&result), (6, None, 0));
    assert_eq!(game.ledger[6], PropertyState::Unowned);
    for player in game.players.iter() {
        assert_eq!(player.money, 1500);
    }
    assert_eq!(driver.asked, vec![(1, 6, 0), (2, 6, 0), (0, 6, 0)]);
    assert_eq!(result.answers, vec![None, None, None]);
}

#[test]
fn single_bidder_wins_at_the_opening_bid() {
    let mut game = game(3);
    let mut driver = Limits::new(false, &[0, 0, 1000]);
    let result = game.auction(5, &mut driver);
    assert_eq!(brief(&result), (5, Some(2), 10));
    assert_eq!(game.players[2].money, 1490);
    assert_eq!(game.ledger[5], PropertyState::Owned { player: 2, level: RentType::Base });
}

#[test]
fn bidder_cannot_bid_beyond_the_money_held() {
    let mut game = game(2);
    game.players[1].money = 35;
    let mut driver = Limits::new(false, &[1000, 1000]);
    let result = game.auction(6, &mut driver);
    // second: 10, first: 20, second: 30, first: 40; the second cannot pay 50
    assert_eq!(brief(&result), (6, Some(0), 40));
    assert_eq!(game.players[0].money, 1460);
    assert_eq!(game.players[1].money, 35);
    assert!(driver.asked.iter().all(|(_, _, bid)| *bid <= 30));
    // the last answer is that of the bidder who was not asked
    assert_eq!(result.answers, vec![Some(10), Some(20), Some(30), Some(40), None]);
}

#[test]
fn bankrupt_players_do_not_bid() {
    let mut game = game(3);
    game.players[1].bankrupt = true;
    game.players[1].money = 0;
    let mut driver = Limits::new(false, &[50, 5000, 20]);
    let result = game.auction(6, &mut driver);
    assert!(driver.asked.iter().all(|(player, _, _)| *player != 1));
    // third: 10, first: 20, third: out at 30
    assert_eq!(brief(&result), (6, Some(0), 20));
}

#[test]
fn too_low_a_bid_counts_as_withdrawal() {
    struct Stingy;
    impl Driver for Stingy {
        fn decide_purchase(&mut self, _game: &Game, _: usize, _: usize, _: u32) -> bool {
            false
        }
        fn decide_bid(&mut self, _game: &Game, _: usize, _: usize, current_bid: i64) -> Option<i64> {
            Some(current_bid + 5)
        }
        fn decide_jail_exit(&mut self, _game: &Game, _: usize, _: JailOptions) -> JailChoice {
            JailChoice::Roll
        }
    }
    let mut game = game(2);
    let result = game.auction(6, &mut Stingy);
    assert_eq!(result.winner, None);
    assert_eq!(game.ledger[6], PropertyState::Unowned);
}

#[test]
fn higher_bids_than_asked_raise_by_the_step_only() {
    struct Eager(u32);
    impl Driver for Eager {
        fn decide_purchase(&mut self, _game: &Game, _: usize, _: usize, _: u32) -> bool {
            false
        }
        fn decide_bid(&mut self, _game: &Game, player: usize, _: usize, _: i64) -> Option<i64> {
            self.0 += 1;
            if player == 0 && self.0 < 4 {
                Some(1000)
            } else {
                None
            }
        }
        fn decide_jail_exit(&mut self, _game: &Game, _: usize, _: JailOptions) -> JailChoice {
            JailChoice::Roll
        }
    }
    let mut game = game(2);
    let result = game.auction(6, &mut Eager(0));
    // the second withdraws, the first bids "1000" and pays the opening bid
    assert_eq!(brief(&result), (6, Some(0), 10));
    assert_eq!(game.players[0].money, 1490);
}

#[test]
fn declined_property_goes_to_the_second_player_for_110() {
    let mut game = game(2);
    let mut driver = Limits::new(false, &[100, 110]);
    let outcome = game.resolve_roll(3, 3, &mut driver);
    assert_eq!(outcome.player, 0);
    assert_eq!((outcome.die1, outcome.die2), (3, 3));
    assert_eq!(outcome.movement, Movement::Moved { from: 0, to: 6 });
    assert_eq!(driver.offers, vec![(0, 6, 100)]);
    assert!(!outcome.bought);
    assert_eq!(outcome.effect, CellEffect::Declined { property: 6 });
    assert_eq!(
        briefs(&outcome.auctions),
        vec![(6, Some(1), 110)]
    );
    assert_eq!(game.players[0].current_position, 6);
    assert_eq!(game.players[0].money, 1500);
    assert_eq!(game.players[1].money, 1500 - 110);
    assert_eq!(game.ledger[6], PropertyState::Owned { player: 1, level: RentType::Base });
    assert!(outcome.bankruptcies.is_empty());
    // a double: the first player rolls again
    assert!(outcome.roll_again);
    assert_eq!(game.players[0].doubles, 1);
    assert_eq!(game.current, 0);
}

#[test]
fn declined_property_without_bids_stays_with_the_bank() {
    let mut game = game(3);
    let mut driver = Limits::new(false, &[0, 0, 0]);
    let outcome = game.resolve_roll(2, 3, &mut driver);
    assert_eq!(outcome.movement, Movement::Moved { from: 0, to: 5 });
    assert_eq!(outcome.effect, CellEffect::Declined { property: 5 });
    assert_eq!(
        briefs(&outcome.auctions),
        vec![(5, None, 0)]);
    assert_eq!(game.ledger[5], PropertyState::Unowned);
    assert!(game.players.iter().all(|player| player.money == 1500));
    assert!(!outcome.roll_again);
}

#[test]
fn the_player_who_declined_may_win_the_auction() {
    let mut game = game(2);
    let mut driver = Limits::new(false, &[500, 60]);
    let outcome = game.resolve_roll(4, 2, &mut driver);
    assert_eq!(outcome.effect, CellEffect::Declined { property: 6 });
    // second: 10, first: 20, .. second: 50, first: 60, second: out at 70
    assert_eq!(
        briefs(&outcome.auctions),
        vec![(6, Some(0), 60)]
    );
    assert_eq!(game.players[0].money, 1440);
    assert_eq!(game.ledger[6], PropertyState::Owned { player: 0, level: RentType::Base });
}

#[test]
fn property_that_the_player_cannot_afford_is_auctioned_without_an_offer() {
    let mut game = game(2);
    game.players[0].money = 99;
    let mut driver = Limits::new(true, &[0, 30]);
    let outcome = game.resolve_roll(1, 5, &mut driver);
    assert!(driver.offers.is_empty());
    assert!(!outcome.bought);
    assert_eq!(outcome.effect, CellEffect::Declined { property: 6 });
    assert_eq!(
        briefs(&outcome.auctions),
        vec![(6, Some(1), 10)]
    );
    assert_eq!(game.players[0].money, 99);
}

#[test]
fn bought_property_is_not_auctioned() {
    let mut game = game(2);
    let mut driver = Limits::new(true, &[1000, 1000]);
    let outcome = game.resolve_roll(1, 5, &mut driver);
    assert!(outcome.bought);
    assert_eq!(outcome.effect, CellEffect::Bought { property: 6, price: 100 });
    assert!(outcome.auctions.is_empty());
    assert!(driver.asked.is_empty());
    assert_eq!(game.players[0].money, 1400);
    assert_eq!(game.ledger[6], PropertyState::Owned { player: 0, level: RentType::Base });
}
