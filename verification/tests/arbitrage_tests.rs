use cfb_betting_ev::arbitrage::{find_moneyline_arbitrage, find_spread_arbitrage};
use cfb_betting_ev::models::{BettingOdds, Game, MoneylineOdds, SpreadOdds};

fn create_test_game(home: &str, away: &str) -> Game {
    Game {
        id: "test_game_1".to_string(),
        home_team: home.to_string(),
        away_team: away.to_string(),
        commence_time: 1_700_000_000,
        sport_title: "Test Sport".to_string(),
    }
}

fn create_betting_odds(
    game_id: &str,
    bookmaker: &str,
    moneyline: Vec<MoneylineOdds>,
    spreads: Vec<SpreadOdds>,
) -> BettingOdds {
    BettingOdds {
        game_id: game_id.to_string(),
        bookmaker: bookmaker.to_string(),
        last_update: 1_700_000_000,
        moneyline,
        spreads,
    }
}

fn pct(r: &cfb_betting_ev::ratio::Ratio) -> f64 {
    r.num as f64 / r.den as f64
}

#[test]
fn test_moneyline_arbitrage_found() {
    // BookA: Home +120 (45.5% implied), BookB: Away +125 (44.4% implied)
    // Total: 89.9% < 100%, so arbitrage exists
    let game = create_test_game("Home Team", "Away Team");

    let book_a_odds = create_betting_odds(
        &game.id,
        "BookmakerA",
        vec![MoneylineOdds { team: "Home Team".to_string(), price: 120 }],
        vec![],
    );

    let book_b_odds = create_betting_odds(
        &game.id,
        "BookmakerB",
        vec![MoneylineOdds { team: "Away Team".to_string(), price: 125 }],
        vec![],
    );

    let games_with_odds = vec![(game, vec![book_a_odds, book_b_odds])];

    let result = find_moneyline_arbitrage(&games_with_odds);

    assert_eq!(result.len(), 1);
    let arb = &result[0];
    assert_eq!(arb.home_team, "Home Team");
    assert_eq!(arb.away_team, "Away Team");
    assert_eq!(arb.home_odds, 120);
    assert_eq!(arb.away_odds, 125);
    assert!(pct(&arb.profit_percentage) > 0.0);
    assert!(pct(&arb.home_stake_percentage) + pct(&arb.away_stake_percentage) > 99.0);
    assert!(pct(&arb.home_stake_percentage) + pct(&arb.away_stake_percentage) < 101.0);
}

#[test]
fn test_moneyline_no_arbitrage() {
    // BookA: Home -110 (52.4% implied), Away -110 (52.4% implied)
    // Total: 104.8% > 100%, so no arbitrage
    let game = create_test_game("Home Team", "Away Team");

    let book_a_odds = create_betting_odds(
        &game.id,
        "BookmakerA",
        vec![
            MoneylineOdds { team: "Home Team".to_string(), price: -110 },
            MoneylineOdds { team: "Away Team".to_string(), price: -110 },
        ],
        vec![],
    );

    let games_with_odds = vec![(game, vec![book_a_odds])];

    let result = find_moneyline_arbitrage(&games_with_odds);

    assert_eq!(result.len(), 0);
}

#[test]
fn test_moneyline_arbitrage_multiple_bookmakers() {
    let game = create_test_game("Home Team", "Away Team");

    let book_a_odds = create_betting_odds(
        &game.id,
        "BookmakerA",
        vec![
            MoneylineOdds { team: "Home Team".to_string(), price: 110 },
            MoneylineOdds { team: "Away Team".to_string(), price: 105 },
        ],
        vec![],
    );

    let book_b_odds = create_betting_odds(
        &game.id,
        "BookmakerB",
        vec![MoneylineOdds { team: "Home Team".to_string(), price: 130 }],
        vec![],
    );

    let book_c_odds = create_betting_odds(
        &game.id,
        "BookmakerC",
        vec![MoneylineOdds { team: "Away Team".to_string(), price: 140 }],
        vec![],
    );

    let games_with_odds = vec![(game, vec![book_a_odds, book_b_odds, book_c_odds])];

    let result = find_moneyline_arbitrage(&games_with_odds);

    assert_eq!(result.len(), 1);
    let arb = &result[0];
    assert_eq!(arb.home_odds, 130);
    assert_eq!(arb.away_odds, 140);
    assert_eq!(arb.home_bookmaker, "BookmakerB");
    assert_eq!(arb.away_bookmaker, "BookmakerC");
}

#[test]
fn test_spread_arbitrage_found() {
    let game = create_test_game("Home Team", "Away Team");

    let book_a_odds = create_betting_odds(
        &game.id,
        "BookmakerA",
        vec![],
        vec![SpreadOdds { team: "Home Team".to_string(), point: -7_000_000, price: 110 }],
    );

    let book_b_odds = create_betting_odds(
        &game.id,
        "BookmakerB",
        vec![],
        vec![SpreadOdds { team: "Away Team".to_string(), point: 7_000_000, price: 110 }],
    );

    let games_with_odds = vec![(game, vec![book_a_odds, book_b_odds])];

    let result = find_spread_arbitrage(&games_with_odds);

    assert_eq!(result.len(), 1);
    let arb = &result[0];
    assert_eq!(arb.side1_spread, -7_000_000);
    assert_eq!(arb.side2_spread, 7_000_000);
    assert!(pct(&arb.profit_percentage) > 0.0);
}

#[test]
fn test_spread_no_arbitrage() {
    let game = create_test_game("Home Team", "Away Team");

    let book_a_odds = create_betting_odds(
        &game.id,
        "BookmakerA",
        vec![],
        vec![
            SpreadOdds { team: "Home Team".to_string(), point: -7_000_000, price: -110 },
            SpreadOdds { team: "Away Team".to_string(), point: 7_000_000, price: -110 },
        ],
    );

    let games_with_odds = vec![(game, vec![book_a_odds])];

    let result = find_spread_arbitrage(&games_with_odds);

    assert_eq!(result.len(), 0);
}

#[test]
fn test_spread_arbitrage_ignores_non_matching_spreads() {
    let game = create_test_game("Home Team", "Away Team");

    let book_a_odds = create_betting_odds(
        &game.id,
        "BookmakerA",
        vec![],
        vec![SpreadOdds { team: "Home Team".to_string(), point: -7_000_000, price: 110 }],
    );

    let book_b_odds = create_betting_odds(
        &game.id,
        "BookmakerB",
        vec![],
        vec![SpreadOdds { team: "Away Team".to_string(), point: 6_500_000, price: 110 }],
    );

    let games_with_odds = vec![(game, vec![book_a_odds, book_b_odds])];

    let result = find_spread_arbitrage(&games_with_odds);

    assert_eq!(result.len(), 0);
}

#[test]
fn test_empty_games_returns_empty() {
    let games_with_odds: Vec<(Game, Vec<BettingOdds>)> = vec![];

    let moneyline_result = find_moneyline_arbitrage(&games_with_odds);
    let spread_result = find_spread_arbitrage(&games_with_odds);

    assert_eq!(moneyline_result.len(), 0);
    assert_eq!(spread_result.len(), 0);
}

#[test]
fn test_arbitrage_profit_calculation() {
    // Home +100 (50% implied), Away +110 (47.6% implied)
    // Total: 97.6%, profit should be about 2.4%
    let game = create_test_game("Home Team", "Away Team");

    let book_a_odds = create_betting_odds(
        &game.id,
        "BookmakerA",
        vec![MoneylineOdds { team: "Home Team".to_string(), price: 100 }],
        vec![],
    );

    let book_b_odds = create_betting_odds(
        &game.id,
        "BookmakerB",
        vec![MoneylineOdds { team: "Away Team".to_string(), price: 110 }],
        vec![],
    );

    let games_with_odds = vec![(game, vec![book_a_odds, book_b_odds])];

    let result = find_moneyline_arbitrage(&games_with_odds);

    assert_eq!(result.len(), 1);
    let arb = &result[0];

    assert!(pct(&arb.profit_percentage) > 2.0);
    assert!(pct(&arb.profit_percentage) < 3.0);
}

#[test]
fn test_spread_arbitrage_collapses_symmetric_duplicates() {
    // Both books quote both sides at +110. Four pairs qualify, but the
    // two cross-book pairs carry the same key (same matchup, same two
    // bookmakers, same profit) and collapse to one record.
    let game = create_test_game("Home Team", "Away Team");

    let book_a_odds = create_betting_odds(
        &game.id,
        "BookmakerA",
        vec![],
        vec![
            SpreadOdds { team: "Home Team".to_string(), point: -7_000_000, price: 110 },
            SpreadOdds { team: "Away Team".to_string(), point: 7_000_000, price: 110 },
        ],
    );

    let book_b_odds = create_betting_odds(
        &game.id,
        "BookmakerB",
        vec![],
        vec![
            SpreadOdds { team: "Home Team".to_string(), point: -7_000_000, price: 110 },
            SpreadOdds { team: "Away Team".to_string(), point: 7_000_000, price: 110 },
        ],
    );

    let games_with_odds = vec![(game, vec![book_a_odds, book_b_odds])];

    let result = find_spread_arbitrage(&games_with_odds);

    assert_eq!(result.len(), 3);
    for arb in &result {
        assert_eq!(arb.side1_odds, 110);
        assert_eq!(arb.side2_odds, 110);
    }
}

#[test]
fn test_arbitrage_exact_ratios() {
    // Home +100 and away +110: implied 1/2 and 100/210, so the combined
    // numerator over denominator is 41000/42000. Profit is exactly
    // 100 * 1000 / 41000 percent and the home stake is exactly
    // 100 * 100 * 210 / 41000 percent.
    let game = create_test_game("Home Team", "Away Team");
    let books = vec![
        create_betting_odds(
            "test_game_1",
            "BookmakerA",
            vec![MoneylineOdds { team: "Home Team".to_string(), price: 100 }],
            vec![],
        ),
        create_betting_odds(
            "test_game_1",
            "BookmakerB",
            vec![MoneylineOdds { team: "Away Team".to_string(), price: 110 }],
            vec![],
        ),
    ];
    let result = find_moneyline_arbitrage(&vec![(game, books)]);
    let arb = &result[0];
    assert_eq!(arb.profit_percentage.num, 100_000);
    assert_eq!(arb.profit_percentage.den, 41_000);
    assert_eq!(arb.home_stake_percentage.num, 2_100_000);
    assert_eq!(arb.home_stake_percentage.den, 41_000);
    assert_eq!(arb.away_stake_percentage.num, 2_000_000);
    assert_eq!(arb.away_stake_percentage.den, 41_000);

    // The split locks in the profit: the gross return per hundred staked
    // is identical whichever team wins, and exceeds one hundred by the
    // profit percentage. A winning +100 stake doubles; a winning +110
    // stake returns 2.1 times.
    let home_return = pct(&arb.home_stake_percentage) * 2.0;
    let away_return = pct(&arb.away_stake_percentage) * 2.1;
    assert!((home_return - away_return).abs() < 1e-9);
    assert!((home_return - (100.0 + pct(&arb.profit_percentage))).abs() < 1e-9);

    // The stakes sum to exactly one hundred percent.
    assert_eq!(
        arb.home_stake_percentage.num + arb.away_stake_percentage.num,
        100 * arb.profit_percentage.den
    );
}

#[test]
fn test_detectors_are_deterministic() {
    // Re-running a detector on the unchanged input yields value-identical
    // output: the result is a function of the input alone.
    let game = create_test_game("Home Team", "Away Team");

    let book_a_odds = create_betting_odds(
        &game.id,
        "BookmakerA",
        vec![MoneylineOdds { team: "Home Team".to_string(), price: 120 }],
        vec![SpreadOdds { team: "Home Team".to_string(), point: -7_000_000, price: 110 }],
    );

    let book_b_odds = create_betting_odds(
        &game.id,
        "BookmakerB",
        vec![MoneylineOdds { team: "Away Team".to_string(), price: 125 }],
        vec![SpreadOdds { team: "Away Team".to_string(), point: 7_000_000, price: 110 }],
    );

    let games_with_odds = vec![(game, vec![book_a_odds, book_b_odds])];

    let first_ml = find_moneyline_arbitrage(&games_with_odds);
    let second_ml = find_moneyline_arbitrage(&games_with_odds);
    assert_eq!(first_ml, second_ml);

    let first_sp = find_spread_arbitrage(&games_with_odds);
    let second_sp = find_spread_arbitrage(&games_with_odds);
    assert_eq!(first_sp, second_sp);
}

#[test]
fn test_arbitrage_sorted_by_profit() {
    // Two games with arbitrages of different sizes come out largest first.
    let small = create_test_game("Home Team", "Away Team");
    let big = Game {
        id: "test_game_2".to_string(),
        home_team: "Third Team".to_string(),
        away_team: "Fourth Team".to_string(),
        commence_time: 1_700_000_000,
        sport_title: "Test Sport".to_string(),
    };

    let small_books = vec![
        create_betting_odds(
            "test_game_1",
            "BookmakerA",
            vec![MoneylineOdds { team: "Home Team".to_string(), price: 100 }],
            vec![],
        ),
        create_betting_odds(
            "test_game_1",
            "BookmakerB",
            vec![MoneylineOdds { team: "Away Team".to_string(), price: 110 }],
            vec![],
        ),
    ];
    let big_books = vec![
        create_betting_odds(
            "test_game_2",
            "BookmakerA",
            vec![MoneylineOdds { team: "Third Team".to_string(), price: 150 }],
            vec![],
        ),
        create_betting_odds(
            "test_game_2",
            "BookmakerB",
            vec![MoneylineOdds { team: "Fourth Team".to_string(), price: 150 }],
            vec![],
        ),
    ];

    let games_with_odds = vec![(small, small_books), (big, big_books)];
    let result = find_moneyline_arbitrage(&games_with_odds);

    assert_eq!(result.len(), 2);
    assert_eq!(result[0].home_team, "Third Team");
    assert!(pct(&result[0].profit_percentage) > pct(&result[1].profit_percentage));
}
