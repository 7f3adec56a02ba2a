use cfb_betting_ev::ev::{find_top_ev_bets, rank_spread_bets, spread_bet_candidates};
use cfb_betting_ev::models::{BettingOdds, Game, GamePrediction, MoneylineOdds, SpreadOdds};
use cfb_betting_ev::spread::spread_cover_deviation;

const NOW: i64 = 1_700_000_000;

fn future_game(id: &str, home: &str, away: &str) -> Game {
    Game {
        id: id.to_string(),
        home_team: home.to_string(),
        away_team: away.to_string(),
        commence_time: NOW + 3600,
        sport_title: "NCAAF".to_string(),
    }
}

fn prediction(home: &str, away: &str, spread: i64, home_prob: i64) -> GamePrediction {
    GamePrediction {
        home_team: home.to_string(),
        away_team: away.to_string(),
        spread,
        home_win_prob: home_prob,
        away_win_prob: 1_000_000 - home_prob,
        _prediction_avg: 0,
    }
}

fn ml_book(bookmaker: &str, quotes: Vec<MoneylineOdds>) -> BettingOdds {
    BettingOdds {
        game_id: "g".to_string(),
        bookmaker: bookmaker.to_string(),
        last_update: NOW,
        moneyline: quotes,
        spreads: vec![],
    }
}

#[test]
fn test_find_top_ev_bets_positive_edge() {
    // Model gives Iowa 60%; a +150 quote implies 40%, so the Iowa bet has
    // positive expected value 0.6 * 1.5 - 0.4 = 0.5 per unit stake.
    let game = future_game("g", "Iowa Hawkeyes", "Ohio State Buckeyes");
    let pred = prediction("Iowa", "Ohio State", 3_000_000, 600_000);
    let book = ml_book(
        "BookmakerA",
        vec![
            MoneylineOdds { team: "Iowa Hawkeyes".to_string(), price: 150 },
            MoneylineOdds { team: "Ohio State Buckeyes".to_string(), price: -150 },
        ],
    );
    let games = vec![(game, vec![book])];
    let preds = vec![pred];

    let bets = find_top_ev_bets(&games, &preds, None, NOW);

    // Iowa at +150 has EV +0.5; Ohio State at -150 with model 40% has
    // EV 0.4 * 2/3 - 0.6 < 0, so exactly one bet comes back.
    assert_eq!(bets.len(), 1);
    let bet = &bets[0];
    assert_eq!(bet.team, "Iowa Hawkeyes");
    assert_eq!(bet.odds, 150);
    assert_eq!(bet.model_prob, 600_000);
    let ev = bet.expected_value.num as f64 / bet.expected_value.den as f64;
    assert!((ev - 0.5).abs() < 1e-9);
    let edge = bet.edge.num as f64 / bet.edge.den as f64;
    assert!((edge - 0.2).abs() < 1e-9);
}

#[test]
fn test_find_top_ev_bets_sorted_and_capped() {
    let game = future_game("g", "Iowa Hawkeyes", "Ohio State Buckeyes");
    let pred = prediction("Iowa", "Ohio State", 3_000_000, 600_000);
    // Two books quote Iowa at different prices; the higher price has the
    // higher expected value and comes first.
    let book_a = ml_book(
        "BookmakerA",
        vec![MoneylineOdds { team: "Iowa Hawkeyes".to_string(), price: 150 }],
    );
    let book_b = ml_book(
        "BookmakerB",
        vec![MoneylineOdds { team: "Iowa Hawkeyes".to_string(), price: 180 }],
    );
    let games = vec![(game, vec![book_a, book_b])];
    let preds = vec![pred];

    let all = find_top_ev_bets(&games, &preds, None, NOW);
    assert_eq!(all.len(), 2);
    assert_eq!(all[0].bookmaker, "BookmakerB");
    assert_eq!(all[1].bookmaker, "BookmakerA");

    let top = find_top_ev_bets(&games, &preds, Some(1), NOW);
    assert_eq!(top.len(), 1);
    assert_eq!(top[0].bookmaker, "BookmakerB");
}

#[test]
fn test_find_top_ev_bets_skips_started_and_unmatched_games() {
    let mut started = future_game("g", "Iowa Hawkeyes", "Ohio State Buckeyes");
    started.commence_time = NOW - 1;
    let unmatched = future_game("h", "Wake Forest Demon Deacons", "Duke Blue Devils");
    let pred = prediction("Iowa", "Ohio State", 3_000_000, 600_000);
    let games = vec![
        (
            started,
            vec![ml_book(
                "BookmakerA",
                vec![MoneylineOdds { team: "Iowa Hawkeyes".to_string(), price: 150 }],
            )],
        ),
        (
            unmatched,
            vec![ml_book(
                "BookmakerA",
                vec![MoneylineOdds { team: "Iowa Hawkeyes".to_string(), price: 150 }],
            )],
        ),
    ];
    let preds = vec![pred];

    let bets = find_top_ev_bets(&games, &preds, None, NOW);
    assert_eq!(bets.len(), 0);
}

#[test]
fn test_find_top_ev_bets_empty_input() {
    let games: Vec<(Game, Vec<BettingOdds>)> = vec![];
    let preds: Vec<GamePrediction> = vec![];
    let bets = find_top_ev_bets(&games, &preds, None, NOW);
    assert_eq!(bets.len(), 0);
}

#[test]
fn test_find_top_ev_bets_deterministic() {
    let game = future_game("g", "Iowa Hawkeyes", "Ohio State Buckeyes");
    let pred = prediction("Iowa", "Ohio State", 3_000_000, 600_000);
    let book = ml_book(
        "BookmakerA",
        vec![MoneylineOdds { team: "Iowa Hawkeyes".to_string(), price: 150 }],
    );
    let games = vec![(game, vec![book])];
    let preds = vec![pred];

    let first = find_top_ev_bets(&games, &preds, None, NOW);
    let second = find_top_ev_bets(&games, &preds, None, NOW);
    assert_eq!(first, second);
}

#[test]
fn test_spread_bet_candidates_orientation() {
    // The model's spread is from the home side; a quote on the away side
    // carries the negated spread.
    let game = future_game("g", "Iowa Hawkeyes", "Ohio State Buckeyes");
    let pred = prediction("Iowa", "Ohio State", 10_000_000, 600_000);
    let book = BettingOdds {
        game_id: "g".to_string(),
        bookmaker: "BookmakerA".to_string(),
        last_update: NOW,
        moneyline: vec![],
        spreads: vec![
            SpreadOdds { team: "Iowa Hawkeyes".to_string(), point: -7_000_000, price: -110 },
            SpreadOdds { team: "Ohio State Buckeyes".to_string(), point: 7_000_000, price: -110 },
        ],
    };
    let games = vec![(game, vec![book])];
    let preds = vec![pred];

    let cands = spread_bet_candidates(&games, &preds, NOW);
    assert_eq!(cands.len(), 2);
    assert_eq!(cands[0].team, "Iowa Hawkeyes");
    assert_eq!(cands[0].model_spread, 10_000_000);
    assert_eq!(cands[0].oriented_spread, 10_000_000);
    assert_eq!(cands[1].team, "Ohio State Buckeyes");
    assert_eq!(cands[1].oriented_spread, -10_000_000);
}

#[test]
fn test_spread_bet_candidates_empty_input() {
    let games: Vec<(Game, Vec<BettingOdds>)> = vec![];
    let preds: Vec<GamePrediction> = vec![];
    let cands = spread_bet_candidates(&games, &preds, NOW);
    assert_eq!(cands.len(), 0);
}

#[test]
fn test_rank_spread_bets_filters_and_sorts() {
    let game = future_game("g", "Iowa Hawkeyes", "Ohio State Buckeyes");
    let pred = prediction("Iowa", "Ohio State", 10_000_000, 600_000);
    let book = BettingOdds {
        game_id: "g".to_string(),
        bookmaker: "BookmakerA".to_string(),
        last_update: NOW,
        moneyline: vec![],
        spreads: vec![
            SpreadOdds { team: "Iowa Hawkeyes".to_string(), point: -7_000_000, price: -110 },
            SpreadOdds { team: "Ohio State Buckeyes".to_string(), point: 7_000_000, price: -110 },
        ],
    };
    let games = vec![(game, vec![book])];
    let preds = vec![pred];
    let cands = spread_bet_candidates(&games, &preds, NOW);

    // A -110 price implies about 52.4%; a 60% cover probability clears
    // it, 40% does not.
    let probs = vec![600_000i64, 400_000i64];
    let recs = rank_spread_bets(&cands, &probs, None);
    assert_eq!(recs.len(), 1);
    assert_eq!(recs[0].team, "Iowa Hawkeyes");
    assert_eq!(recs[0].model_prob, 600_000);
    assert!(recs[0].expected_value.num > 0);

    // Both sides clearing the price come back sorted by expected value.
    let probs = vec![600_000i64, 700_000i64];
    let recs = rank_spread_bets(&cands, &probs, None);
    assert_eq!(recs.len(), 2);
    assert_eq!(recs[0].model_prob, 700_000);
    let capped = rank_spread_bets(&cands, &probs, Some(1));
    assert_eq!(capped.len(), 1);
    assert_eq!(capped[0].model_prob, 700_000);
}

#[test]
fn test_spread_cover_deviation_zero_on_matched_line() {
    // When the posted line is the negated model spread, the deviate fed
    // to the normal CDF is exactly zero, which puts the cover
    // probability at one half.
    for &m in &[-12_500_000i64, -5_000_000, 0, 3_500_000, 7_000_000] {
        assert_eq!(spread_cover_deviation(m, -m), 0);
    }
    // A favorite predicted to win by 10 on a -7 line has a negative
    // deviate, which the normal model turns into a cover probability
    // above one half.
    assert!(spread_cover_deviation(10_000_000, -7_000_000) < 0);
    // Predicted to win by only 3 on the same line: positive deviate.
    assert!(spread_cover_deviation(3_000_000, -7_000_000) > 0);
}
