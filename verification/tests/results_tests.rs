use cfb_betting_ev::ev::{EvBetRecommendation, SpreadEvBetRecommendation};
use cfb_betting_ev::ratio::Ratio;
use cfb_betting_ev::results::{
    compare_ev_bets_to_results, compare_spread_ev_bets_to_results, GameScore,
};

fn ml_bet(home: &str, away: &str, team: &str, odds: i32) -> EvBetRecommendation {
    EvBetRecommendation {
        home_team: home.to_string(),
        away_team: away.to_string(),
        team: team.to_string(),
        bookmaker: "BookmakerA".to_string(),
        odds,
        model_prob: 600_000,
        implied_prob: Ratio { num: 1, den: 2 },
        expected_value: Ratio { num: 1, den: 10 },
        edge: Ratio { num: 1, den: 10 },
    }
}

fn spread_bet(home: &str, away: &str, team: &str, line: i64, odds: i32) -> SpreadEvBetRecommendation {
    SpreadEvBetRecommendation {
        home_team: home.to_string(),
        away_team: away.to_string(),
        team: team.to_string(),
        spread_line: line,
        bookmaker: "BookmakerA".to_string(),
        odds,
        model_spread: 10_000_000,
        model_prob: 600_000,
        implied_prob: Ratio { num: 1, den: 2 },
        expected_value: Ratio { num: 1, den: 10 },
        edge: Ratio { num: 1, den: 10 },
    }
}

fn score(home: &str, away: &str, hp: Option<i64>, ap: Option<i64>) -> GameScore {
    GameScore {
        home_team: home.to_string(),
        away_team: away.to_string(),
        home_points: hp,
        away_points: ap,
    }
}

#[test]
fn test_compare_ev_bets_won_and_lost() {
    let bets = vec![
        ml_bet("Iowa Hawkeyes", "Ohio State Buckeyes", "Iowa Hawkeyes", 150),
        ml_bet("Iowa Hawkeyes", "Ohio State Buckeyes", "Ohio State Buckeyes", -120),
    ];
    let results = vec![score("Iowa", "Ohio State", Some(24), Some(17))];

    let settled = compare_ev_bets_to_results(&bets, &results);
    assert_eq!(settled.len(), 2);

    // The Iowa bet won: +150 pays 1.5 per unit stake.
    assert_eq!(settled[0].bet_won, Some(true));
    let payout = settled[0].actual_payout.unwrap();
    assert!((payout.num as f64 / payout.den as f64 - 1.5).abs() < 1e-9);

    // The Ohio State bet lost: payout zero.
    assert_eq!(settled[1].bet_won, Some(false));
    let payout = settled[1].actual_payout.unwrap();
    assert_eq!(payout.num, 0);
}

#[test]
fn test_compare_ev_bets_negative_price_payout() {
    let bets = vec![ml_bet("Iowa Hawkeyes", "Ohio State Buckeyes", "Iowa Hawkeyes", -200)];
    let results = vec![score("Iowa", "Ohio State", Some(24), Some(17))];

    let settled = compare_ev_bets_to_results(&bets, &results);
    // A winning -200 bet pays 100/200 = 0.5 per unit stake.
    let payout = settled[0].actual_payout.unwrap();
    assert!((payout.num as f64 / payout.den as f64 - 0.5).abs() < 1e-9);
}

#[test]
fn test_compare_ev_bets_unmatched_and_incomplete() {
    let bets = vec![
        ml_bet("Iowa Hawkeyes", "Ohio State Buckeyes", "Iowa Hawkeyes", 150),
        ml_bet("Wake Forest Demon Deacons", "Duke Blue Devils", "Duke Blue Devils", 150),
    ];
    // The first matchup's game is not final; the second has no result.
    let results = vec![score("Iowa", "Ohio State", Some(24), None)];

    let settled = compare_ev_bets_to_results(&bets, &results);
    assert_eq!(settled.len(), 2);
    assert!(settled[0].game_result.is_some());
    assert_eq!(settled[0].bet_won, None);
    assert_eq!(settled[0].actual_payout, None);
    assert!(settled[1].game_result.is_none());
    assert_eq!(settled[1].bet_won, None);
}

#[test]
fn test_compare_ev_bets_reversed_result_orientation() {
    // The results source may list the matchup with home and away swapped;
    // the join tolerates either orientation and settles against the
    // result's own home side.
    let bets = vec![ml_bet("Iowa Hawkeyes", "Ohio State Buckeyes", "Iowa Hawkeyes", 150)];
    let results = vec![score("Ohio State", "Iowa", Some(17), Some(24))];

    let settled = compare_ev_bets_to_results(&bets, &results);
    assert_eq!(settled[0].bet_won, Some(true));
}

#[test]
fn test_compare_spread_bets_sides() {
    // A home bet wins when the final margin exceeds its line; an away
    // bet wins when the margin falls below its line. Margin here is 7.
    let bets = vec![
        spread_bet("Iowa Hawkeyes", "Ohio State Buckeyes", "Iowa Hawkeyes", -7_500_000, -110),
        spread_bet(
            "Iowa Hawkeyes",
            "Ohio State Buckeyes",
            "Ohio State Buckeyes",
            6_500_000,
            -110,
        ),
    ];
    let results = vec![score("Iowa", "Ohio State", Some(24), Some(17))];

    let settled = compare_spread_ev_bets_to_results(&bets, &results);
    assert_eq!(settled.len(), 2);
    assert_eq!(settled[0].bet_won, Some(true));
    let payout = settled[0].actual_payout.unwrap();
    assert!((payout.num as f64 / payout.den as f64 - 100.0 / 110.0).abs() < 1e-9);
    assert_eq!(settled[1].bet_won, Some(false));
    assert_eq!(settled[1].actual_payout.unwrap().num, 0);
}

#[test]
fn test_compare_spread_bets_push_is_no_win() {
    // A margin exactly on the line settles as a loss either way.
    let bets = vec![
        spread_bet("Iowa Hawkeyes", "Ohio State Buckeyes", "Iowa Hawkeyes", 7_000_000, -110),
        spread_bet(
            "Iowa Hawkeyes",
            "Ohio State Buckeyes",
            "Ohio State Buckeyes",
            7_000_000,
            -110,
        ),
    ];
    let results = vec![score("Iowa", "Ohio State", Some(24), Some(17))];

    let settled = compare_spread_ev_bets_to_results(&bets, &results);
    assert_eq!(settled[0].bet_won, Some(false));
    assert_eq!(settled[1].bet_won, Some(false));
}
