use cfb_betting_ev::kalshi::{
    determine_team_side, parse_event_to_game, parse_teams_from_title, KalshiMarket,
};
use cfb_betting_ev::prediction_tracker::parse_text_line;
use cfb_betting_ev::sagarin::parse_rating_line;

#[test]
fn test_parse_rating_line() {
    let line = "   1 Georgia              95.50";
    let rating = parse_rating_line(line).unwrap();
    assert_eq!(rating.rank, 1);
    assert_eq!(rating.team, "Georgia");
    assert!((rating.rating as f64 / 1_000_000.0 - 95.50).abs() < 0.01);
}

#[test]
fn test_parse_rating_line_multiword_team() {
    let line = "  12 Ohio State           88.25";
    let rating = parse_rating_line(line).unwrap();
    assert_eq!(rating.rank, 12);
    assert_eq!(rating.team, "Ohio State");
    assert_eq!(rating.rating, 88_250_000);
}

#[test]
fn test_parse_rating_line_rejects_short_lines() {
    assert!(parse_rating_line("").is_none());
    assert!(parse_rating_line("Georgia 95.50").is_none());
    assert!(parse_rating_line("x Georgia 95.50").is_none());
}

#[test]
fn test_parse_text_line_full_row() {
    let line = "Ohio St.   Michigan   -3  -3.5  -3.2  -3.3  0.62  0.55";
    let pred = parse_text_line(line).unwrap();
    assert_eq!(pred.home_team, "Ohio St");
    assert_eq!(pred.away_team, "Michigan");
    assert_eq!(pred.spread, -3_500_000);
    assert_eq!(pred.home_win_prob, 620_000);
    assert_eq!(pred.away_win_prob, 380_000);
    assert_eq!(pred._prediction_avg, -3_300_000);
}

#[test]
fn test_parse_text_line_skips_headers_and_blanks() {
    assert!(parse_text_line("").is_none());
    assert!(parse_text_line("   ").is_none());
    assert!(parse_text_line("Home Team      Visitor        1  2  3  4  5  6").is_none());
}

#[test]
fn test_parse_text_line_rejects_bad_probability() {
    // The next-to-last column must be a probability between zero and one.
    let line = "Ohio St.   Michigan   -3  -3.5  -3.2  -3.3  1.62  0.55";
    assert!(parse_text_line(line).is_none());
}

#[test]
fn test_parse_text_line_needs_six_columns() {
    let line = "Ohio St.   Michigan   -3  -3.5  0.62";
    assert!(parse_text_line(line).is_none());
}

#[test]
fn test_parse_teams_from_title() {
    assert_eq!(
        parse_teams_from_title("Will Ohio State beat Michigan?"),
        Some(("Ohio State".to_string(), "Michigan".to_string()))
    );
    assert_eq!(
        parse_teams_from_title("Ohio State vs Michigan"),
        Some(("Ohio State".to_string(), "Michigan".to_string()))
    );
    // "@" lists the away team first.
    assert_eq!(
        parse_teams_from_title("Michigan @ Ohio State"),
        Some(("Ohio State".to_string(), "Michigan".to_string()))
    );
    assert_eq!(parse_teams_from_title("Something else entirely"), None);
}

fn market(title: &str, subtitle: Option<&str>, bid: u32, ask: u32) -> KalshiMarket {
    KalshiMarket {
        event_ticker: "EV1".to_string(),
        series_ticker: "HIGHCFB".to_string(),
        title: title.to_string(),
        subtitle: subtitle.map(|s| s.to_string()),
        close_time: Some(1_700_000_000),
        expiration_time: Some(1_700_003_600),
        yes_bid: Some(60),
        yes_ask: Some(64),
    }
    .tap(bid, ask)
}

trait Tap {
    fn tap(self, bid: u32, ask: u32) -> Self;
}

impl Tap for KalshiMarket {
    fn tap(mut self, bid: u32, ask: u32) -> Self {
        self.yes_bid = Some(bid);
        self.yes_ask = Some(ask);
        self
    }
}

#[test]
fn test_parse_event_to_game() {
    let markets = vec![
        market("Will Ohio State beat Michigan?", Some("Ohio State wins"), 60, 64),
        market("Will Ohio State beat Michigan?", Some("Michigan wins"), 36, 40),
    ];
    let (game, odds) = parse_event_to_game("EV1", &markets, 1_699_000_000).unwrap();
    assert_eq!(game.id, "EV1");
    assert_eq!(game.home_team, "Ohio State");
    assert_eq!(game.away_team, "Michigan");
    assert_eq!(game.sport_title, "NCAAF");
    // The expiration time is preferred over the close time.
    assert_eq!(game.commence_time, 1_700_003_600);
    assert_eq!(odds.bookmaker, "Kalshi");
    assert_eq!(odds.moneyline.len(), 2);
    // Mid price 62 cents encodes -163; mid price 38 cents encodes +163.
    assert_eq!(odds.moneyline[0].team, "Ohio State");
    assert_eq!(odds.moneyline[0].price, -163);
    assert_eq!(odds.moneyline[1].team, "Michigan");
    assert_eq!(odds.moneyline[1].price, 163);
}

#[test]
fn test_parse_event_to_game_rejects_unparseable() {
    // No markets, an unparseable title, and a market naming neither team
    // all yield nothing.
    assert!(parse_event_to_game("EV1", &vec![], 0).is_none());
    assert!(parse_event_to_game("EV1", &vec![market("Nonsense", None, 60, 64)], 0).is_none());
    assert!(
        parse_event_to_game(
            "EV1",
            &vec![market("Will Ohio State beat Michigan?", Some("Someone else"), 60, 64)],
            0
        )
        .is_none()
    );
}

#[test]
fn test_determine_team_side() {
    assert_eq!(
        determine_team_side("Ohio State to win", "Ohio State", "Michigan"),
        Some(true)
    );
    assert_eq!(
        determine_team_side("Michigan wins the game", "Ohio State", "Michigan"),
        Some(false)
    );
    assert_eq!(determine_team_side("Michigan", "Ohio State", "Michigan"), Some(false));
    assert_eq!(determine_team_side("Neither name", "Ohio State", "Michigan"), None);
}
