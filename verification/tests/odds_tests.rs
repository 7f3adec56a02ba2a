use cfb_betting_ev::display::format_odds;
use cfb_betting_ev::kalshi::kalshi_to_american_odds;
use cfb_betting_ev::odds::{
    american_odds_to_probability, calculate_expected_value, probability_to_american_odds,
};
use cfb_betting_ev::ratio::Ratio;

fn ratio_value(r: &Ratio) -> f64 {
    r.num as f64 / r.den as f64
}

#[test]
fn test_american_odds_to_probability() {
    // Positive odds
    let prob = ratio_value(&american_odds_to_probability(150));
    assert!((prob - 0.4).abs() < 0.01);
    // Negative odds
    let prob = ratio_value(&american_odds_to_probability(-150));
    assert!((prob - 0.6).abs() < 0.01);
    // Even odds
    let prob = ratio_value(&american_odds_to_probability(100));
    assert!((prob - 0.5).abs() < 0.01);
}

#[test]
fn test_calculate_expected_value() {
    // Positive EV scenario: 60% win probability on +150 odds
    let ev = calculate_expected_value(600_000, 150);
    assert!(ev.num > 0);

    // Negative EV scenario: 40% win probability on -150 odds
    let ev = calculate_expected_value(400_000, -150);
    assert!(ev.num < 0);
}

#[test]
fn test_probability_to_american_odds() {
    // Favorite scenarios (prob >= 0.5)
    assert_eq!(probability_to_american_odds(620_000), -163); // 62% chance
    assert_eq!(probability_to_american_odds(500_000), -100); // 50% chance (even)
    assert_eq!(probability_to_american_odds(750_000), -300); // 75% chance

    // Underdog scenarios (prob < 0.5)
    assert_eq!(probability_to_american_odds(370_000), 170); // 37% chance
    let result = probability_to_american_odds(400_000);
    assert!(
        result == 149 || result == 150,
        "Expected 149 or 150, got {}",
        result
    );
    assert_eq!(probability_to_american_odds(250_000), 300); // 25% chance
}

#[test]
fn test_probability_conversion_near_inverse() {
    // One half maps exactly to -100; the nearby favorites and underdogs
    // land within one of the exact inverse.
    assert_eq!(probability_to_american_odds(500_000), -100);
    let fav = probability_to_american_odds(625_000);
    assert!((-167 - fav).abs() <= 1, "got {}", fav);
    let dog = probability_to_american_odds(375_000);
    assert!((167 - dog).abs() <= 1, "got {}", dog);
}

#[test]
fn test_implied_probability_in_unit_interval() {
    for &odds in &[100, 105, 110, 150, 250, 10_000, -100, -110, -150, -300, -10_000] {
        let p = american_odds_to_probability(odds);
        assert!(p.num > 0 && p.num < p.den, "odds {}", odds);
    }
    let even = american_odds_to_probability(100);
    assert_eq!(2 * even.num, even.den);
}

#[test]
fn test_ev_sign_tracks_edge() {
    // Model probability strictly above the implied probability gives a
    // strictly positive expected value, strictly below a negative one.
    for &odds in &[120, -110, 250, -175] {
        let imp = american_odds_to_probability(odds);
        let implied_micro = (imp.num as i128 * 1_000_000 / imp.den as i128) as i64;
        let above = calculate_expected_value(implied_micro + 10_000, odds);
        assert!(above.num > 0, "odds {}", odds);
        let below = calculate_expected_value(implied_micro - 10_000, odds);
        assert!(below.num < 0, "odds {}", odds);
    }
}

#[test]
fn test_format_odds() {
    assert_eq!(format_odds(&120), "+120");
    assert_eq!(format_odds(&-110), "-110");
    assert_eq!(format_odds(&0), "+0");
    assert_eq!(format_odds(&10500), "+10500");
}

#[test]
fn test_kalshi_to_american_odds() {
    // A balanced market: mid price 50 cents, even odds.
    assert_eq!(kalshi_to_american_odds(50, 50), Some(-100));
    // Mid price 62 cents: a -163 favorite.
    assert_eq!(kalshi_to_american_odds(60, 64), Some(-163));
    // Prices over a dollar are invalid.
    assert_eq!(kalshi_to_american_odds(150, 50), None);
    assert_eq!(kalshi_to_american_odds(50, 150), None);
    // An empty or certain market encodes no finite odds.
    assert_eq!(kalshi_to_american_odds(0, 0), None);
    assert_eq!(kalshi_to_american_odds(100, 100), None);
    // A mid price of 99.5 cents would quote beyond +-10000.
    assert_eq!(kalshi_to_american_odds(99, 100), None);
}
