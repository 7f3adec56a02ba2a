use cfb_betting_ev::espn_fpi;
use cfb_betting_ev::kalshi;
use cfb_betting_ev::team_key;

#[test]
fn kalshi_api_test_normalize_team_name() {
    assert_eq!(kalshi::normalize_team_name("Ohio State Buckeyes"), "ohio state");
    assert_eq!(kalshi::normalize_team_name("Michigan Wolverines"), "michigan");
    assert_eq!(kalshi::normalize_team_name("Alabama Crimson Tide"), "alabama");
    assert_eq!(kalshi::normalize_team_name("The Ohio State"), "ohio state");
}

#[test]
fn espn_fpi_test_normalize_team_name() {
    assert_eq!(espn_fpi::normalize_team_name("Ohio State"), "ohio st");
    assert_eq!(espn_fpi::normalize_team_name("Texas A&M"), "texas aandm");
}

#[test]
fn prediction_tracker_test_normalize_team_name() {
    assert_eq!(team_key::normalize_team_name("Ohio State"), "ohio_st");
    assert_eq!(team_key::normalize_team_name("Texas A&M"), "texas_aandm");
    assert_eq!(team_key::normalize_team_name("Florida Intl"), "florida_intl");
}

#[test]
fn test_normalize_whitespace_handling() {
    // The prediction-source normalizer replaces each space separately,
    // so doubled spaces yield doubled underscores; the exchange
    // normalizer collapses whitespace runs instead.
    assert_eq!(team_key::normalize_team_name(" Ohio  State "), "ohio__st");
    assert_eq!(kalshi::normalize_team_name("The  Ohio   State  Buckeyes"), "ohio state");
}

#[test]
fn test_extract_school_name_first_token() {
    assert_eq!(team_key::extract_school_name("Iowa Hawkeyes"), "iowa");
    assert_eq!(team_key::extract_school_name("Alabama Crimson Tide"), "alabama");
}

#[test]
fn test_extract_school_name_state_schools() {
    assert_eq!(team_key::extract_school_name("Ohio State Buckeyes"), "ohio_st");
    assert_eq!(team_key::extract_school_name("San Diego State Aztecs"), "san_diego_st");
}

#[test]
fn test_extract_school_name_two_word_schools() {
    assert_eq!(team_key::extract_school_name("Wake Forest Demon Deacons"), "wake_forest");
    assert_eq!(team_key::extract_school_name("Texas A&M Aggies"), "texas_aandm");
    assert_eq!(team_key::extract_school_name("Notre Dame Fighting Irish"), "notre_dame");
    assert_eq!(team_key::extract_school_name("Air Force Falcons"), "air_force");
    assert_eq!(team_key::extract_school_name("West Virginia Mountaineers"), "west_virginia");
}

#[test]
fn test_extract_school_name_overrides() {
    assert_eq!(team_key::extract_school_name("UCF Knights"), "ucf");
    assert_eq!(team_key::extract_school_name("Central Florida"), "ucf");
    assert_eq!(team_key::extract_school_name("UTSA Roadrunners"), "utsa");
    assert_eq!(team_key::extract_school_name("Troy Trojans"), "troy");
    assert_eq!(team_key::extract_school_name("Connecticut Huskies"), "uconn");
    assert_eq!(team_key::extract_school_name("Kent"), "kent_st");
    assert_eq!(team_key::extract_school_name("Southern Miss"), "southern_mississippi");
}

#[test]
fn test_extract_school_name_single_token() {
    assert_eq!(team_key::extract_school_name("Mississippi"), "ole_miss");
    assert_eq!(team_key::extract_school_name("Iowa"), "iowa");
}
