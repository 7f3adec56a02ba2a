use vstd::prelude::*;
use crate::models::Sport;
use crate::odds::probability_to_american_odds;
use crate::text::{
    chars_to_string, collapse_ws_chars, collapse_ws_seq, lower_chars, lower_seq, replace_chars,
    replace_seq, to_chars,
};
use crate::MICRO;

verus! {

impl Sport {
    /// The series tickers under which the exchange lists this sport's
    /// markets.
    pub fn kalshi_series_patterns(&self) -> (r: Vec<&'static str>)
        ensures
            self is CollegeFootball ==> r@.len() == 3 && r@[0]@ == "HIGHCFB"@ && r@[1]@
                == "NCAAFB"@ && r@[2]@ == "CFP"@,
            self is CollegeBasketball ==> r@.len() == 3 && r@[0]@ == "HIGHCBB"@ && r@[1]@
                == "NCAABB"@ && r@[2]@ == "MARCHMAD"@,
    {
        match self {
            Sport::CollegeFootball => vec!["HIGHCFB", "NCAAFB", "CFP"],
            Sport::CollegeBasketball => vec!["HIGHCBB", "NCAABB", "MARCHMAD"],
        }
    }
}

/// Normalization for the exchange's team naming: lowercase, strip the
/// mascot words its market titles append and a leading article, then
/// collapse whitespace.
pub open spec fn kalshi_normalize_spec(s: Seq<char>) -> Seq<char> {
    collapse_ws_seq(
        replace_seq(
            replace_seq(
                replace_seq(
                    replace_seq(
                        replace_seq(
                            replace_seq(
                                replace_seq(
                                    replace_seq(
                                        replace_seq(
                                            replace_seq(
                                                replace_seq(
                                                    lower_seq(s),
                                                    "buckeyes"@,
                                                    Seq::empty(),
                                                ),
                                                "wolverines"@,
                                                Seq::empty(),
                                            ),
                                            "crimson tide"@,
                                            Seq::empty(),
                                        ),
                                        "tigers"@,
                                        Seq::empty(),
                                    ),
                                    "bulldogs"@,
                                    Seq::empty(),
                                ),
                                "gators"@,
                                Seq::empty(),
                            ),
                            "longhorns"@,
                            Seq::empty(),
                        ),
                        "sooners"@,
                        Seq::empty(),
                    ),
                    "tar heels"@,
                    Seq::empty(),
                ),
                "blue devils"@,
                Seq::empty(),
            ),
            "the "@,
            Seq::empty(),
        ),
    )
}

/// Normalize a team name drawn from an exchange market title.
pub fn normalize_team_name(name: &str) -> (r: String)
    ensures
        r@ == kalshi_normalize_spec(name@),
{
    proof {
        reveal_strlit("buckeyes");
        reveal_strlit("wolverines");
        reveal_strlit("crimson tide");
        reveal_strlit("tigers");
        reveal_strlit("bulldogs");
        reveal_strlit("gators");
        reveal_strlit("longhorns");
        reveal_strlit("sooners");
        reveal_strlit("tar heels");
        reveal_strlit("blue devils");
        reveal_strlit("the ");
    }
    let empty: Vec<char> = Vec::new();
    let v = to_chars(name);
    let s = lower_chars(&v);
    let s = replace_chars(&s, &to_chars("buckeyes"), &empty);
    let s = replace_chars(&s, &to_chars("wolverines"), &empty);
    let s = replace_chars(&s, &to_chars("crimson tide"), &empty);
    let s = replace_chars(&s, &to_chars("tigers"), &empty);
    let s = replace_chars(&s, &to_chars("bulldogs"), &empty);
    let s = replace_chars(&s, &to_chars("gators"), &empty);
    let s = replace_chars(&s, &to_chars("longhorns"), &empty);
    let s = replace_chars(&s, &to_chars("sooners"), &empty);
    let s = replace_chars(&s, &to_chars("tar heels"), &empty);
    let s = replace_chars(&s, &to_chars("blue devils"), &empty);
    let s = replace_chars(&s, &to_chars("the "), &empty);
    let s = collapse_ws_chars(&s);
    chars_to_string(&s)
}

/// The two team names a market title encodes, home first. Three title
/// shapes are recognized, matched case-insensitively but sliced from the
/// original text: "Will A beat B?" (A at home), "A vs B" (A at home),
/// and "A @ B" (B at home). A "beat" title whose "will" follows the
/// "beat" fits no shape and falls through to the remaining two.
pub open spec fn title_teams(title: Seq<char>) -> Option<(Seq<char>, Seq<char>)> {
    let lower = crate::text::lower_seq(title);
    let beat = crate::text::find_sub(lower, " beat "@);
    let will = crate::text::find_sub(lower, "will "@);
    if beat >= 0 && will >= 0 && will + 5 <= beat {
        let team1 = crate::text::trim_seq(title.subrange(will + 5, beat));
        let qm = crate::text::find_char(title.skip(beat + 6), '?');
        let team2_end = if qm < 0 {
            title.len() as int
        } else {
            beat + 6 + qm
        };
        let team2 = crate::text::trim_seq(title.subrange(beat + 6, team2_end));
        Some((team1, team2))
    } else {
        let vs = crate::text::find_sub(lower, " vs "@);
        if vs >= 0 {
            Some(
                (
                    crate::text::trim_seq(title.take(vs)),
                    crate::text::trim_seq(title.skip(vs + 4)),
                ),
            )
        } else {
            let at = crate::text::find_sub(lower, " @ "@);
            if at >= 0 {
                Some(
                    (
                        crate::text::trim_seq(title.skip(at + 3)),
                        crate::text::trim_seq(title.take(at)),
                    ),
                )
            } else {
                None
            }
        }
    }
}

/// Parse the home and away team names out of a market title.
pub fn parse_teams_from_title(title: &str) -> (r: Option<(String, String)>)
    ensures
        match r {
            Some(t) => title_teams(title@) == Some((t.0@, t.1@)),
            None => title_teams(title@) is None,
        },
{
    proof {
        reveal_strlit(" beat ");
        reveal_strlit("will ");
        reveal_strlit(" vs ");
        reveal_strlit(" @ ");
    }
    let v = to_chars(title);
    let n = v.len();
    let low = lower_chars(&v);
    proof {
        assert(low@.len() == v@.len());
    }
    let beat = crate::text::find_sub_exec(&low, &to_chars(" beat "));
    let will = crate::text::find_sub_exec(&low, &to_chars("will "));
    if let (Some(b), Some(w)) = (beat, will) {
        if w + 5 <= b {
            let team1 = crate::text::trim_chars(&crate::text::subrange_chars(&v, w + 5, b));
            let rest = crate::text::subrange_chars(&v, b + 6, v.len());
            proof {
                assert(rest@ =~= v@.skip(b + 6));
            }
            let team2_end: usize = match crate::text::find_char_exec(&rest, '?') {
                Some(q) => b + 6 + q,
                None => v.len(),
            };
            let team2 = crate::text::trim_chars(
                &crate::text::subrange_chars(&v, b + 6, team2_end),
            );
            return Some((chars_to_string(&team1), chars_to_string(&team2)));
        }
    }
    if let Some(vs) = crate::text::find_sub_exec(&low, &to_chars(" vs ")) {
        let team1 = crate::text::trim_chars(&crate::text::subrange_chars(&v, 0, vs));
        let team2 = crate::text::trim_chars(&crate::text::subrange_chars(&v, vs + 4, v.len()));
        proof {
            assert(v@.subrange(0, vs as int) =~= v@.take(vs as int));
            assert(v@.subrange(vs as int + 4, v@.len() as int) =~= v@.skip(vs + 4));
        }
        return Some((chars_to_string(&team1), chars_to_string(&team2)));
    }
    if let Some(at) = crate::text::find_sub_exec(&low, &to_chars(" @ ")) {
        let team1 = crate::text::trim_chars(&crate::text::subrange_chars(&v, 0, at));
        let team2 = crate::text::trim_chars(&crate::text::subrange_chars(&v, at + 3, v.len()));
        proof {
            assert(v@.subrange(0, at as int) =~= v@.take(at as int));
            assert(v@.subrange(at as int + 3, v@.len() as int) =~= v@.skip(at + 3));
        }
        return Some((chars_to_string(&team2), chars_to_string(&team1)));
    }
    None
}

/// Which side a market's text names: the home team (true) or the away
/// team (false), preferring a side named together with "win", then a
/// side named at all; nothing when neither name occurs.
pub open spec fn market_side(text: Seq<char>, home: Seq<char>, away: Seq<char>) -> Option<bool> {
    let t = crate::text::lower_seq(text);
    let hl = crate::text::lower_seq(home);
    let al = crate::text::lower_seq(away);
    if crate::text::has_sub(t, hl) && crate::text::has_sub(t, "win"@) {
        Some(true)
    } else if crate::text::has_sub(t, al) && crate::text::has_sub(t, "win"@) {
        Some(false)
    } else if crate::text::has_sub(t, hl) {
        Some(true)
    } else if crate::text::has_sub(t, al) {
        Some(false)
    } else {
        None
    }
}

/// Determine which team a market is about from its subtitle or title.
pub fn determine_team_side(text: &str, home_team: &str, away_team: &str) -> (r: Option<bool>)
    ensures
        r == market_side(text@, home_team@, away_team@),
{
    proof {
        reveal_strlit("win");
    }
    let t = lower_chars(&to_chars(text));
    let hl = lower_chars(&to_chars(home_team));
    let al = lower_chars(&to_chars(away_team));
    let win = crate::text::has_substring(&t, &to_chars("win"));
    if crate::text::has_substring(&t, &hl) && win {
        Some(true)
    } else if crate::text::has_substring(&t, &al) && win {
        Some(false)
    } else if crate::text::has_substring(&t, &hl) {
        Some(true)
    } else if crate::text::has_substring(&t, &al) {
        Some(false)
    } else {
        None
    }
}

/// One prediction market of an event, as fetched: title and subtitle
/// text, the listing series, timestamps in seconds since the epoch, and
/// the yes side's bid and ask in cents.
#[derive(Debug)]
pub struct KalshiMarket {
    pub event_ticker: String,
    pub series_ticker: String,
    pub title: String,
    pub subtitle: Option<String>,
    pub close_time: Option<i64>,
    pub expiration_time: Option<i64>,
    pub yes_bid: Option<u32>,
    pub yes_ask: Option<u32>,
}

/// The sport a series ticker announces.
pub open spec fn series_sport(series: Seq<char>) -> Seq<char> {
    if crate::text::has_sub(series, "CFB"@) || crate::text::has_sub(series, "NCAAFB"@)
        || crate::text::has_sub(series, "CFP"@) {
        "NCAAF"@
    } else if crate::text::has_sub(series, "CBB"@) || crate::text::has_sub(series, "NCAABB"@)
        || crate::text::has_sub(series, "MARCHMAD"@) {
        "NCAAB"@
    } else {
        "Unknown"@
    }
}

fn series_sport_exec(series: &str) -> (r: String)
    ensures
        r@ == series_sport(series@),
{
    let v = to_chars(series);
    if crate::text::has_substring(&v, &to_chars("CFB")) || crate::text::has_substring(
        &v,
        &to_chars("NCAAFB"),
    ) || crate::text::has_substring(&v, &to_chars("CFP")) {
        String::from_str("NCAAF")
    } else if crate::text::has_substring(&v, &to_chars("CBB")) || crate::text::has_substring(
        &v,
        &to_chars("NCAABB"),
    ) || crate::text::has_substring(&v, &to_chars("MARCHMAD")) {
        String::from_str("NCAAB")
    } else {
        String::from_str("Unknown")
    }
}

/// The text a market is judged by: its subtitle when present, its title
/// otherwise.
pub open spec fn market_text(m: KalshiMarket) -> Seq<char> {
    match m.subtitle {
        Some(s) => s@,
        None => m.title@,
    }
}

/// The moneyline quotes of an event's markets, as (side, price) pairs
/// with `true` for the home side, in market order. A market naming
/// neither team sinks the whole event; one without prices or with an
/// inconvertible mid price is skipped.
pub open spec fn event_quotes(
    ms: Seq<KalshiMarket>,
    home: Seq<char>,
    away: Seq<char>,
) -> Option<Seq<(bool, i32)>>
    decreases ms.len(),
{
    if ms.len() == 0 {
        Some(Seq::empty())
    } else {
        match event_quotes(ms.drop_last(), home, away) {
            None => None,
            Some(prev) => {
                let m = ms.last();
                match market_side(market_text(m), home, away) {
                    None => None,
                    Some(side) => {
                        if m.yes_bid is Some && m.yes_ask is Some {
                            match kalshi_odds_spec(m.yes_bid->0 as int, m.yes_ask->0 as int) {
                                Some(price) => Some(prev.push((side, price))),
                                None => Some(prev),
                            }
                        } else {
                            Some(prev)
                        }
                    },
                }
            },
        }
    }
}

/// When the market is judged by an event's markets: the teams come from
/// the first market's title, the start time from its expiration or close
/// time (falling back to `now`), and each market contributes at most one
/// quote. Nothing comes back when there are no markets, the title parses
/// to no teams, a market names neither team, or no quote converts.
pub fn parse_event_to_game(
    event_ticker: &str,
    markets: &Vec<KalshiMarket>,
    now: i64,
) -> (r: Option<(crate::models::Game, crate::models::BettingOdds)>)
    ensures
        match r {
            Some(gb) => {
                &&& markets@.len() > 0
                &&& title_teams(markets@[0].title@) == Some(
                    (gb.0.home_team@, gb.0.away_team@),
                )
                &&& gb.0.id@ == event_ticker@
                &&& gb.0.sport_title@ == series_sport(markets@[0].series_ticker@)
                &&& gb.0.commence_time == (match markets@[0].expiration_time {
                    Some(t) => t,
                    None => match markets@[0].close_time {
                        Some(t) => t,
                        None => now,
                    },
                })
                &&& gb.1.game_id@ == event_ticker@
                &&& gb.1.bookmaker@ == "Kalshi"@
                &&& gb.1.last_update == now
                &&& gb.1.spreads@.len() == 0
                &&& {
                    let quotes = event_quotes(
                        markets@,
                        gb.0.home_team@,
                        gb.0.away_team@,
                    );
                    &&& quotes is Some
                    &&& quotes->0.len() == gb.1.moneyline@.len()
                    &&& quotes->0.len() > 0
                    &&& forall|i: int|
                        0 <= i < gb.1.moneyline@.len() ==> (#[trigger] gb.1.moneyline@[
                            i
                        ]).price == quotes->0[i].1 && gb.1.moneyline@[i].team@ == (if quotes->0[
                            i
                        ].0 {
                            gb.0.home_team@
                        } else {
                            gb.0.away_team@
                        })
                }
            },
            None => markets@.len() == 0 || title_teams(markets@[0].title@) is None || (match
                title_teams(markets@[0].title@) {
                Some(t) => {
                    let quotes = event_quotes(markets@, t.0, t.1);
                    quotes is None || quotes->0.len() == 0
                },
                None => true,
            }),
        },
{
    if markets.len() == 0 {
        return None;
    }
    let first = &markets[0];
    let teams = parse_teams_from_title(first.title.as_str());
    let (home_team, away_team) = match teams {
        Some(t) => t,
        None => {
            return None;
        },
    };
    let sport_title = series_sport_exec(first.series_ticker.as_str());
    let commence_time: i64 = match first.expiration_time {
        Some(t) => t,
        None => match first.close_time {
            Some(t) => t,
            None => now,
        },
    };
    let mut moneyline: Vec<crate::models::MoneylineOdds> = Vec::new();
    let mut k: usize = 0;
    proof {
        assert(markets@.take(0) =~= Seq::<KalshiMarket>::empty());
        assert(event_quotes(markets@.take(0), home_team@, away_team@) == Some(
            Seq::<(bool, i32)>::empty(),
        ));
    }
    while k < markets.len()
        invariant
            k <= markets@.len(),
            markets@.len() > 0,
            title_teams(markets@[0].title@) == Some((home_team@, away_team@)),
            event_quotes(markets@.take(k as int), home_team@, away_team@) is Some,
            ({
                let q = event_quotes(markets@.take(k as int), home_team@, away_team@)->0;
                &&& q.len() == moneyline@.len()
                &&& forall|i: int|
                    0 <= i < moneyline@.len() ==> (#[trigger] moneyline@[i]).price == q[i].1
                        && moneyline@[i].team@ == (if q[i].0 {
                        home_team@
                    } else {
                        away_team@
                    })
            }),
        decreases markets@.len() - k,
    {
        let m = &markets[k];
        let text: &str = match &m.subtitle {
            Some(s) => s.as_str(),
            None => m.title.as_str(),
        };
        proof {
            assert(text@ == market_text(markets@[k as int]));
        }
        let side = match determine_team_side(text, home_team.as_str(), away_team.as_str()) {
            Some(s) => s,
            None => {
                proof {
                    assert(markets@.take(k as int + 1).drop_last() =~= markets@.take(k as int));
                    assert(markets@.take(k as int + 1).last() == markets@[k as int]);
                    assert(markets@.take(markets@.len() as int) =~= markets@);
                    lemma_event_quotes_extend_none(markets@, home_team@, away_team@, k as int);
                    assert(title_teams(markets@[0].title@) == Some((home_team@, away_team@)));
                    assert(event_quotes(markets@, home_team@, away_team@) is None);
                }
                return None;
            },
        };
        let ghost oldq = event_quotes(markets@.take(k as int), home_team@, away_team@)->0;
        if let (Some(bid), Some(ask)) = (m.yes_bid, m.yes_ask) {
            if let Some(price) = kalshi_to_american_odds(bid, ask) {
                let team = if side {
                    home_team.clone()
                } else {
                    away_team.clone()
                };
                moneyline.push(crate::models::MoneylineOdds { team, price });
            }
        }
        k += 1;
        proof {
            assert(markets@.take(k as int).drop_last() =~= markets@.take(k as int - 1));
            assert(markets@.take(k as int).last() == markets@[k as int - 1]);
        }
    }
    proof {
        assert(markets@.take(markets@.len() as int) =~= markets@);
    }
    if moneyline.len() == 0 {
        return None;
    }
    let game = crate::models::Game {
        id: String::from_str(event_ticker),
        home_team: home_team.clone(),
        away_team: away_team.clone(),
        commence_time,
        sport_title,
    };
    let betting_odds = crate::models::BettingOdds {
        game_id: String::from_str(event_ticker),
        bookmaker: String::from_str("Kalshi"),
        last_update: now,
        moneyline,
        spreads: Vec::new(),
    };
    Some((game, betting_odds))
}

/// Once one market of the prefix names neither side, every extension of
/// the prefix yields no quotes at all.
proof fn lemma_event_quotes_extend_none(
    ms: Seq<KalshiMarket>,
    home: Seq<char>,
    away: Seq<char>,
    k: int,
)
    requires
        0 <= k < ms.len(),
        market_side(market_text(ms[k]), home, away) is None,
    ensures
        event_quotes(ms, home, away) is None,
    decreases ms.len(),
{
    if ms.len() > 0 {
        if k == ms.len() - 1 {
            if event_quotes(ms.drop_last(), home, away) is Some {
            }
        } else {
            assert(ms.drop_last()[k] == ms[k]);
            lemma_event_quotes_extend_none(ms.drop_last(), home, away, k);
        }
    }
}

/// The mid price of the market's yes side, in millionths: the average of
/// bid and ask, each quoted in cents.
pub open spec fn kalshi_prob_micro(bid: int, ask: int) -> int {
    (bid + ask) * 5000
}

/// The American odds a market's mid price encodes, truncated toward
/// zero as in `probability_to_american_odds`.
pub open spec fn kalshi_american(bid: int, ask: int) -> int {
    let p = kalshi_prob_micro(bid, ask);
    if 2 * p >= MICRO {
        -(100 * p / (MICRO - p))
    } else {
        100 * (MICRO - p) / p
    }
}

/// The conversion's full outcome: prices over a dollar are rejected, an
/// empty or certain market (mid price zero or one) encodes no finite
/// odds, and an implausible result beyond ten thousand is dropped.
pub open spec fn kalshi_odds_spec(bid: int, ask: int) -> Option<i32> {
    if bid > 100 || ask > 100 {
        None
    } else if bid + ask == 0 || bid + ask == 200 {
        None
    } else {
        let a = kalshi_american(bid, ask);
        if a < -10000 || a > 10000 {
            None
        } else {
            Some(a as i32)
        }
    }
}

/// Convert an exchange market's yes bid and ask, in cents, to American
/// odds.
pub fn kalshi_to_american_odds(yes_bid: u32, yes_ask: u32) -> (r: Option<i32>)
    ensures
        r == kalshi_odds_spec(yes_bid as int, yes_ask as int),
{
    if yes_bid > 100 || yes_ask > 100 {
        return None;
    }
    let sum: i64 = yes_bid as i64 + yes_ask as i64;
    if sum == 0 || sum == 200 {
        return None;
    }
    let p: i64 = sum * 5000;
    let a = probability_to_american_odds(p);
    if a < -10000 || a > 10000 {
        None
    } else {
        Some(a)
    }
}

} // verus!
