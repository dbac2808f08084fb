use frc_scout::avg::{count_played, YearAround};
use frc_scout::event::Event;
use frc_scout::parse::{Alliances, Blue, Blue2, Red, Red2, Root2, ScoreBreakdown, Video};
use frc_scout::shared::{
    check_win, compare_highest, compare_lowest, get_breakdown_data, get_score, get_teammates,
    remove_frc, sum_points, Team,
};
use frc_scout::store::{check_cache as record_match, MatchStore};
use frc_scout::year_data::{SendType, YearData, PUBLIC_CACHE};
use std::collections::HashMap;

fn s(x: &str) -> String {
    x.to_string()
}

fn keys(v: &[&str]) -> Vec<String> {
    v.iter().map(|k| k.to_string()).collect()
}

fn blue2(rp: i16, auto: i16, foul: i16) -> Blue2 {
    Blue2 {
        rp,
        auto_points: auto,
        foul_count: 1,
        telop_mobility_points: 0,
        telop_game_piece_points: 30,
        telop_game_piece_count: 6,
        auto_mobility_points: 3,
        auto_game_piece_points: 12,
        auto_game_piece_count: 2,
        foul_points: foul,
        sustainability_bonus_achieved: Some(true),
        end_game_bridge_state: Some(s("Level")),
        auto_bridge_state: Some(s("NotLevel")),
    }
}

fn red2(rp: i16, auto: i16, foul: i16) -> Red2 {
    Red2 {
        rp,
        auto_points: auto,
        foul_count: 2,
        foul_points: foul,
        telop_mobility_points: 0,
        telop_game_piece_points: 25,
        telop_game_piece_count: 5,
        auto_game_piece_points: 9,
        auto_game_piece_count: 1,
        sustainability_bonus_achieved: None,
        end_game_bridge_state: None,
        auto_bridge_state: Some(s("Docked")),
    }
}

fn game(
    number: u8,
    red: &[&str],
    red_score: i16,
    blue: &[&str],
    blue_score: i16,
    winner: &str,
    breakdown: Option<ScoreBreakdown>,
) -> Root2 {
    Root2 {
        alliances: Alliances {
            blue: Blue {
                dq_team_keys: vec![],
                score: blue_score,
                surrogate_team_keys: vec![],
                team_keys: keys(blue),
            },
            red: Red {
                dq_team_keys: vec![],
                score: red_score,
                surrogate_team_keys: vec![],
                team_keys: keys(red),
            },
        },
        comp_level: s("qm"),
        event_key: s("2023cur"),
        key: format!("2023cur_qm{number}"),
        match_number: number,
        score_breakdown: breakdown,
        videos: vec![],
        winning_alliance: s(winner),
    }
}

#[test]
fn highest_and_lowest() {
    assert_eq!(compare_highest(3, 9), 9);
    assert_eq!(compare_highest(9, 3), 9);
    assert_eq!(compare_lowest(3, 9), 3);
    assert_eq!(compare_lowest(-4, -7), -7);
}

#[test]
fn win_tally() {
    assert_eq!(check_win(Team::Red, 2, 5, "red"), (2, 6));
    assert_eq!(check_win(Team::Red, 2, 5, "blue"), (3, 5));
    assert_eq!(check_win(Team::Blue, 0, 0, "blue"), (0, 1));
    assert_eq!(check_win(Team::Blue, 0, 0, ""), (1, 0));
    assert_eq!(check_win(Team::Red, 0, 0, " red "), (0, 1));
}

#[test]
fn frc_is_removed_from_every_key() {
    assert_eq!(remove_frc(keys(&["frc604", "frc254", "frcfrc1"])), keys(&["604", "254", "1"]));
    assert_eq!(remove_frc(keys(&["ffrcrc7"])), keys(&["frc7"]));
}

#[test]
fn breakdown_of_each_alliance() {
    let sb = ScoreBreakdown { blue: blue2(2, 15, 4), red: red2(1, 8, 0) };
    let red = get_breakdown_data(Some(sb.clone()), &Team::Red);
    assert_eq!(red.auto_points, Some(8));
    assert_eq!(red.rp, Some(1));
    assert_eq!(red.telop_game_piece_points, Some(25));
    assert_eq!(red.auto_auto_bridge_state, Some(s("Docked")));
    assert_eq!(red.end_game_bridge_state, None);
    let blue = get_breakdown_data(Some(sb), &Team::Blue);
    assert_eq!(blue.foul_points, Some(4));
    assert_eq!(blue.sustainability_bonus_achieved, Some(true));
    let none = get_breakdown_data(None, &Team::Blue);
    assert_eq!(none.auto_points, None);
    assert_eq!(none.telop_game_piece_count, None);
}

#[test]
fn score_and_teammates() {
    let g = game(1, &["frc1", "frc2", "frc3"], 50, &["frc4", "frc5", "frc6"], 60, "blue", None);
    assert_eq!(get_score(&Team::Red, &g), 50);
    assert_eq!(get_score(&Team::Blue, &g), 60);
    assert_eq!(get_teammates(&Team::Blue, &g), keys(&["4", "5", "6"]));
}

#[test]
fn points_sum_exactly() {
    assert_eq!(sum_points(&vec![]), 0);
    assert_eq!(sum_points(&vec![30000, 30000, -5]), 59995);
}

#[test]
fn season_statistics() {
    let sb = ScoreBreakdown { blue: blue2(2, 15, 4), red: red2(1, 8, 0) };
    let data = vec![
        game(1, &["frc604", "frc2"], 50, &["frc4"], 60, "blue", Some(sb.clone())),
        game(2, &["frc9"], 70, &["frc604"], 80, "blue", None),
        game(3, &["frc604"], -1, &["frc5"], -1, "", None),
        game(4, &["frc7"], 10, &["frc8"], 20, "red", None),
        game(5, &["frc604"], 1200, &["frc5"], 3, "red", Some(sb)),
    ];
    assert_eq!(count_played(&data, "604"), 3);
    assert_eq!(count_played(&data, "8"), 1);
    let year = YearAround::new(data).calculate("604").unwrap();
    assert_eq!(year.points.graph.len(), year.matches_played as usize);
    assert_eq!(year.wins, 2);
    assert_eq!(year.losses, 1);
    assert_eq!(year.matches_played, 3);
    assert_eq!(year.points.graph, vec![50, 80, 1200]);
    assert_eq!(year.points.highest, 1200);
    assert_eq!(year.points.lowest, 50);
    assert_eq!(year.rp.graph, vec![1, 1]);
    assert_eq!(year.auto.graph, vec![8, 8]);
    assert_eq!(year.pen.graph, vec![0, 0]);
    assert_eq!(year.pen.highest, Some(0));
    assert_eq!(year.auto_game_points.graph, vec![1, 1]);
    assert_eq!(year.telop_game_points.graph, vec![25, 25]);
    assert_eq!(year.telop_game_pieces.graph, vec![5, 5]);
    assert!(year.data.is_none());
    assert_eq!(year.calculate("604"), Err(std::fmt::Error));
}

#[test]
fn season_without_matches_keeps_starting_values() {
    let year = YearAround::new(vec![]).calculate("1").unwrap();
    assert_eq!(year.points.lowest, 10000);
    assert_eq!(year.points.highest, 0);
    assert_eq!(year.rp.highest, None);
    assert_eq!(year.matches_played, 0);
}

#[test]
fn lowest_starts_from_a_thousand() {
    let mut sb = ScoreBreakdown { blue: blue2(2, 15, 4), red: red2(1, 8, 0) };
    sb.red.telop_game_piece_points = 1500;
    let data = vec![game(1, &["frc1"], 5, &["frc2"], 6, "blue", Some(sb))];
    let year = YearAround::new(data).calculate("1").unwrap();
    assert_eq!(year.telop_game_points.lowest, Some(1000));
    assert_eq!(year.telop_game_points.highest, Some(1500));
}

#[test]
fn event_records() {
    let sb = ScoreBreakdown { blue: blue2(2, 15, 4), red: red2(1, 8, 0) };
    let mut g1 = game(12, &["frc604", "frc2"], 50, &["frc4"], 60, "blue", Some(sb));
    g1.videos.push(Video { key: s("abc"), type_field: s("youtube") });
    let g2 = game(13, &["frc9"], 70, &["frc604"], -1, "", None);
    let g3 = game(14, &["frc9"], 70, &["frc604", "frc3"], 40, "red", None);
    let mut event = Event::new();
    assert!(!event.updated);
    event = event.take_response(vec![g1.clone(), g2, g3]).unwrap();
    assert!(event.updated);
    let (event, records) = event.parse(604);
    assert_eq!(records.len(), 2);
    assert_eq!(records[0].team, 604);
    assert_eq!(records[0].match_number, 12);
    assert_eq!(records[0].score, 50);
    assert_eq!(records[0].auto, Some(8));
    assert_eq!(records[0].team_members, keys(&["604", "2"]));
    assert_eq!(records[0].video, Some(s("https://www.youtube.com/watch?v=abc")));
    assert_eq!(records[0].auto_level, Some(s("Docked")));
    assert_eq!(records[1].match_number, 14);
    assert_eq!(records[1].score, 40);
    assert_eq!(records[1].video, None);
    assert_eq!(records[1].rp, None);
    assert_eq!(records[1].team_members, keys(&["604", "3"]));
    let same = event.cache.clone();
    let event = event.take_response(same).unwrap_err();
    assert!(!event.updated);
}

#[test]
fn season_cache_counts_news_once() {
    let g = game(1, &["frc1"], 5, &["frc2"], 6, "blue", None);
    let mut year = YearData::new();
    assert!(year.check_cache(vec![g.clone()], &SendType::Year(2023), &1));
    assert!(year.updated);
    assert!(!year.check_cache(vec![g.clone()], &SendType::Year(2023), &1));
    assert!(year.check_cache(vec![g.clone()], &SendType::Match, &1));
    assert!(year.cache.contains_key(&PUBLIC_CACHE));
    let mut other = g.clone();
    other.alliances.red.score = 7;
    assert!(year.check_cache(vec![other], &SendType::Year(2023), &1));
}

#[test]
fn match_records_sent_once() {
    let g = game(3, &["frc1"], 5, &["frc2"], 6, "blue", None);
    let mut event = Event::new();
    event = event.take_response(vec![g]).unwrap();
    let records = event.math(1);
    let store = MatchStore::new(records.clone());
    assert_eq!(store.data.len(), 1);
    let mut cache = HashMap::new();
    assert!(record_match(&mut cache, &records[0], 1));
    assert!(!record_match(&mut cache, &records[0], 1));
    let mut other = records[0].clone();
    other.score = 99;
    assert!(record_match(&mut cache, &other, 1));
    assert_eq!(cache[&1].len(), 2);
}
