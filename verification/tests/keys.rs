use frc_scout::ai::Ai;
use frc_scout::charts::{check_populated, Http, Version};
use frc_scout::ram::Env;
use frc_scout::roster::{join_numbers, select_teams, RosterTeam};
use frc_scout::server::wait_plan;
use frc_scout::tba::{top_60_numbers, Tba, Team};
use frc_scout::team_key::{number_text, parse_u16, team_key, team_number};
use frc_scout::text::{contains_str, remove_str};

#[test]
fn keys_round_trip() {
    for n in [0u16, 7, 10, 254, 604, 8177, 65535] {
        assert_eq!(team_key(n), format!("frc{n}"));
        assert_eq!(team_number(&team_key(n)), n);
        assert_eq!(number_text(n), n.to_string());
    }
}

#[test]
fn numbers_parse_like_std() {
    for text in ["0", "42", "+42", "0007", "65535", "65536", "", "+", "-1", " 1", "1a", "99999999"] {
        assert_eq!(parse_u16(text), text.parse::<u16>().ok(), "{text}");
    }
    assert_eq!(team_number("frc"), 0);
    assert_eq!(team_number("frc12x"), 0);
    assert_eq!(team_number("frcfrc12"), 12);
}

#[test]
fn text_search_and_removal() {
    assert!(contains_str("red", "red"));
    assert!(contains_str("  red", "red"));
    assert!(!contains_str("re", "red"));
    assert!(contains_str("abc", ""));
    assert_eq!(remove_str("frcfrfrc1", "frc"), "fr1");
}

#[test]
fn followed_teams_skip_8177() {
    let env = Env::new("2023cur", "key", "redis://x", "dsn", "Curie".to_string(), &vec![604, 8177, 254]);
    assert_eq!(env.teams, vec![604, 254]);
    assert_eq!(env.update_where, "2023cur");
    assert_eq!(env.firestore_collection, "Curie");
}

#[test]
fn tba_team_numbers() {
    let json = vec!["frc604".to_string(), "frcX".to_string(), "frc254B".to_string()];
    assert_eq!(Tba::team_numbers(&json), vec![604, 0, 0]);
    let _ = Tba::new();
}

#[test]
fn top_sixty() {
    let mut ranking: Vec<Team> = (1..=61).map(|n| Team { team_key: format!("frc{n}") }).collect();
    ranking[3].team_key = "frcB4".to_string();
    let top = top_60_numbers(&ranking);
    assert_eq!(top.len(), 59);
    assert_eq!(top[0], 1);
    assert_eq!(top[3], 5);
    assert_eq!(*top.last().unwrap(), 60);
}

#[test]
fn event_choice_for_charts() {
    let events = vec!["2023cur".to_string(), "2023njfla".to_string(), "2023njtab".to_string()];
    let h = Http::from_events(604, &events, "2023cur").unwrap();
    assert_eq!(h.team, 604);
    assert_eq!(h.key, "2023njfla");
    assert!(Http::from_events(604, &vec!["2023cur".to_string()], "2023cur").is_none());
}

#[test]
fn mean_weights_floor_at_one() {
    assert_eq!(Ai::mean_weights(&vec![5, 0, -3, 12]), vec![5, 1, 1, 12]);
    assert!(Ai::mean_weights(&vec![]).is_empty());
}

#[test]
fn recent_scores() {
    assert_eq!(Ai::recent(&vec![1, 2, 3, 4, 5, 6, 7]), vec![1, 2, 3, 4, 5, 6, 7]);
    assert_eq!(Ai::recent(&vec![1, 2, 3, 4, 5, 6, 7, 8]), vec![4, 5, 6, 7, 8]);
}

#[test]
fn pacing() {
    assert_eq!(wait_plan(false, 8, 160), (8, false));
    assert_eq!(wait_plan(true, 8, 160), (160, false));
}

#[test]
fn roster_selection() {
    let teams = vec![
        RosterTeam { team_number: "1".to_string(), state_prov: Some("New Jersey".to_string()) },
        RosterTeam { team_number: "2".to_string(), state_prov: None },
        RosterTeam { team_number: "3".to_string(), state_prov: Some("CT".to_string()) },
    ];
    assert_eq!(select_teams(&teams, "*"), vec!["1", "2", "3"]);
    assert_eq!(select_teams(&teams, "CT"), vec!["3"]);
    assert!(select_teams(&teams, "Ohio").is_empty());
    assert_eq!(join_numbers(&vec!["1".to_string(), "2".to_string()]), "1, 2");
    assert_eq!(join_numbers(&vec![]), "");
}

#[test]
fn charts_round_outcome() {
    let followed = vec![604, 254, 1114];
    assert_eq!(check_populated(Version::Pre, &followed, &vec![604, 254, 1114]), None);
    assert_eq!(check_populated(Version::Pre, &followed, &vec![254]), Some(vec![604, 1114]));
    assert_eq!(check_populated(Version::Top60, &followed, &vec![]), Some(vec![604, 254, 1114]));
    assert_eq!(check_populated(Version::Match, &followed, &vec![254]), None);
}
