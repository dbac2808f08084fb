//! Per-match helpers shared by the season and event statistics: which
//! alliance a team played on, its score, its teammates, its breakdown and
//! the win/loss tally.

use vstd::prelude::*;
use crate::parse::{texts, Root2, ScoreBreakdown};
use crate::team_key::frc;
use crate::text::{contains_seq, contains_str, remove_all, remove_str};

verus! {

/// An alliance colour.
#[derive(PartialEq, Eq, Structural, Clone, Copy, Debug)]
pub enum Team {
    Blue,
    Red,
}

/// The scoring details of one alliance in one match, each absent when the
/// match had no breakdown.
#[derive(Clone, Debug, PartialEq)]
pub struct BreakDown {
    pub auto_points: Option<i16>,
    pub foul_points: Option<i16>,
    pub rp: Option<i16>,
    pub auto_auto_bridge_state: Option<String>,
    pub end_game_bridge_state: Option<String>,
    pub sustainability_bonus_achieved: Option<bool>,
    pub auto_game_piece_count: Option<i16>,
    pub auto_game_piece_points: Option<i16>,
    pub telop_game_piece_count: Option<i16>,
    pub telop_game_piece_points: Option<i16>,
}

/// The score of alliance `team` in match `m`.
pub open spec fn score_of(team: Team, m: Root2) -> i16 {
    match team {
        Team::Blue => m.alliances.blue.score,
        Team::Red => m.alliances.red.score,
    }
}

/// The team keys of alliance `team` in match `m`.
pub open spec fn keys_of(team: Team, m: Root2) -> Seq<String> {
    match team {
        Team::Blue => m.alliances.blue.team_keys@,
        Team::Red => m.alliances.red.team_keys@,
    }
}

/// Each text with every `"frc"` removed.
pub open spec fn without_frc(v: Seq<Seq<char>>) -> Seq<Seq<char>> {
    v.map_values(|s: Seq<char>| remove_all(s, frc()))
}

/// The breakdown of alliance `team`, or an empty one when there is none.
pub open spec fn breakdown_spec(b: Option<ScoreBreakdown>, team: Team) -> BreakDown {
    match b {
        None => BreakDown {
            auto_points: None,
            foul_points: None,
            rp: None,
            auto_auto_bridge_state: None,
            end_game_bridge_state: None,
            sustainability_bonus_achieved: None,
            auto_game_piece_count: None,
            auto_game_piece_points: None,
            telop_game_piece_count: None,
            telop_game_piece_points: None,
        },
        Some(b) => match team {
            Team::Red => BreakDown {
                auto_points: Some(b.red.auto_points),
                foul_points: Some(b.red.foul_points),
                rp: Some(b.red.rp),
                auto_auto_bridge_state: b.red.auto_bridge_state,
                end_game_bridge_state: b.red.end_game_bridge_state,
                sustainability_bonus_achieved: b.red.sustainability_bonus_achieved,
                auto_game_piece_count: Some(b.red.auto_game_piece_count),
                auto_game_piece_points: Some(b.red.auto_game_piece_points),
                telop_game_piece_count: Some(b.red.telop_game_piece_count),
                telop_game_piece_points: Some(b.red.telop_game_piece_points),
            },
            Team::Blue => BreakDown {
                auto_points: Some(b.blue.auto_points),
                foul_points: Some(b.blue.foul_points),
                rp: Some(b.blue.rp),
                auto_auto_bridge_state: b.blue.auto_bridge_state,
                end_game_bridge_state: b.blue.end_game_bridge_state,
                sustainability_bonus_achieved: b.blue.sustainability_bonus_achieved,
                auto_game_piece_count: Some(b.blue.auto_game_piece_count),
                auto_game_piece_points: Some(b.blue.auto_game_piece_points),
                telop_game_piece_count: Some(b.blue.telop_game_piece_count),
                telop_game_piece_points: Some(b.blue.telop_game_piece_points),
            },
        },
    }
}

/// The name an alliance colour goes by in a match's winner field.
pub open spec fn colour_name(team: Team) -> Seq<char> {
    match team {
        Team::Red => seq!['r', 'e', 'd'],
        Team::Blue => seq!['b', 'l', 'u', 'e'],
    }
}

/// Whether the winner field names alliance `team`.
pub open spec fn won(team: Team, winner: Seq<char>) -> bool {
    contains_seq(winner, colour_name(team))
}

/// The tally `(losses, wins)` after one more match of alliance `team`.
pub open spec fn tally(team: Team, losses: int, wins: int, winner: Seq<char>) -> (int, int) {
    if won(team, winner) {
        (losses, wins + 1)
    } else {
        (losses + 1, wins)
    }
}

/// The sum of a list of points.
pub open spec fn total(s: Seq<i16>) -> int
    decreases s.len(),
{
    if s.len() == 0 {
        0
    } else {
        total(s.drop_last()) + s.last()
    }
}

/// The score of alliance `team` in `json`.
pub fn get_score(team: &Team, json: &Root2) -> (r: i16)
    ensures
        r == score_of(*team, *json),
{
    match team {
        Team::Blue => json.alliances.blue.score,
        Team::Red => json.alliances.red.score,
    }
}

/// The team numbers of alliance `team` in `json`: its team keys with the
/// `"frc"` removed.
pub fn get_teammates(team: &Team, json: &Root2) -> (r: Vec<String>)
    ensures
        texts(r@) == without_frc(texts(keys_of(*team, *json))),
{
    let keys = match team {
        Team::Blue => &json.alliances.blue.team_keys,
        Team::Red => &json.alliances.red.team_keys,
    };
    remove_frc(crate::parse::copy_texts(keys))
}

/// Each text with every `"frc"` removed.
pub fn remove_frc(who: Vec<String>) -> (r: Vec<String>)
    ensures
        texts(r@) == without_frc(texts(who@)),
{
    proof {
        reveal_strlit("frc");
    }
    let pat = "frc";
    assert(pat@ =~= frc());
    let mut out: Vec<String> = Vec::new();
    let mut i: usize = 0;
    while i < who.len()
        invariant
            pat@ == frc(),
            i <= who.len(),
            texts(out@) == without_frc(texts(who@.take(i as int))),
        decreases who.len() - i,
    {
        let bare = remove_str(who[i].as_str(), pat);
        let ghost before = out@;
        out.push(bare);
        assert(texts(out@) =~= texts(before).push(remove_all(who@[i as int]@, frc())));
        assert(texts(who@.take(i + 1)) =~= texts(who@.take(i as int)).push(who@[i as int]@));
        assert(texts(out@) =~= without_frc(texts(who@.take(i + 1))));
        i = i + 1;
    }
    assert(who@.take(who.len() as int) =~= who@);
    out
}

/// The larger of two values.
pub fn compare_highest(old: i16, new: i16) -> (r: i16)
    ensures
        r == if old > new { old } else { new },
{
    if old > new {
        return old;
    }
    new
}

/// The smaller of two values.
pub fn compare_lowest(old: i16, new: i16) -> (r: i16)
    ensures
        r == if old < new { old } else { new },
{
    if old < new {
        return old;
    }
    new
}

/// The breakdown of alliance `team` out of a match's score breakdown.
pub fn get_breakdown_data(breakdown: Option<ScoreBreakdown>, team: &Team) -> (r: BreakDown)
    ensures
        r == breakdown_spec(breakdown, *team),
{
    match breakdown {
        Some(breakdown) => match team {
            Team::Red => {
                let location = breakdown.red;
                BreakDown {
                    auto_points: Some(location.auto_points),
                    foul_points: Some(location.foul_points),
                    rp: Some(location.rp),
                    auto_auto_bridge_state: location.auto_bridge_state,
                    end_game_bridge_state: location.end_game_bridge_state,
                    sustainability_bonus_achieved: location.sustainability_bonus_achieved,
                    auto_game_piece_count: Some(location.auto_game_piece_count),
                    auto_game_piece_points: Some(location.auto_game_piece_points),
                    telop_game_piece_count: Some(location.telop_game_piece_count),
                    telop_game_piece_points: Some(location.telop_game_piece_points),
                }
            },
            Team::Blue => {
                let location = breakdown.blue;
                BreakDown {
                    auto_points: Some(location.auto_points),
                    foul_points: Some(location.foul_points),
                    rp: Some(location.rp),
                    auto_auto_bridge_state: location.auto_bridge_state,
                    end_game_bridge_state: location.end_game_bridge_state,
                    sustainability_bonus_achieved: location.sustainability_bonus_achieved,
                    auto_game_piece_count: Some(location.auto_game_piece_count),
                    auto_game_piece_points: Some(location.auto_game_piece_points),
                    telop_game_piece_count: Some(location.telop_game_piece_count),
                    telop_game_piece_points: Some(location.telop_game_piece_points),
                }
            },
        },
        None => BreakDown {
            auto_points: None,
            foul_points: None,
            rp: None,
            auto_auto_bridge_state: None,
            end_game_bridge_state: None,
            sustainability_bonus_achieved: None,
            auto_game_piece_count: None,
            auto_game_piece_points: None,
            telop_game_piece_count: None,
            telop_game_piece_points: None,
        },
    }
}

/// The tally `(losses, wins)` after one more match of alliance `compare`:
/// a win when the winner field names the alliance, a loss otherwise.
pub fn check_win(compare: Team, losses: i16, wins: i16, winner: &str) -> (r: (i16, i16))
    requires
        won(compare, winner@) ==> wins < i16::MAX,
        !won(compare, winner@) ==> losses < i16::MAX,
    ensures
        (r.0 as int, r.1 as int) == tally(compare, losses as int, wins as int, winner@),
{
    proof {
        reveal_strlit("red");
        reveal_strlit("blue");
    }
    match compare {
        Team::Red => {
            let name = "red";
            assert(name@ =~= colour_name(Team::Red));
            if contains_str(winner, name) {
                (losses, wins + 1)
            } else {
                (losses + 1, wins)
            }
        },
        Team::Blue => {
            let name = "blue";
            assert(name@ =~= colour_name(Team::Blue));
            if contains_str(winner, name) {
                (losses, wins + 1)
            } else {
                (losses + 1, wins)
            }
        },
    }
}

/// The exact sum of a list of points, the numerator of its average.
pub fn sum_points(numbers: &Vec<i16>) -> (r: i128)
    ensures
        r == total(numbers@),
{
    let mut acc: i128 = 0;
    let mut i: usize = 0;
    while i < numbers.len()
        invariant
            i <= numbers.len(),
            acc == total(numbers@.take(i as int)),
            -32768 * i <= acc <= 32767 * i,
        decreases numbers.len() - i,
    {
        assert(numbers@.take(i + 1).drop_last() =~= numbers@.take(i as int));
        acc = acc + numbers[i] as i128;
        i = i + 1;
    }
    assert(numbers@.take(numbers.len() as int) =~= numbers@);
    acc
}

} // verus!
