//! The live event feed: the match list of the event under way, the check
//! that a fresh copy of it brings news, and the per-match records of a team.

use vstd::prelude::*;
use crate::avg::has_key;
use crate::parse::{
    copy_breakdown, opt_text, same_match_lists, same_matches, same_opt_text, same_texts, texts, Root2,
};
use crate::shared::{
    breakdown_spec, get_breakdown_data, get_score, get_teammates, keys_of, score_of, without_frc,
    Team,
};
use crate::team_key::{team_key, team_key_spec};

verus! {

/// The event feed: the match list last received, the list to work on, and
/// whether the last response brought news.
#[derive(Clone, Debug, PartialEq)]
pub struct Event {
    pub updated: bool,
    pub cache: Vec<Root2>,
    pub new_data: Vec<Root2>,
}

/// One match of one team at the event.
#[derive(Clone, Debug, PartialEq)]
pub struct EventData {
    pub team: u16,
    pub auto_game_pieces: Option<i16>,
    pub auto_game_points: Option<i16>,
    pub teleop_game_pieces: Option<i16>,
    pub teleop_game_points: Option<i16>,
    pub penalty: Option<i16>,
    pub auto: Option<i16>,
    pub rp: Option<i16>,
    pub match_number: u8,
    pub team_members: Vec<String>,
    pub score: i16,
    pub video: Option<String>,
    pub auto_level: Option<String>,
    pub end_level: Option<String>,
    pub sustain_bonus: Option<bool>,
}

impl EventData {
    /// Field-by-field equality of two records: what `==` compares.
    pub open spec fn same(self, o: Self) -> bool {
        &&& self.team == o.team
        &&& self.auto_game_pieces == o.auto_game_pieces
        &&& self.auto_game_points == o.auto_game_points
        &&& self.teleop_game_pieces == o.teleop_game_pieces
        &&& self.teleop_game_points == o.teleop_game_points
        &&& self.penalty == o.penalty
        &&& self.auto == o.auto
        &&& self.rp == o.rp
        &&& self.match_number == o.match_number
        &&& texts(self.team_members@) == texts(o.team_members@)
        &&& self.score == o.score
        &&& opt_text(self.video) == opt_text(o.video)
        &&& opt_text(self.auto_level) == opt_text(o.auto_level)
        &&& opt_text(self.end_level) == opt_text(o.end_level)
        &&& self.sustain_bonus == o.sustain_bonus
    }

    /// `EventData == EventData`.
    pub fn same_as(&self, o: &Self) -> (r: bool)
        ensures
            r == self.same(*o),
    {
        self.team == o.team && opt_eq(self.auto_game_pieces, o.auto_game_pieces) && opt_eq(
            self.auto_game_points,
            o.auto_game_points,
        ) && opt_eq(self.teleop_game_pieces, o.teleop_game_pieces) && opt_eq(
            self.teleop_game_points,
            o.teleop_game_points,
        ) && opt_eq(self.penalty, o.penalty) && opt_eq(self.auto, o.auto) && opt_eq(
            self.rp,
            o.rp,
        ) && self.match_number == o.match_number && same_texts(
            &self.team_members,
            &o.team_members,
        ) && self.score == o.score && same_opt_text(&self.video, &o.video) && same_opt_text(
            &self.auto_level,
            &o.auto_level,
        ) && same_opt_text(&self.end_level, &o.end_level) && match (
            self.sustain_bonus,
            o.sustain_bonus,
        ) {
            (Some(x), Some(y)) => x == y,
            (None, None) => true,
            _ => false,
        }
    }

    /// A copy of this record.
    pub fn duplicate(&self) -> (r: Self)
        ensures
            r.same(*self),
    {
        EventData {
            team: self.team,
            auto_game_pieces: self.auto_game_pieces,
            auto_game_points: self.auto_game_points,
            teleop_game_pieces: self.teleop_game_pieces,
            teleop_game_points: self.teleop_game_points,
            penalty: self.penalty,
            auto: self.auto,
            rp: self.rp,
            match_number: self.match_number,
            team_members: crate::parse::copy_texts(&self.team_members),
            score: self.score,
            video: crate::parse::copy_opt_text(&self.video),
            auto_level: crate::parse::copy_opt_text(&self.auto_level),
            end_level: crate::parse::copy_opt_text(&self.end_level),
            sustain_bonus: self.sustain_bonus,
        }
    }
}

fn opt_eq(a: Option<i16>, b: Option<i16>) -> (r: bool)
    ensures
        r == (a == b),
{
    match (a, b) {
        (Some(x), Some(y)) => x == y,
        (None, None) => true,
        _ => false,
    }
}

/// The alliance on which the team with key `key` appears in match `m`:
/// red first, then blue.
pub open spec fn event_side(m: Root2, key: Seq<char>) -> Option<Team> {
    if texts(m.alliances.red.team_keys@).contains(key) {
        Some(Team::Red)
    } else if texts(m.alliances.blue.team_keys@).contains(key) {
        Some(Team::Blue)
    } else {
        None
    }
}

/// The matches of `data` in which the team with key `key` appears, in
/// order, each with its alliance.
pub open spec fn appearances(data: Seq<Root2>, key: Seq<char>) -> Seq<(Root2, Team)>
    decreases data.len(),
{
    if data.len() == 0 {
        Seq::empty()
    } else {
        let prev = appearances(data.drop_last(), key);
        match event_side(data.last(), key) {
            Some(t) => prev.push((data.last(), t)),
            None => prev,
        }
    }
}

/// The matches of `data` in which the team with key `key` appears and
/// whose score on its alliance is known (not -1).
pub open spec fn scored_games(data: Seq<Root2>, key: Seq<char>) -> Seq<(Root2, Team)>
    decreases data.len(),
{
    if data.len() == 0 {
        Seq::empty()
    } else {
        let prev = scored_games(data.drop_last(), key);
        match event_side(data.last(), key) {
            Some(t) => if score_of(t, data.last()) != -1 {
                prev.push((data.last(), t))
            } else {
                prev
            },
            None => prev,
        }
    }
}

/// The link to a match's first video, if it has one.
pub open spec fn video_link(m: Root2) -> Option<Seq<char>> {
    if m.videos@.len() > 0 {
        Some("https://www.youtube.com/watch?v="@ + m.videos@[0].key@)
    } else {
        None
    }
}

/// `d` is the record of team `team` for the match `e`.
pub open spec fn describes(d: EventData, team: u16, e: (Root2, Team)) -> bool {
    let b = breakdown_spec(e.0.score_breakdown, e.1);
    &&& d.team == team
    &&& d.auto_game_pieces == b.auto_game_piece_count
    &&& d.auto_game_points == b.auto_game_piece_points
    &&& d.teleop_game_pieces == b.telop_game_piece_count
    &&& d.teleop_game_points == b.telop_game_piece_points
    &&& d.penalty == b.foul_points
    &&& d.auto == b.auto_points
    &&& d.rp == b.rp
    &&& d.match_number == e.0.match_number
    &&& texts(d.team_members@) == without_frc(texts(keys_of(e.1, e.0)))
    &&& d.score == score_of(e.1, e.0)
    &&& opt_text(d.video) == video_link(e.0)
    &&& d.auto_level == b.auto_auto_bridge_state
    &&& d.end_level == b.end_game_bridge_state
    &&& d.sustain_bonus == b.sustainability_bonus_achieved
}

proof fn lemma_appear_step(data: Seq<Root2>, key: Seq<char>, i: int)
    requires
        0 <= i < data.len(),
    ensures
        appearances(data.take(i + 1), key) == match event_side(data[i], key) {
            Some(t) => appearances(data.take(i), key).push((data[i], t)),
            None => appearances(data.take(i), key),
        },
        scored_games(data.take(i + 1), key) == match event_side(data[i], key) {
            Some(t) => if score_of(t, data[i]) != -1 {
                scored_games(data.take(i), key).push((data[i], t))
            } else {
                scored_games(data.take(i), key)
            },
            None => scored_games(data.take(i), key),
        },
{
    assert(data.take(i + 1).drop_last() =~= data.take(i));
}

impl Event {
    /// A feed that has received nothing yet.
    pub fn new() -> (r: Self)
        ensures
            !r.updated,
            r.cache@.len() == 0,
            r.new_data@.len() == 0,
    {
        Event { updated: false, cache: Vec::new(), new_data: Vec::new() }
    }

    /// Takes a freshly fetched match list.  When it holds the same matches
    /// as the last one, the feed is handed back as an error, marked as not
    /// updated; otherwise the list becomes both the cache and the data to
    /// work on, and the feed is marked as updated.
    pub fn take_response(self, json: Vec<Root2>) -> (r: Result<Self, Self>)
        ensures
            same_matches(json@, self.cache@) ==> (r matches Err(e) && !e.updated && e.cache
                == self.cache && e.new_data == self.new_data),
            !same_matches(json@, self.cache@) ==> (r matches Ok(e) && e.updated && same_matches(
                e.cache@,
                json@,
            ) && e.new_data == json),
    {
        let mut this = self;
        if same_match_lists(&json, &this.cache) {
            this.updated = false;
            return Err(this);
        }
        this.updated = true;
        this.cache = crate::parse::copy_matches(&json);
        this.new_data = json;
        Ok(this)
    }

    /// The matches of the current list in which team `check_team` appears,
    /// by position, each with its alliance.
    fn find_team(&self, check_team: u16) -> (r: Vec<(usize, Team)>)
        ensures
            r@.len() == appearances(self.new_data@, team_key_spec(check_team)).len(),
            forall|i: int|
                0 <= i < r@.len() ==> {
                    let (k, t) = #[trigger] r@[i];
                    &&& k < self.new_data@.len()
                    &&& (self.new_data@[k as int], t) == appearances(
                        self.new_data@,
                        team_key_spec(check_team),
                    )[i]
                },
    {
        let team = team_key(check_team);
        let ghost key = team@;
        let mut out: Vec<(usize, Team)> = Vec::new();
        let mut i: usize = 0;
        assert(self.new_data@.take(0) =~= Seq::<Root2>::empty());
        while i < self.new_data.len()
            invariant
                i <= self.new_data.len(),
                key == team_key_spec(check_team),
                team@ == key,
                out@.len() == appearances(self.new_data@.take(i as int), key).len(),
                forall|j: int|
                    0 <= j < out@.len() ==> {
                        let (k, t) = #[trigger] out@[j];
                        &&& k < self.new_data@.len()
                        &&& (self.new_data@[k as int], t) == appearances(
                            self.new_data@.take(i as int),
                            key,
                        )[j]
                    },
            decreases self.new_data.len() - i,
        {
            proof {
                lemma_appear_step(self.new_data@, key, i as int);
            }
            let data = &self.new_data[i];
            if has_key(&data.alliances.red.team_keys, &team) {
                out.push((i, Team::Red));
            } else if has_key(&data.alliances.blue.team_keys, &team) {
                out.push((i, Team::Blue));
            }
            i = i + 1;
        }
        assert(self.new_data@.take(self.new_data.len() as int) =~= self.new_data@);
        out
    }

    /// The link to a match's first video.
    fn get_video(game_json: &Root2) -> (r: Option<String>)
        ensures
            opt_text(r) == video_link(*game_json),
    {
        if game_json.videos.len() == 0 {
            return None;
        }
        let prefix = String::from_str("https://www.youtube.com/watch?v=");
        Some(prefix.concat(game_json.videos[0].key.as_str()))
    }

    /// The records of team `check_team` for every match of the current list
    /// in which it appears and whose score on its alliance is known.
    pub fn math(&self, check_team: u16) -> (r: Vec<EventData>)
        ensures
            r@.len() == scored_games(self.new_data@, team_key_spec(check_team)).len(),
            forall|i: int|
                0 <= i < r@.len() ==> describes(
                    #[trigger] r@[i],
                    check_team,
                    scored_games(self.new_data@, team_key_spec(check_team))[i],
                ),
    {
        let ghost key = team_key_spec(check_team);
        let found = self.find_team(check_team);
        let mut out: Vec<EventData> = Vec::new();
        let mut j: usize = 0;
        while j < found.len()
            invariant
                j <= found.len(),
                found@.len() == appearances(self.new_data@, key).len(),
                forall|i: int|
                    0 <= i < found@.len() ==> {
                        let (k, t) = #[trigger] found@[i];
                        &&& k < self.new_data@.len()
                        &&& (self.new_data@[k as int], t) == appearances(self.new_data@, key)[i]
                    },
                out@.len() == known(appearances(self.new_data@, key).take(j as int)).len(),
                forall|i: int|
                    0 <= i < out@.len() ==> describes(
                        #[trigger] out@[i],
                        check_team,
                        known(appearances(self.new_data@, key).take(j as int))[i],
                    ),
            decreases found.len() - j,
        {
            let (k, team) = found[j];
            let game_json = &self.new_data[k];
            let ghost a = appearances(self.new_data@, key);
            proof {
                assert(a.take(j + 1).drop_last() =~= a.take(j as int));
                assert(found@[j as int] == (k, team));
            }
            let breakdown = get_breakdown_data(copy_breakdown(&game_json.score_breakdown), &team);
            let score = get_score(&team, game_json);
            if score != -1 {
                let d = EventData {
                    team: check_team,
                    auto_game_pieces: breakdown.auto_game_piece_count,
                    auto_game_points: breakdown.auto_game_piece_points,
                    teleop_game_pieces: breakdown.telop_game_piece_count,
                    video: Self::get_video(game_json),
                    auto_level: breakdown.auto_auto_bridge_state,
                    rp: breakdown.rp,
                    penalty: breakdown.foul_points,
                    score,
                    match_number: game_json.match_number,
                    team_members: get_teammates(&team, game_json),
                    auto: breakdown.auto_points,
                    end_level: breakdown.end_game_bridge_state,
                    sustain_bonus: breakdown.sustainability_bonus_achieved,
                    teleop_game_points: breakdown.telop_game_piece_points,
                };
                out.push(d);
            }
            j = j + 1;
        }
        proof {
            let a = appearances(self.new_data@, key);
            assert(a.take(found.len() as int) =~= a);
            lemma_known_appearances(self.new_data@, key);
        }
        out
    }

    /// The records of team `team` for the current list, with the feed.
    pub fn parse(self, team: u16) -> (r: (Self, Vec<EventData>))
        ensures
            r.0 == self,
            r.1@.len() == scored_games(self.new_data@, team_key_spec(team)).len(),
            forall|i: int|
                0 <= i < r.1@.len() ==> describes(
                    #[trigger] r.1@[i],
                    team,
                    scored_games(self.new_data@, team_key_spec(team))[i],
                ),
    {
        let final_data = self.math(team);
        (self, final_data)
    }
}

/// A team's record for a match reads the breakdown of the team's own
/// alliance: its auto and teleop game piece counts and points, penalty
/// (foul) points, auto points and ranking points are those of that
/// alliance's breakdown, all absent when the match has no breakdown; its
/// score is that alliance's score and its match number the match's.
pub proof fn records_read_their_alliance(d: EventData, team: u16, m: Root2, t: Team)
    requires
        describes(d, team, (m, t)),
    ensures
        d.team == team,
        d.match_number == m.match_number,
        t == Team::Red ==> d.score == m.alliances.red.score,
        t == Team::Blue ==> d.score == m.alliances.blue.score,
        m.score_breakdown is None ==> {
            &&& d.auto_game_pieces is None
            &&& d.auto_game_points is None
            &&& d.teleop_game_pieces is None
            &&& d.teleop_game_points is None
            &&& d.penalty is None
            &&& d.auto is None
            &&& d.rp is None
        },
        (m.score_breakdown is Some && t == Team::Red) ==> {
            let b = m.score_breakdown->0.red;
            &&& d.auto_game_pieces == Some(b.auto_game_piece_count)
            &&& d.auto_game_points == Some(b.auto_game_piece_points)
            &&& d.teleop_game_pieces == Some(b.telop_game_piece_count)
            &&& d.teleop_game_points == Some(b.telop_game_piece_points)
            &&& d.penalty == Some(b.foul_points)
            &&& d.auto == Some(b.auto_points)
            &&& d.rp == Some(b.rp)
        },
        (m.score_breakdown is Some && t == Team::Blue) ==> {
            let b = m.score_breakdown->0.blue;
            &&& d.auto_game_pieces == Some(b.auto_game_piece_count)
            &&& d.auto_game_points == Some(b.auto_game_piece_points)
            &&& d.teleop_game_pieces == Some(b.telop_game_piece_count)
            &&& d.teleop_game_points == Some(b.telop_game_piece_points)
            &&& d.penalty == Some(b.foul_points)
            &&& d.auto == Some(b.auto_points)
            &&& d.rp == Some(b.rp)
        },
{
}

/// A response that holds the same matches as the cache is refused whichever
/// way the comparison runs: taking a response and then the same matches
/// again gives no news the second time.
pub proof fn repeated_response_is_refused(cache: Seq<Root2>, json: Seq<Root2>)
    requires
        same_matches(cache, json),
    ensures
        same_matches(json, cache),
{
    assert forall|i: int| 0 <= i < json.len() implies (#[trigger] json[i]).same(cache[i]) by {
        assert(cache[i].same(json[i]));
        assert forall|k: int| 0 <= k < json[i].videos@.len() implies (#[trigger] json[i].videos@[k]).same(
            cache[i].videos@[k],
        ) by {
            assert(cache[i].videos@[k].same(json[i].videos@[k]));
        }
    }
}

/// Every match a team's records come from has the team on the recorded
/// alliance and a known score there.
pub proof fn records_come_from_scored_games(data: Seq<Root2>, key: Seq<char>)
    ensures
        forall|i: int|
            0 <= i < scored_games(data, key).len() ==> {
                let (m, t) = #[trigger] scored_games(data, key)[i];
                &&& event_side(m, key) == Some(t)
                &&& score_of(t, m) != -1
            },
    decreases data.len(),
{
    if data.len() > 0 {
        records_come_from_scored_games(data.drop_last(), key);
        let prev = scored_games(data.drop_last(), key);
        assert forall|i: int| 0 <= i < scored_games(data, key).len() implies {
            let (m, t) = #[trigger] scored_games(data, key)[i];
            &&& event_side(m, key) == Some(t)
            &&& score_of(t, m) != -1
        } by {
            if i < prev.len() {
                assert(scored_games(data, key)[i] == prev[i]);
            }
        }
    }
}

/// The appearances whose score is known.
pub open spec fn known(p: Seq<(Root2, Team)>) -> Seq<(Root2, Team)>
    decreases p.len(),
{
    if p.len() == 0 {
        Seq::empty()
    } else {
        let prev = known(p.drop_last());
        if score_of(p.last().1, p.last().0) != -1 {
            prev.push(p.last())
        } else {
            prev
        }
    }
}

proof fn lemma_known_appearances(data: Seq<Root2>, key: Seq<char>)
    ensures
        known(appearances(data, key)) == scored_games(data, key),
    decreases data.len(),
{
    if data.len() > 0 {
        lemma_known_appearances(data.drop_last(), key);
        let prev = appearances(data.drop_last(), key);
        match event_side(data.last(), key) {
            Some(t) => {
                assert(prev.push((data.last(), t)).drop_last() =~= prev);
            },
            None => {},
        }
    }
}

} // verus!
