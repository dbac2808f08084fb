//! The match records that The Blue Alliance returns, as plain values.
//!
//! A team list that the service holds only as opaque JSON (disqualified and
//! surrogate teams) is kept here as the JSON text of each entry.

use vstd::prelude::*;

verus! {

/// The views of a list of strings.
pub open spec fn texts(v: Seq<String>) -> Seq<Seq<char>> {
    v.map_values(|s: String| s@)
}

/// The view of an optional string.
pub open spec fn opt_text(o: Option<String>) -> Option<Seq<char>> {
    match o {
        Some(s) => Some(s@),
        None => None,
    }
}

/// Whether two lists of strings hold the same texts: `Vec<String> == Vec<String>`.
pub fn same_texts(a: &Vec<String>, b: &Vec<String>) -> (r: bool)
    ensures
        r == (texts(a@) == texts(b@)),
{
    if a.len() != b.len() {
        assert(texts(a@).len() != texts(b@).len());
        return false;
    }
    let mut i: usize = 0;
    while i < a.len()
        invariant
            a.len() == b.len(),
            i <= a.len(),
            forall|j: int| 0 <= j < i ==> a@[j]@ == b@[j]@,
        decreases a.len() - i,
    {
        if a[i] != b[i] {
            assert(texts(a@)[i as int] != texts(b@)[i as int]);
            return false;
        }
        i = i + 1;
    }
    assert(texts(a@) =~= texts(b@));
    true
}

/// A copy of a list of strings.
pub fn copy_texts(v: &Vec<String>) -> (r: Vec<String>)
    ensures
        r@ == v@,
{
    let mut out: Vec<String> = Vec::new();
    let mut i: usize = 0;
    while i < v.len()
        invariant
            i <= v.len(),
            out@ == v@.take(i as int),
        decreases v.len() - i,
    {
        out.push(v[i].clone());
        assert(out@ =~= v@.take(i + 1));
        i = i + 1;
    }
    assert(v@.take(v.len() as int) =~= v@);
    out
}

/// A copy of an optional string.
pub fn copy_opt_text(o: &Option<String>) -> (r: Option<String>)
    ensures
        r == *o,
{
    match o {
        Some(s) => Some(s.clone()),
        None => None,
    }
}

/// Whether two optional strings are equal: `Option<String> == Option<String>`.
pub fn same_opt_text(a: &Option<String>, b: &Option<String>) -> (r: bool)
    ensures
        r == (opt_text(*a) == opt_text(*b)),
{
    match (a, b) {
        (Some(x), Some(y)) => *x == *y,
        (None, None) => true,
        _ => false,
    }
}

/// A match video.
#[derive(Clone, Debug, PartialEq)]
pub struct Video {
    pub key: String,
    pub type_field: String,
}

impl Video {
    pub open spec fn same(self, other: Self) -> bool {
        self.key@ == other.key@ && self.type_field@ == other.type_field@
    }

    /// A copy of this video.
    pub fn duplicate(&self) -> (r: Self)
        ensures
            r == *self,
    {
        Video { key: self.key.clone(), type_field: self.type_field.clone() }
    }
}

/// The blue alliance of a match.
#[derive(Clone, Debug, PartialEq)]
pub struct Blue {
    /// JSON text of each disqualified team entry.
    pub dq_team_keys: Vec<String>,
    pub score: i16,
    /// JSON text of each surrogate team entry.
    pub surrogate_team_keys: Vec<String>,
    pub team_keys: Vec<String>,
}

/// The red alliance of a match.
#[derive(Clone, Debug, PartialEq)]
pub struct Red {
    /// JSON text of each disqualified team entry.
    pub dq_team_keys: Vec<String>,
    pub score: i16,
    /// JSON text of each surrogate team entry.
    pub surrogate_team_keys: Vec<String>,
    pub team_keys: Vec<String>,
}

impl Blue {
    /// A copy of this alliance.
    pub fn duplicate(&self) -> (r: Self)
        ensures
            r.same(*self),
            r.team_keys@ == self.team_keys@,
            r.score == self.score,
    {
        Blue {
            dq_team_keys: copy_texts(&self.dq_team_keys),
            score: self.score,
            surrogate_team_keys: copy_texts(&self.surrogate_team_keys),
            team_keys: copy_texts(&self.team_keys),
        }
    }

    pub open spec fn same(self, other: Self) -> bool {
        &&& texts(self.dq_team_keys@) == texts(other.dq_team_keys@)
        &&& self.score == other.score
        &&& texts(self.surrogate_team_keys@) == texts(other.surrogate_team_keys@)
        &&& texts(self.team_keys@) == texts(other.team_keys@)
    }

    pub fn same_as(&self, other: &Self) -> (r: bool)
        ensures
            r == self.same(*other),
    {
        same_texts(&self.dq_team_keys, &other.dq_team_keys) && self.score == other.score
            && same_texts(&self.surrogate_team_keys, &other.surrogate_team_keys)
            && same_texts(&self.team_keys, &other.team_keys)
    }
}

impl Red {
    /// A copy of this alliance.
    pub fn duplicate(&self) -> (r: Self)
        ensures
            r.same(*self),
            r.team_keys@ == self.team_keys@,
            r.score == self.score,
    {
        Red {
            dq_team_keys: copy_texts(&self.dq_team_keys),
            score: self.score,
            surrogate_team_keys: copy_texts(&self.surrogate_team_keys),
            team_keys: copy_texts(&self.team_keys),
        }
    }

    pub open spec fn same(self, other: Self) -> bool {
        &&& texts(self.dq_team_keys@) == texts(other.dq_team_keys@)
        &&& self.score == other.score
        &&& texts(self.surrogate_team_keys@) == texts(other.surrogate_team_keys@)
        &&& texts(self.team_keys@) == texts(other.team_keys@)
    }

    pub fn same_as(&self, other: &Self) -> (r: bool)
        ensures
            r == self.same(*other),
    {
        same_texts(&self.dq_team_keys, &other.dq_team_keys) && self.score == other.score
            && same_texts(&self.surrogate_team_keys, &other.surrogate_team_keys)
            && same_texts(&self.team_keys, &other.team_keys)
    }
}

/// Both alliances of a match.
#[derive(Clone, Debug, PartialEq)]
pub struct Alliances {
    pub blue: Blue,
    pub red: Red,
}

/// The blue alliance's score breakdown.
#[derive(Clone, Debug, PartialEq)]
pub struct Blue2 {
    pub rp: i16,
    pub auto_points: i16,
    pub foul_count: i16,
    pub telop_mobility_points: i16,
    pub telop_game_piece_points: i16,
    pub telop_game_piece_count: i16,
    pub auto_mobility_points: i16,
    pub auto_game_piece_points: i16,
    pub auto_game_piece_count: i16,
    pub foul_points: i16,
    pub sustainability_bonus_achieved: Option<bool>,
    pub end_game_bridge_state: Option<String>,
    pub auto_bridge_state: Option<String>,
}

/// The red alliance's score breakdown.
#[derive(Clone, Debug, PartialEq)]
pub struct Red2 {
    pub rp: i16,
    pub auto_points: i16,
    pub foul_count: i16,
    pub foul_points: i16,
    pub telop_mobility_points: i16,
    pub telop_game_piece_points: i16,
    pub telop_game_piece_count: i16,
    pub auto_game_piece_points: i16,
    pub auto_game_piece_count: i16,
    pub sustainability_bonus_achieved: Option<bool>,
    pub end_game_bridge_state: Option<String>,
    pub auto_bridge_state: Option<String>,
}

impl Blue2 {
    /// A copy of this breakdown.
    pub fn duplicate(&self) -> (r: Self)
        ensures
            r == *self,
    {
        Blue2 {
            rp: self.rp,
            auto_points: self.auto_points,
            foul_count: self.foul_count,
            telop_mobility_points: self.telop_mobility_points,
            telop_game_piece_points: self.telop_game_piece_points,
            telop_game_piece_count: self.telop_game_piece_count,
            auto_mobility_points: self.auto_mobility_points,
            auto_game_piece_points: self.auto_game_piece_points,
            auto_game_piece_count: self.auto_game_piece_count,
            foul_points: self.foul_points,
            sustainability_bonus_achieved: self.sustainability_bonus_achieved,
            end_game_bridge_state: copy_opt_text(&self.end_game_bridge_state),
            auto_bridge_state: copy_opt_text(&self.auto_bridge_state),
        }
    }

    pub open spec fn same(self, o: Self) -> bool {
        &&& self.rp == o.rp
        &&& self.auto_points == o.auto_points
        &&& self.foul_count == o.foul_count
        &&& self.telop_mobility_points == o.telop_mobility_points
        &&& self.telop_game_piece_points == o.telop_game_piece_points
        &&& self.telop_game_piece_count == o.telop_game_piece_count
        &&& self.auto_mobility_points == o.auto_mobility_points
        &&& self.auto_game_piece_points == o.auto_game_piece_points
        &&& self.auto_game_piece_count == o.auto_game_piece_count
        &&& self.foul_points == o.foul_points
        &&& self.sustainability_bonus_achieved == o.sustainability_bonus_achieved
        &&& opt_text(self.end_game_bridge_state) == opt_text(o.end_game_bridge_state)
        &&& opt_text(self.auto_bridge_state) == opt_text(o.auto_bridge_state)
    }

    pub fn same_as(&self, o: &Self) -> (r: bool)
        ensures
            r == self.same(*o),
    {
        self.rp == o.rp && self.auto_points == o.auto_points && self.foul_count == o.foul_count
            && self.telop_mobility_points == o.telop_mobility_points
            && self.telop_game_piece_points == o.telop_game_piece_points
            && self.telop_game_piece_count == o.telop_game_piece_count
            && self.auto_mobility_points == o.auto_mobility_points
            && self.auto_game_piece_points == o.auto_game_piece_points
            && self.auto_game_piece_count == o.auto_game_piece_count
            && self.foul_points == o.foul_points
            && same_opt_bool(&self.sustainability_bonus_achieved, &o.sustainability_bonus_achieved)
            && same_opt_text(&self.end_game_bridge_state, &o.end_game_bridge_state)
            && same_opt_text(&self.auto_bridge_state, &o.auto_bridge_state)
    }
}

impl Red2 {
    /// A copy of this breakdown.
    pub fn duplicate(&self) -> (r: Self)
        ensures
            r == *self,
    {
        Red2 {
            rp: self.rp,
            auto_points: self.auto_points,
            foul_count: self.foul_count,
            foul_points: self.foul_points,
            telop_mobility_points: self.telop_mobility_points,
            telop_game_piece_points: self.telop_game_piece_points,
            telop_game_piece_count: self.telop_game_piece_count,
            auto_game_piece_points: self.auto_game_piece_points,
            auto_game_piece_count: self.auto_game_piece_count,
            sustainability_bonus_achieved: self.sustainability_bonus_achieved,
            end_game_bridge_state: copy_opt_text(&self.end_game_bridge_state),
            auto_bridge_state: copy_opt_text(&self.auto_bridge_state),
        }
    }

    pub open spec fn same(self, o: Self) -> bool {
        &&& self.rp == o.rp
        &&& self.auto_points == o.auto_points
        &&& self.foul_count == o.foul_count
        &&& self.foul_points == o.foul_points
        &&& self.telop_mobility_points == o.telop_mobility_points
        &&& self.telop_game_piece_points == o.telop_game_piece_points
        &&& self.telop_game_piece_count == o.telop_game_piece_count
        &&& self.auto_game_piece_points == o.auto_game_piece_points
        &&& self.auto_game_piece_count == o.auto_game_piece_count
        &&& self.sustainability_bonus_achieved == o.sustainability_bonus_achieved
        &&& opt_text(self.end_game_bridge_state) == opt_text(o.end_game_bridge_state)
        &&& opt_text(self.auto_bridge_state) == opt_text(o.auto_bridge_state)
    }

    pub fn same_as(&self, o: &Self) -> (r: bool)
        ensures
            r == self.same(*o),
    {
        self.rp == o.rp && self.auto_points == o.auto_points && self.foul_count == o.foul_count
            && self.foul_points == o.foul_points
            && self.telop_mobility_points == o.telop_mobility_points
            && self.telop_game_piece_points == o.telop_game_piece_points
            && self.telop_game_piece_count == o.telop_game_piece_count
            && self.auto_game_piece_points == o.auto_game_piece_points
            && self.auto_game_piece_count == o.auto_game_piece_count
            && same_opt_bool(&self.sustainability_bonus_achieved, &o.sustainability_bonus_achieved)
            && same_opt_text(&self.end_game_bridge_state, &o.end_game_bridge_state)
            && same_opt_text(&self.auto_bridge_state, &o.auto_bridge_state)
    }
}

fn same_opt_bool(a: &Option<bool>, b: &Option<bool>) -> (r: bool)
    ensures
        r == (*a == *b),
{
    match (a, b) {
        (Some(x), Some(y)) => *x == *y,
        (None, None) => true,
        _ => false,
    }
}

/// The score breakdown of both alliances.
#[derive(Clone, Debug, PartialEq)]
pub struct ScoreBreakdown {
    pub blue: Blue2,
    pub red: Red2,
}

impl ScoreBreakdown {
    /// A copy of this breakdown.
    pub fn duplicate(&self) -> (r: Self)
        ensures
            r == *self,
    {
        ScoreBreakdown { blue: self.blue.duplicate(), red: self.red.duplicate() }
    }

    pub open spec fn same(self, o: Self) -> bool {
        self.blue.same(o.blue) && self.red.same(o.red)
    }
}

/// Whether two optional breakdowns hold the same values.
pub open spec fn same_breakdown(a: Option<ScoreBreakdown>, b: Option<ScoreBreakdown>) -> bool {
    match (a, b) {
        (Some(x), Some(y)) => x.same(y),
        (None, None) => true,
        _ => false,
    }
}

/// Whether two lists of videos hold the same values.
pub open spec fn same_videos(a: Seq<Video>, b: Seq<Video>) -> bool {
    a.len() == b.len() && forall|i: int| 0 <= i < a.len() ==> (#[trigger] a[i]).same(b[i])
}

/// One match.
#[derive(Clone, Debug, PartialEq)]
pub struct Root2 {
    pub alliances: Alliances,
    pub comp_level: String,
    pub event_key: String,
    pub key: String,
    pub match_number: u8,
    pub score_breakdown: Option<ScoreBreakdown>,
    pub videos: Vec<Video>,
    pub winning_alliance: String,
}

/// A copy of an optional breakdown.
pub fn copy_breakdown(b: &Option<ScoreBreakdown>) -> (r: Option<ScoreBreakdown>)
    ensures
        r == *b,
{
    match b {
        Some(x) => Some(x.duplicate()),
        None => None,
    }
}

impl Root2 {
    /// A copy of this match.
    pub fn duplicate(&self) -> (r: Self)
        ensures
            r.same(*self),
    {
        let mut videos: Vec<Video> = Vec::new();
        let mut i: usize = 0;
        while i < self.videos.len()
            invariant
                i <= self.videos.len(),
                videos@ == self.videos@.take(i as int),
            decreases self.videos.len() - i,
        {
            videos.push(self.videos[i].duplicate());
            assert(videos@ =~= self.videos@.take(i + 1));
            i = i + 1;
        }
        assert(self.videos@.take(self.videos.len() as int) =~= self.videos@);
        Root2 {
            alliances: Alliances {
                blue: self.alliances.blue.duplicate(),
                red: self.alliances.red.duplicate(),
            },
            comp_level: self.comp_level.clone(),
            event_key: self.event_key.clone(),
            key: self.key.clone(),
            match_number: self.match_number,
            score_breakdown: copy_breakdown(&self.score_breakdown),
            videos,
            winning_alliance: self.winning_alliance.clone(),
        }
    }

    /// Field-by-field equality of two matches: what `==` compares.
    pub open spec fn same(self, o: Self) -> bool {
        &&& self.alliances.blue.same(o.alliances.blue)
        &&& self.alliances.red.same(o.alliances.red)
        &&& self.comp_level@ == o.comp_level@
        &&& self.event_key@ == o.event_key@
        &&& self.key@ == o.key@
        &&& self.match_number == o.match_number
        &&& same_breakdown(self.score_breakdown, o.score_breakdown)
        &&& same_videos(self.videos@, o.videos@)
        &&& self.winning_alliance@ == o.winning_alliance@
    }

    /// `Root2 == Root2`.
    pub fn same_as(&self, o: &Self) -> (r: bool)
        ensures
            r == self.same(*o),
    {
        if !self.alliances.blue.same_as(&o.alliances.blue) || !self.alliances.red.same_as(
            &o.alliances.red,
        ) {
            return false;
        }
        if self.comp_level != o.comp_level || self.event_key != o.event_key || self.key != o.key
            || self.match_number != o.match_number || self.winning_alliance
            != o.winning_alliance {
            return false;
        }
        let sb = match (&self.score_breakdown, &o.score_breakdown) {
            (Some(x), Some(y)) => x.blue.same_as(&y.blue) && x.red.same_as(&y.red),
            (None, None) => true,
            _ => false,
        };
        if !sb {
            return false;
        }
        if self.videos.len() != o.videos.len() {
            return false;
        }
        let mut i: usize = 0;
        while i < self.videos.len()
            invariant
                self.videos.len() == o.videos.len(),
                i <= self.videos.len(),
                forall|j: int| 0 <= j < i ==> (#[trigger] self.videos@[j]).same(o.videos@[j]),
            decreases self.videos.len() - i,
        {
            if self.videos[i].key != o.videos[i].key || self.videos[i].type_field
                != o.videos[i].type_field {
                return false;
            }
            i = i + 1;
        }
        true
    }
}

/// A copy of a list of matches.
pub fn copy_matches(v: &Vec<Root2>) -> (r: Vec<Root2>)
    ensures
        same_matches(r@, v@),
{
    let mut out: Vec<Root2> = Vec::new();
    let mut i: usize = 0;
    while i < v.len()
        invariant
            i <= v.len(),
            out.len() == i,
            forall|j: int| 0 <= j < i ==> (#[trigger] out@[j]).same(v@[j]),
        decreases v.len() - i,
    {
        out.push(v[i].duplicate());
        i = i + 1;
    }
    out
}

/// Whether two match lists hold the same matches in the same order.
pub open spec fn same_matches(a: Seq<Root2>, b: Seq<Root2>) -> bool {
    a.len() == b.len() && forall|i: int| 0 <= i < a.len() ==> (#[trigger] a[i]).same(b[i])
}

/// Two match lists are the same only when they are as long and, match by
/// match, every field agrees: the teams and score of each alliance, the
/// level, event, key, number and winner, whether a breakdown is there, and
/// the videos, as many and each with the same key and type.
pub proof fn same_matches_agree_on_every_field(a: Seq<Root2>, b: Seq<Root2>)
    requires
        same_matches(a, b),
    ensures
        a.len() == b.len(),
        forall|i: int|
            0 <= i < a.len() ==> {
                &&& texts((#[trigger] a[i]).alliances.red.team_keys@) == texts(b[i].alliances.red.team_keys@)
                &&& texts(a[i].alliances.blue.team_keys@) == texts(b[i].alliances.blue.team_keys@)
                &&& a[i].alliances.red.score == b[i].alliances.red.score
                &&& a[i].alliances.blue.score == b[i].alliances.blue.score
                &&& a[i].comp_level@ == b[i].comp_level@
                &&& a[i].event_key@ == b[i].event_key@
                &&& a[i].key@ == b[i].key@
                &&& a[i].match_number == b[i].match_number
                &&& a[i].winning_alliance@ == b[i].winning_alliance@
                &&& (a[i].score_breakdown is Some <==> b[i].score_breakdown is Some)
                &&& a[i].videos@.len() == b[i].videos@.len()
            },
        forall|i: int, k: int|
            0 <= i < a.len() && 0 <= k < a[i].videos@.len() ==> {
                &&& (#[trigger] a[i].videos@[k]).key@ == b[i].videos@[k].key@
                &&& a[i].videos@[k].type_field@ == b[i].videos@[k].type_field@
            },
{
    assert forall|i: int, k: int| 0 <= i < a.len() && 0 <= k < a[i].videos@.len() implies {
        &&& (#[trigger] a[i].videos@[k]).key@ == b[i].videos@[k].key@
        &&& a[i].videos@[k].type_field@ == b[i].videos@[k].type_field@
    } by {
        assert(a[i].same(b[i]));
        assert(a[i].videos@[k].same(b[i].videos@[k]));
    }
}

/// `Vec<Root2> == Vec<Root2>`.
pub fn same_match_lists(a: &Vec<Root2>, b: &Vec<Root2>) -> (r: bool)
    ensures
        r == same_matches(a@, b@),
{
    if a.len() != b.len() {
        return false;
    }
    let mut i: usize = 0;
    while i < a.len()
        invariant
            a.len() == b.len(),
            i <= a.len(),
            forall|j: int| 0 <= j < i ==> (#[trigger] a@[j]).same(b@[j]),
        decreases a.len() - i,
    {
        if !a[i].same_as(&b[i]) {
            return false;
        }
        i = i + 1;
    }
    true
}

} // verus!
