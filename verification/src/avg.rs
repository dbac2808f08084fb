//! A team's season statistics: its score in every match it played, its
//! wins and losses, and the highest, lowest and list of each breakdown
//! measure.  Averages and spreads of these lists are taken by the caller.

use vstd::prelude::*;
use crate::parse::{copy_breakdown, texts, Root2};
use crate::shared::{
    breakdown_spec, check_win, compare_highest, compare_lowest, get_breakdown_data, keys_of,
    score_of, won, BreakDown, Team,
};

verus! {

/// A measure that a match breakdown may hold.
#[derive(Clone, Debug, PartialEq)]
pub struct OData {
    pub lowest: Option<i16>,
    pub highest: Option<i16>,
    pub graph: Vec<i16>,
}

/// A measure that every match holds: the score.
#[derive(Clone, Debug, PartialEq)]
pub struct Data {
    pub lowest: i16,
    pub highest: i16,
    pub graph: Vec<i16>,
}

/// A team's statistics over a list of matches.
#[derive(Clone, Debug, PartialEq)]
pub struct YearAround {
    pub data: Option<Vec<Root2>>,
    pub points: Data,
    pub wins: i16,
    pub losses: i16,
    pub matches_played: i16,
    pub pen: OData,
    pub rp: OData,
    pub auto: OData,
    pub auto_game_pieces: OData,
    pub telop_game_pieces: OData,
    pub auto_game_points: OData,
    pub telop_game_points: OData,
}

/// `std::fmt::Error`, the error of a calculation whose match list was
/// already used up.
#[verifier::external_type_specification]
#[verifier::external_body]
pub struct ExFmtError(std::fmt::Error);

/// `std::fmt::Error::default()`: the (field-less) error value.
#[verifier::external_body]
fn fmt_error() -> std::fmt::Error {
    std::fmt::Error::default()
}

/// The larger of `init` and every value in `s`.
pub open spec fn fold_max(init: int, s: Seq<i16>) -> int
    decreases s.len(),
{
    if s.len() == 0 {
        init
    } else {
        let m = fold_max(init, s.drop_last());
        if m > s.last() { m } else { s.last() as int }
    }
}

/// The smaller of `init` and every value in `s`.
pub open spec fn fold_min(init: int, s: Seq<i16>) -> int
    decreases s.len(),
{
    if s.len() == 0 {
        init
    } else {
        let m = fold_min(init, s.drop_last());
        if m < s.last() { m } else { s.last() as int }
    }
}

/// The alliance on which the team with key `key` played match `m` and
/// whose score counts (a score of -1 marks a match not yet played).
pub open spec fn side(m: Root2, key: Seq<char>) -> Option<Team> {
    if texts(m.alliances.red.team_keys@).contains(key) && m.alliances.red.score != -1 {
        Some(Team::Red)
    } else if texts(m.alliances.blue.team_keys@).contains(key) && m.alliances.blue.score != -1 {
        Some(Team::Blue)
    } else {
        None
    }
}

/// The matches of `data` that count for the team with key `key`, in order,
/// each with the alliance the team played on.
pub open spec fn played(data: Seq<Root2>, key: Seq<char>) -> Seq<(Root2, Team)>
    decreases data.len(),
{
    if data.len() == 0 {
        Seq::empty()
    } else {
        let prev = played(data.drop_last(), key);
        match side(data.last(), key) {
            Some(t) => prev.push((data.last(), t)),
            None => prev,
        }
    }
}

/// The number of played matches that the team's alliance won.
pub open spec fn wins_in(p: Seq<(Root2, Team)>) -> int
    decreases p.len(),
{
    if p.len() == 0 {
        0
    } else {
        wins_in(p.drop_last()) + if won(p.last().1, p.last().0.winning_alliance@) { 1int } else { 0 }
    }
}

/// The number of played matches that the team's alliance did not win.
pub open spec fn losses_in(p: Seq<(Root2, Team)>) -> int
    decreases p.len(),
{
    if p.len() == 0 {
        0
    } else {
        losses_in(p.drop_last()) + if won(p.last().1, p.last().0.winning_alliance@) { 0int } else { 1 }
    }
}

/// The team's alliance score in each played match.
pub open spec fn scores_in(p: Seq<(Root2, Team)>) -> Seq<i16> {
    p.map_values(|e: (Root2, Team)| score_of(e.1, e.0))
}

/// The breakdown of the team's alliance in a played match.
pub open spec fn entry_breakdown(e: (Root2, Team)) -> BreakDown {
    breakdown_spec(e.0.score_breakdown, e.1)
}

/// The values of measure `f` over the played matches that have a breakdown.
pub open spec fn measure_in(p: Seq<(Root2, Team)>, f: spec_fn(BreakDown) -> Option<i16>) -> Seq<i16>
    decreases p.len(),
{
    if p.len() == 0 {
        Seq::empty()
    } else {
        let prev = measure_in(p.drop_last(), f);
        let b = entry_breakdown(p.last());
        if b.auto_points is Some && f(b) is Some {
            prev.push(f(b)->0)
        } else {
            prev
        }
    }
}

pub open spec fn rp_measure() -> spec_fn(BreakDown) -> Option<i16> {
    |b: BreakDown| b.rp
}

pub open spec fn auto_measure() -> spec_fn(BreakDown) -> Option<i16> {
    |b: BreakDown| b.auto_points
}

pub open spec fn foul_measure() -> spec_fn(BreakDown) -> Option<i16> {
    |b: BreakDown| b.foul_points
}

pub open spec fn telop_points_measure() -> spec_fn(BreakDown) -> Option<i16> {
    |b: BreakDown| b.telop_game_piece_points
}

pub open spec fn telop_count_measure() -> spec_fn(BreakDown) -> Option<i16> {
    |b: BreakDown| b.telop_game_piece_count
}

/// `after` is `before` with the values `vals` recorded: appended to the
/// list, with the highest (counted from 0 when none is known) and the
/// lowest (counted from 1000 when none is known) brought up to date.
pub open spec fn recorded(before: OData, vals: Seq<i16>, after: OData) -> bool {
    &&& after.graph@ == before.graph@ + vals
    &&& after.highest == if vals.len() == 0 {
        before.highest
    } else {
        Some(fold_max(before.highest.unwrap_or(0) as int, vals) as i16)
    }
    &&& after.lowest == if vals.len() == 0 {
        before.lowest
    } else {
        Some(fold_min(before.lowest.unwrap_or(1000) as int, vals) as i16)
    }
}

/// `after` is `before` with the scores `vals` recorded.
pub open spec fn scored(before: Data, vals: Seq<i16>, after: Data) -> bool {
    &&& after.graph@ == before.graph@ + vals
    &&& after.highest == fold_max(before.highest as int, vals)
    &&& after.lowest == fold_min(before.lowest as int, vals)
}

/// The values of measure `f` in one breakdown: none when the match has no
/// breakdown.
pub open spec fn measure_of(b: BreakDown, f: spec_fn(BreakDown) -> Option<i16>) -> Seq<i16> {
    if b.auto_points is Some && f(b) is Some {
        seq![f(b)->0]
    } else {
        Seq::empty()
    }
}

/// `after` is `before` with the matches `p` counted, all but the number of
/// matches played.
pub open spec fn counted(before: YearAround, p: Seq<(Root2, Team)>, after: YearAround) -> bool {
    &&& after.wins == before.wins + wins_in(p)
    &&& after.losses == before.losses + losses_in(p)
    &&& scored(before.points, scores_in(p), after.points)
    &&& recorded(before.rp, measure_in(p, rp_measure()), after.rp)
    &&& recorded(before.auto, measure_in(p, auto_measure()), after.auto)
    &&& recorded(before.pen, measure_in(p, foul_measure()), after.pen)
    &&& recorded(before.auto_game_points, measure_in(p, rp_measure()), after.auto_game_points)
    &&& recorded(before.auto_game_pieces, measure_in(p, rp_measure()), after.auto_game_pieces)
    &&& recorded(
        before.telop_game_points,
        measure_in(p, telop_points_measure()),
        after.telop_game_points,
    )
    &&& recorded(
        before.telop_game_pieces,
        measure_in(p, telop_count_measure()),
        after.telop_game_pieces,
    )
}

/// The record that `YearAround::calculate` makes for the played matches
/// `p`, starting from `before`: every match counted, the match list used up
/// and the matches played set to the wins plus the losses.
pub open spec fn year_after(before: YearAround, p: Seq<(Root2, Team)>, after: YearAround) -> bool {
    &&& counted(before, p, after)
    &&& after.data is None
    &&& after.matches_played == after.wins + after.losses
}

/// The tally after `p` stays within the range of an `i16`.
pub open spec fn tally_fits(before: YearAround, p: Seq<(Root2, Team)>) -> bool {
    &&& before.wins + wins_in(p) <= i16::MAX
    &&& before.losses + losses_in(p) <= i16::MAX
    &&& i16::MIN <= before.wins + wins_in(p) + before.losses + losses_in(p) <= i16::MAX
}

/// The key of a team given by its number as text: `format!("frc{team}")`.
pub open spec fn key_of(team: Seq<char>) -> Seq<char> {
    seq!['f', 'r', 'c'] + team
}

/// The statistics as they stand before any match: the points start from a
/// lowest of 10000 and a highest of 0, the rest from nothing.
pub open spec fn fresh(y: YearAround) -> bool {
    &&& y.points.graph@.len() == 0
    &&& y.points.lowest == 10000
    &&& y.points.highest == 0
    &&& y.wins == 0
    &&& y.losses == 0
    &&& y.matches_played == 0
    &&& empty_stat(y.pen)
    &&& empty_stat(y.rp)
    &&& empty_stat(y.auto)
    &&& empty_stat(y.auto_game_pieces)
    &&& empty_stat(y.telop_game_pieces)
    &&& empty_stat(y.auto_game_points)
    &&& empty_stat(y.telop_game_points)
}

pub open spec fn empty_stat(o: OData) -> bool {
    o.graph@.len() == 0 && o.lowest is None && o.highest is None
}

impl OData {
    /// A measure with no values yet.
    pub fn new() -> (r: Self)
        ensures
            empty_stat(r),
    {
        OData { graph: Vec::new(), lowest: None, highest: None }
    }

    /// Records one more value, if there is one.
    pub fn low_and_high_and_add(&mut self, compare: Option<i16>)
        ensures
            recorded(
                *old(self),
                match compare {
                    Some(x) => seq![x],
                    None => Seq::empty(),
                },
                *final(self),
            ),
    {
        let compare = match compare {
            Some(c) => c,
            None => {
                assert(old(self).graph@ + Seq::<i16>::empty() =~= old(self).graph@);
                return;
            },
        };
        self.highest(compare);
        self.lowest(compare);
        self.add(compare);
        proof {
            let v = seq![compare];
            assert(v.drop_last() =~= Seq::<i16>::empty());
            let h0 = old(self).highest.unwrap_or(0) as int;
            let l0 = old(self).lowest.unwrap_or(1000) as int;
            assert(fold_max(h0, v.drop_last()) == h0);
            assert(fold_min(l0, v.drop_last()) == l0);
            assert(self.graph@ =~= old(self).graph@ + v);
        }
    }

    fn highest(&mut self, compare: i16)
        ensures
            final(self).highest == Some(
                if old(self).highest.unwrap_or(0) > compare {
                    old(self).highest.unwrap_or(0)
                } else {
                    compare
                },
            ),
            final(self).lowest == old(self).lowest,
            final(self).graph@ == old(self).graph@,
    {
        let h = match self.highest {
            Some(h) => h,
            None => 0,
        };
        self.highest = Some(compare_highest(h, compare));
    }

    fn lowest(&mut self, compare: i16)
        ensures
            final(self).lowest == Some(
                if old(self).lowest.unwrap_or(1000) < compare {
                    old(self).lowest.unwrap_or(1000)
                } else {
                    compare
                },
            ),
            final(self).highest == old(self).highest,
            final(self).graph@ == old(self).graph@,
    {
        let l = match self.lowest {
            Some(l) => l,
            None => 1000,
        };
        self.lowest = Some(compare_lowest(l, compare));
    }

    fn add(&mut self, what: i16)
        ensures
            final(self).graph@ == old(self).graph@.push(what),
            final(self).lowest == old(self).lowest,
            final(self).highest == old(self).highest,
    {
        self.graph.push(what);
    }
}

pub proof fn lemma_fold_max_append(init: int, a: Seq<i16>, b: Seq<i16>)
    ensures
        fold_max(init, a + b) == fold_max(fold_max(init, a), b),
    decreases b.len(),
{
    if b.len() == 0 {
        assert(a + b =~= a);
    } else {
        lemma_fold_max_append(init, a, b.drop_last());
        assert((a + b).drop_last() =~= a + b.drop_last());
    }
}

pub proof fn lemma_fold_min_append(init: int, a: Seq<i16>, b: Seq<i16>)
    ensures
        fold_min(init, a + b) == fold_min(fold_min(init, a), b),
    decreases b.len(),
{
    if b.len() == 0 {
        assert(a + b =~= a);
    } else {
        lemma_fold_min_append(init, a, b.drop_last());
        assert((a + b).drop_last() =~= a + b.drop_last());
    }
}

pub proof fn lemma_fold_range(init: int, s: Seq<i16>)
    requires
        i16::MIN <= init <= i16::MAX,
    ensures
        i16::MIN <= fold_max(init, s) <= i16::MAX,
        i16::MIN <= fold_min(init, s) <= i16::MAX,
    decreases s.len(),
{
    if s.len() > 0 {
        lemma_fold_range(init, s.drop_last());
    }
}

proof fn lemma_recorded_append(a: OData, v1: Seq<i16>, b: OData, v2: Seq<i16>, c: OData)
    requires
        recorded(a, v1, b),
        recorded(b, v2, c),
    ensures
        recorded(a, v1 + v2, c),
{
    assert(c.graph@ =~= a.graph@ + (v1 + v2));
    let h0 = a.highest.unwrap_or(0) as int;
    let l0 = a.lowest.unwrap_or(1000) as int;
    lemma_fold_max_append(h0, v1, v2);
    lemma_fold_min_append(l0, v1, v2);
    lemma_fold_range(h0, v1);
    lemma_fold_range(l0, v1);
    if v1.len() == 0 {
        assert(v1 + v2 =~= v2);
    }
    if v2.len() == 0 {
        assert(v1 + v2 =~= v1);
    }
}

proof fn lemma_scored_append(a: Data, v1: Seq<i16>, b: Data, v2: Seq<i16>, c: Data)
    requires
        scored(a, v1, b),
        scored(b, v2, c),
    ensures
        scored(a, v1 + v2, c),
{
    assert(c.graph@ =~= a.graph@ + (v1 + v2));
    lemma_fold_max_append(a.highest as int, v1, v2);
    lemma_fold_min_append(a.lowest as int, v1, v2);
}

/// Whether `keys` holds `key`: `Vec<String>::contains`.
pub fn has_key(keys: &Vec<String>, key: &String) -> (r: bool)
    ensures
        r == texts(keys@).contains(key@),
{
    let mut i: usize = 0;
    while i < keys.len()
        invariant
            i <= keys.len(),
            forall|j: int| 0 <= j < i ==> keys@[j]@ != key@,
        decreases keys.len() - i,
    {
        if keys[i] == *key {
            assert(texts(keys@)[i as int] == key@);
            return true;
        }
        i = i + 1;
    }
    assert forall|j: int| 0 <= j < texts(keys@).len() implies texts(keys@)[j] != key@ by {}
    false
}

impl Data {
    /// The score measure before any match: lowest 10000, highest 0.
    pub fn new() -> (r: Self)
        ensures
            r.graph@.len() == 0,
            r.lowest == 10000,
            r.highest == 0,
    {
        Data { graph: Vec::new(), lowest: 10000, highest: 0 }
    }
}

proof fn lemma_played_step(data: Seq<Root2>, key: Seq<char>, i: int)
    requires
        0 <= i < data.len(),
    ensures
        played(data.take(i + 1), key) == match side(data[i], key) {
            Some(t) => played(data.take(i), key).push((data[i], t)),
            None => played(data.take(i), key),
        },
{
    assert(data.take(i + 1).drop_last() =~= data.take(i));
    assert(data.take(i + 1).last() == data[i]);
}

proof fn lemma_measure_push(p: Seq<(Root2, Team)>, e: (Root2, Team), f: spec_fn(BreakDown) -> Option<i16>)
    ensures
        measure_in(p.push(e), f) == measure_in(p, f) + measure_of(entry_breakdown(e), f),
{
    assert(p.push(e).drop_last() =~= p);
    let b = entry_breakdown(e);
    if b.auto_points is Some && f(b) is Some {
        assert(measure_in(p, f).push(f(b)->0) =~= measure_in(p, f) + seq![f(b)->0]);
    } else {
        assert(measure_in(p, f) =~= measure_in(p, f) + Seq::<i16>::empty());
    }
}

proof fn lemma_counted_step(
    start: YearAround,
    p: Seq<(Root2, Team)>,
    e: (Root2, Team),
    mid: YearAround,
    next: YearAround,
)
    requires
        counted(start, p, mid),
        next.wins == mid.wins + if won(e.1, e.0.winning_alliance@) { 1int } else { 0 },
        next.losses == mid.losses + if won(e.1, e.0.winning_alliance@) { 0int } else { 1 },
        scored(mid.points, seq![score_of(e.1, e.0)], next.points),
        recorded(mid.rp, measure_of(entry_breakdown(e), rp_measure()), next.rp),
        recorded(mid.auto, measure_of(entry_breakdown(e), auto_measure()), next.auto),
        recorded(mid.pen, measure_of(entry_breakdown(e), foul_measure()), next.pen),
        recorded(
            mid.auto_game_points,
            measure_of(entry_breakdown(e), rp_measure()),
            next.auto_game_points,
        ),
        recorded(
            mid.auto_game_pieces,
            measure_of(entry_breakdown(e), rp_measure()),
            next.auto_game_pieces,
        ),
        recorded(
            mid.telop_game_points,
            measure_of(entry_breakdown(e), telop_points_measure()),
            next.telop_game_points,
        ),
        recorded(
            mid.telop_game_pieces,
            measure_of(entry_breakdown(e), telop_count_measure()),
            next.telop_game_pieces,
        ),
    ensures
        counted(start, p.push(e), next),
{
    let q = p.push(e);
    assert(q.drop_last() =~= p);
    assert(scores_in(q) =~= scores_in(p) + seq![score_of(e.1, e.0)]);
    lemma_scored_append(start.points, scores_in(p), mid.points, seq![score_of(e.1, e.0)], next.points);
    lemma_measure_push(p, e, rp_measure());
    lemma_measure_push(p, e, auto_measure());
    lemma_measure_push(p, e, foul_measure());
    lemma_measure_push(p, e, telop_points_measure());
    lemma_measure_push(p, e, telop_count_measure());
    let b = entry_breakdown(e);
    lemma_recorded_append(start.rp, measure_in(p, rp_measure()), mid.rp, measure_of(b, rp_measure()), next.rp);
    lemma_recorded_append(start.auto, measure_in(p, auto_measure()), mid.auto, measure_of(b, auto_measure()), next.auto);
    lemma_recorded_append(start.pen, measure_in(p, foul_measure()), mid.pen, measure_of(b, foul_measure()), next.pen);
    lemma_recorded_append(
        start.auto_game_points,
        measure_in(p, rp_measure()),
        mid.auto_game_points,
        measure_of(b, rp_measure()),
        next.auto_game_points,
    );
    lemma_recorded_append(
        start.auto_game_pieces,
        measure_in(p, rp_measure()),
        mid.auto_game_pieces,
        measure_of(b, rp_measure()),
        next.auto_game_pieces,
    );
    lemma_recorded_append(
        start.telop_game_points,
        measure_in(p, telop_points_measure()),
        mid.telop_game_points,
        measure_of(b, telop_points_measure()),
        next.telop_game_points,
    );
    lemma_recorded_append(
        start.telop_game_pieces,
        measure_in(p, telop_count_measure()),
        mid.telop_game_pieces,
        measure_of(b, telop_count_measure()),
        next.telop_game_pieces,
    );
}

proof fn lemma_counts_grow(data: Seq<Root2>, key: Seq<char>, i: int)
    requires
        0 <= i <= data.len(),
    ensures
        0 <= wins_in(played(data.take(i), key)) <= wins_in(played(data, key)),
        0 <= losses_in(played(data.take(i), key)) <= losses_in(played(data, key)),
    decreases data.len() - i,
{
    if i < data.len() {
        lemma_counts_grow(data, key, i + 1);
        lemma_played_step(data, key, i);
        let p = played(data.take(i), key);
        lemma_counts_nonneg(p);
        match side(data[i], key) {
            Some(t) => {
                assert(p.push((data[i], t)).drop_last() =~= p);
            },
            None => {},
        }
    } else {
        assert(data.take(i) =~= data);
        lemma_counts_nonneg(played(data, key));
    }
}

proof fn lemma_counts_nonneg(p: Seq<(Root2, Team)>)
    ensures
        wins_in(p) >= 0,
        losses_in(p) >= 0,
    decreases p.len(),
{
    if p.len() > 0 {
        lemma_counts_nonneg(p.drop_last());
    }
}

/// Every played match is either a win or a loss, and has one score.
pub proof fn games_split_into_wins_and_losses(p: Seq<(Root2, Team)>)
    ensures
        wins_in(p) + losses_in(p) == p.len(),
        scores_in(p).len() == p.len(),
    decreases p.len(),
{
    if p.len() > 0 {
        games_split_into_wins_and_losses(p.drop_last());
    }
}

/// The running lowest is at most, and the running highest at least, every
/// value that went into it.
pub proof fn bounds_cover_every_value(lo: int, hi: int, s: Seq<i16>)
    ensures
        fold_min(lo, s) <= lo,
        fold_max(hi, s) >= hi,
        forall|i: int| 0 <= i < s.len() ==> fold_min(lo, s) <= #[trigger] s[i] <= fold_max(hi, s),
    decreases s.len(),
{
    if s.len() > 0 {
        bounds_cover_every_value(lo, hi, s.drop_last());
        assert forall|i: int| 0 <= i < s.len() implies fold_min(lo, s) <= #[trigger] s[i] <= fold_max(
            hi,
            s,
        ) by {
            if i < s.len() - 1 {
                assert(s.drop_last()[i] == s[i]);
            }
        }
    }
}

/// A season counted from fresh statistics: the score list holds one score
/// per match played, in order, and every score lies between the lowest and
/// the highest.
pub proof fn fresh_season_is_consistent(before: YearAround, p: Seq<(Root2, Team)>, after: YearAround)
    requires
        fresh(before),
        year_after(before, p, after),
    ensures
        after.points.graph@ == scores_in(p),
        after.points.graph@.len() == after.matches_played,
        forall|i: int|
            0 <= i < after.points.graph@.len() ==> after.points.lowest <= #[trigger] after.points.graph@[i]
                <= after.points.highest,
{
    games_split_into_wins_and_losses(p);
    assert(after.points.graph@ =~= scores_in(p));
    bounds_cover_every_value(10000, 0, scores_in(p));
}

/// The number of matches of `data` that count for team `team` (its number
/// as text): what the tally of a fresh calculation adds up to.
pub fn count_played(data: &Vec<Root2>, team: &str) -> (r: usize)
    ensures
        r == played(data@, key_of(team@)).len(),
        r == data@.filter(
            |m: Root2|
                (texts(m.alliances.red.team_keys@).contains(key_of(team@)) && m.alliances.red.score
                    != -1) || (texts(m.alliances.blue.team_keys@).contains(key_of(team@))
                    && m.alliances.blue.score != -1),
        ).len(),
{
    let mut key = String::new();
    crate::text::push_char(&mut key, 'f');
    crate::text::push_char(&mut key, 'r');
    crate::text::push_char(&mut key, 'c');
    key.append(team);
    assert(key@ =~= key_of(team@));
    let mut n: usize = 0;
    let mut i: usize = 0;
    assert(data@.take(0) =~= Seq::<Root2>::empty());
    while i < data.len()
        invariant
            i <= data.len(),
            key@ == key_of(team@),
            n == played(data@.take(i as int), key@).len(),
            n <= i,
        decreases data.len() - i,
    {
        proof {
            lemma_played_step(data@, key@, i as int);
        }
        let m = &data[i];
        if has_key(&m.alliances.red.team_keys, &key) && m.alliances.red.score != -1 {
            n = n + 1;
        } else if has_key(&m.alliances.blue.team_keys, &key) && m.alliances.blue.score != -1 {
            n = n + 1;
        }
        i = i + 1;
    }
    assert(data@.take(data.len() as int) =~= data@);
    proof {
        only_played_matches_count(data@, key_of(team@));
    }
    n
}

/// From fresh statistics, the tally of a calculation fits exactly when at
/// most `i16::MAX` matches count.
pub proof fn fresh_tally_fits(before: YearAround, p: Seq<(Root2, Team)>)
    requires
        fresh(before),
    ensures
        tally_fits(before, p) <==> p.len() <= i16::MAX,
{
    games_split_into_wins_and_losses(p);
    lemma_counts_nonneg(p);
}

proof fn lemma_played_filter(data: Seq<Root2>, key: Seq<char>, pred: spec_fn(Root2) -> bool)
    requires
        forall|m: Root2| #[trigger] pred(m) == (side(m, key) is Some),
    ensures
        played(data, key).map_values(|e: (Root2, Team)| e.0) == data.filter(pred),
    decreases data.len(),
{
    reveal(Seq::filter);
    if data.len() > 0 {
        lemma_played_filter(data.drop_last(), key, pred);
        let prev = played(data.drop_last(), key);
        assert(pred(data.last()) == (side(data.last(), key) is Some));
        assert(data.filter(pred) == if pred(data.last()) {
            data.drop_last().filter(pred).push(data.last())
        } else {
            data.drop_last().filter(pred)
        });
        match side(data.last(), key) {
            Some(t) => {
                assert(prev.push((data.last(), t)).map_values(|e: (Root2, Team)| e.0) =~= prev.map_values(
                    |e: (Root2, Team)| e.0,
                ).push(data.last()));
            },
            None => {},
        }
    } else {
        assert(played(data, key).map_values(|e: (Root2, Team)| e.0) =~= data);
    }
}

proof fn lemma_played_scored(data: Seq<Root2>, key: Seq<char>)
    ensures
        forall|i: int|
            0 <= i < played(data, key).len() ==> {
                let (m, t) = #[trigger] played(data, key)[i];
                &&& score_of(t, m) != -1
                &&& texts(keys_of(t, m)).contains(key)
                &&& data.contains(m)
            },
    decreases data.len(),
{
    if data.len() > 0 {
        let rest = data.drop_last();
        lemma_played_scored(rest, key);
        let prev = played(rest, key);
        assert forall|i: int| 0 <= i < played(data, key).len() implies {
            let (m, t) = #[trigger] played(data, key)[i];
            &&& score_of(t, m) != -1
            &&& texts(keys_of(t, m)).contains(key)
            &&& data.contains(m)
        } by {
            if i < prev.len() {
                assert(played(data, key)[i] == prev[i]);
                let m = prev[i].0;
                let j = choose|j: int| 0 <= j < rest.len() && rest[j] == m;
                assert(data[j] == m);
            } else {
                assert(data[data.len() - 1] == data.last());
            }
        }
    }
}

/// A match counts for a team exactly when the team is on an alliance whose
/// score is known (a score of -1 marks a match not yet played), and it
/// counts on that alliance: the counted matches are those matches of the
/// list, in order, and each has a known score for the team's alliance.  A
/// match not yet played never counts, whichever alliance the team is on.
pub proof fn only_played_matches_count(data: Seq<Root2>, key: Seq<char>)
    ensures
        played(data, key).map_values(|e: (Root2, Team)| e.0) == data.filter(
            |m: Root2|
                (texts(m.alliances.red.team_keys@).contains(key) && m.alliances.red.score != -1) || (
                texts(m.alliances.blue.team_keys@).contains(key) && m.alliances.blue.score != -1),
        ),
        forall|i: int|
            0 <= i < played(data, key).len() ==> {
                let (m, t) = #[trigger] played(data, key)[i];
                &&& score_of(t, m) != -1
                &&& texts(keys_of(t, m)).contains(key)
                &&& data.contains(m)
            },
{
    let pred = |m: Root2|
        (texts(m.alliances.red.team_keys@).contains(key) && m.alliances.red.score != -1) || (
        texts(m.alliances.blue.team_keys@).contains(key) && m.alliances.blue.score != -1);
    lemma_played_filter(data, key, pred);
    lemma_played_scored(data, key);
}

/// A season counted from fresh statistics for team `team` (its number as
/// text) counts exactly the matches of the list in which the team's
/// alliance has a known score: the matches played are their number, split
/// into wins and losses, and no score in the list is the -1 of a match not
/// yet played.
pub proof fn season_counts_only_played_matches(
    before: YearAround,
    data: Seq<Root2>,
    team: Seq<char>,
    after: YearAround,
)
    requires
        fresh(before),
        year_after(before, played(data, key_of(team)), after),
    ensures
        after.matches_played == data.filter(
            |m: Root2|
                (texts(m.alliances.red.team_keys@).contains(key_of(team)) && m.alliances.red.score
                    != -1) || (texts(m.alliances.blue.team_keys@).contains(key_of(team))
                    && m.alliances.blue.score != -1),
        ).len(),
        after.wins + after.losses == after.matches_played,
        forall|i: int| 0 <= i < after.points.graph@.len() ==> #[trigger] after.points.graph@[i] != -1,
{
    let key = key_of(team);
    let p = played(data, key);
    only_played_matches_count(data, key);
    fresh_season_is_consistent(before, p, after);
    games_split_into_wins_and_losses(p);
    assert forall|i: int| 0 <= i < after.points.graph@.len() implies #[trigger] after.points.graph@[i]
        != -1 by {
        assert(after.points.graph@[i] == scores_in(p)[i]);
        let (m, t) = p[i];
        assert(scores_in(p)[i] == score_of(t, m));
    }
}

impl YearAround {
    /// Statistics over `data` before any match is counted.
    pub fn new(data: Vec<Root2>) -> (r: Self)
        ensures
            fresh(r),
            r.data == Some(data),
    {
        YearAround {
            data: Some(data),
            points: Data::new(),
            wins: 0,
            losses: 0,
            matches_played: 0,
            pen: OData::new(),
            rp: OData::new(),
            auto: OData::new(),
            auto_game_pieces: OData::new(),
            telop_game_pieces: OData::new(),
            auto_game_points: OData::new(),
            telop_game_points: OData::new(),
        }
    }

    /// Counts one played match with score `score` and breakdown `data`: the
    /// score always, the breakdown measures when the match has a breakdown.
    /// The auto game points and auto game pieces lists take the match's
    /// ranking points, as the service has always recorded them.
    fn handle(&mut self, score: i16, data: BreakDown)
        ensures
            final(self).wins == old(self).wins,
            final(self).losses == old(self).losses,
            final(self).data == old(self).data,
            final(self).matches_played == old(self).matches_played,
            scored(old(self).points, seq![score], final(self).points),
            recorded(old(self).rp, measure_of(data, rp_measure()), final(self).rp),
            recorded(old(self).auto, measure_of(data, auto_measure()), final(self).auto),
            recorded(old(self).pen, measure_of(data, foul_measure()), final(self).pen),
            recorded(
                old(self).auto_game_points,
                measure_of(data, rp_measure()),
                final(self).auto_game_points,
            ),
            recorded(
                old(self).auto_game_pieces,
                measure_of(data, rp_measure()),
                final(self).auto_game_pieces,
            ),
            recorded(
                old(self).telop_game_points,
                measure_of(data, telop_points_measure()),
                final(self).telop_game_points,
            ),
            recorded(
                old(self).telop_game_pieces,
                measure_of(data, telop_count_measure()),
                final(self).telop_game_pieces,
            ),
    {
        if data.auto_points.is_some() {
            self.rp.low_and_high_and_add(data.rp);
            self.auto.low_and_high_and_add(data.auto_points);
            self.pen.low_and_high_and_add(data.foul_points);
            self.auto_game_points.low_and_high_and_add(data.rp);
            self.auto_game_pieces.low_and_high_and_add(data.rp);
            self.telop_game_points.low_and_high_and_add(data.telop_game_piece_points);
            self.telop_game_pieces.low_and_high_and_add(data.telop_game_piece_count);
        } else {
            proof {
                let e = Seq::<i16>::empty();
                assert(self.rp.graph@ + e =~= self.rp.graph@);
                assert(self.auto.graph@ + e =~= self.auto.graph@);
                assert(self.pen.graph@ + e =~= self.pen.graph@);
                assert(self.auto_game_points.graph@ + e =~= self.auto_game_points.graph@);
                assert(self.auto_game_pieces.graph@ + e =~= self.auto_game_pieces.graph@);
                assert(self.telop_game_points.graph@ + e =~= self.telop_game_points.graph@);
                assert(self.telop_game_pieces.graph@ + e =~= self.telop_game_pieces.graph@);
            }
        }
        let ghost p0 = self.points;
        self.points.highest = compare_highest(self.points.highest, score);
        self.points.lowest = compare_lowest(self.points.lowest, score);
        self.points.graph.push(score);
        proof {
            let v = seq![score];
            assert(v.drop_last() =~= Seq::<i16>::empty());
            assert(fold_max(p0.highest as int, v.drop_last()) == p0.highest);
            assert(fold_min(p0.lowest as int, v.drop_last()) == p0.lowest);
            assert(self.points.graph@ =~= p0.graph@ + v);
        }
    }

    /// Counts every match of the list in which the team `team` (its number
    /// as text) played and whose score is known, and uses the list up.
    /// Fails when the list was already used up.
    pub fn calculate(self, team: &str) -> (r: Result<Self, std::fmt::Error>)
        requires
            self.data is Some ==> tally_fits(self, played(self.data->0@, key_of(team@))),
        ensures
            self.data is None ==> r is Err,
            self.data is Some ==> r is Ok && year_after(
                self,
                played(self.data->0@, key_of(team@)),
                r->Ok_0,
            ),
    {
        let ghost start = self;
        let mut this = self;
        let data = match this.data.take() {
            Some(d) => d,
            None => return Err(fmt_error()),
        };
        let mut key = String::new();
        crate::text::push_char(&mut key, 'f');
        crate::text::push_char(&mut key, 'r');
        crate::text::push_char(&mut key, 'c');
        key.append(team);
        assert(key@ =~= key_of(team@));
        let ghost all = played(data@, key@);
        assert(data@.take(0) =~= Seq::<Root2>::empty());
        assert(scores_in(Seq::empty()) =~= Seq::<i16>::empty());
        assert(this.points.graph@ + Seq::<i16>::empty() =~= this.points.graph@);
        assert(this.rp.graph@ + Seq::<i16>::empty() =~= this.rp.graph@);
        assert(this.auto.graph@ + Seq::<i16>::empty() =~= this.auto.graph@);
        assert(this.pen.graph@ + Seq::<i16>::empty() =~= this.pen.graph@);
        assert(this.auto_game_points.graph@ + Seq::<i16>::empty() =~= this.auto_game_points.graph@);
        assert(this.auto_game_pieces.graph@ + Seq::<i16>::empty() =~= this.auto_game_pieces.graph@);
        assert(this.telop_game_points.graph@ + Seq::<i16>::empty() =~= this.telop_game_points.graph@);
        assert(this.telop_game_pieces.graph@ + Seq::<i16>::empty() =~= this.telop_game_pieces.graph@);
        let mut i: usize = 0;
        while i < data.len()
            invariant
                i <= data.len(),
                key@ == key_of(team@),
                start.data == Some(data),
                all == played(data@, key@),
                tally_fits(start, all),
                this.data is None,
                counted(start, played(data@.take(i as int), key@), this),
            decreases data.len() - i,
        {
            let m = &data[i];
            let ghost p = played(data@.take(i as int), key@);
            let ghost mid = this;
            proof {
                lemma_played_step(data@, key@, i as int);
                lemma_counts_grow(data@, key@, i + 1);
            }
            if has_key(&m.alliances.red.team_keys, &key) && m.alliances.red.score != -1 {
                let ghost e = (*m, Team::Red);
                proof {
                    assert(p.push(e).drop_last() =~= p);
                }
                let (l, w) = check_win(Team::Red, this.losses, this.wins, m.winning_alliance.as_str());
                this.losses = l;
                this.wins = w;
                let breakdown = get_breakdown_data(copy_breakdown(&m.score_breakdown), &Team::Red);
                this.handle(m.alliances.red.score, breakdown);
                proof {
                    lemma_counted_step(start, p, e, mid, this);
                }
            } else if has_key(&m.alliances.blue.team_keys, &key) && m.alliances.blue.score != -1 {
                let ghost e = (*m, Team::Blue);
                proof {
                    assert(p.push(e).drop_last() =~= p);
                }
                let (l, w) = check_win(Team::Blue, this.losses, this.wins, m.winning_alliance.as_str());
                this.losses = l;
                this.wins = w;
                let breakdown = get_breakdown_data(copy_breakdown(&m.score_breakdown), &Team::Blue);
                this.handle(m.alliances.blue.score, breakdown);
                proof {
                    lemma_counted_step(start, p, e, mid, this);
                }
            }
            i = i + 1;
        }
        assert(data@.take(data.len() as int) =~= data@);
        this.matches_played = this.wins + this.losses;
        Ok(this)
    }
}

} // verus!
