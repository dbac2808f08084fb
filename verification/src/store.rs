//! The records already sent to the match store: a record is sent once,
//! the first time it is seen for its team.

use vstd::prelude::*;
use std::collections::HashMap;
use crate::event::EventData;
use crate::parse::{opt_text, texts};

verus! {

broadcast use vstd::std_specs::hash::group_hash_axioms;

/// A batch of match records to send.
#[derive(Clone, Debug)]
pub struct MatchStore {
    pub data: Vec<EventData>,
}

impl MatchStore {
    pub fn new(data: Vec<EventData>) -> (r: Self)
        ensures
            r.data == data,
    {
        MatchStore { data }
    }
}

/// The list holds a record equal to `item`.
pub open spec fn holds_record(list: Seq<EventData>, item: EventData) -> bool {
    exists|i: int| 0 <= i < list.len() && (#[trigger] list[i]).same(item)
}

/// Whether record `year` of team `team_num` is new.  A record equal to one
/// already kept for the team is not new, and nothing changes; a new record
/// is added at the end of the team's list (which is started when the team
/// has none).
pub fn check_cache(cache: &mut HashMap<u16, Vec<EventData>>, year: &EventData, team_num: u16) -> (r: bool)
    ensures
        r == !(old(cache)@.contains_key(team_num) && holds_record(old(cache)@[team_num]@, *year)),
        !r ==> final(cache)@ == old(cache)@,
        r ==> final(cache)@.dom() == old(cache)@.dom().insert(team_num),
        r ==> forall|k: u16| k != team_num && old(cache)@.contains_key(k) ==> final(cache)@[k] == old(cache)@[k],
        r ==> {
            let before = if old(cache)@.contains_key(team_num) {
                old(cache)@[team_num]@
            } else {
                Seq::empty()
            };
            let after = final(cache)@[team_num]@;
            &&& after.len() == before.len() + 1
            &&& forall|i: int| 0 <= i < before.len() ==> (#[trigger] after[i]).same(before[i])
            &&& after.last().same(*year)
        },
{
    proof {
        assert(vstd::std_specs::hash::obeys_key_model::<u16>());
    }
    let add: Vec<EventData> = match cache.get(&team_num) {
        Some(data) => {
            assert(old(cache)@.contains_key(team_num) && old(cache)@[team_num] == *data);
            let mut i: usize = 0;
            while i < data.len()
                invariant
                    i <= data.len(),
                    old(cache)@.contains_key(team_num),
                    old(cache)@[team_num] == *data,
                    forall|j: int| 0 <= j < i ==> !(#[trigger] data@[j]).same(*year),
                decreases data.len() - i,
            {
                if data[i].same_as(year) {
                    assert(old(cache)@[team_num] == *data);
                    assert(data@[i as int].same(*year));
                    assert(holds_record(old(cache)@[team_num]@, *year));
                    return false;
                }
                i = i + 1;
            }
            let mut copy: Vec<EventData> = Vec::new();
            let mut k: usize = 0;
            while k < data.len()
                invariant
                    k <= data.len(),
                    copy@.len() == k,
                    forall|j: int| 0 <= j < k ==> (#[trigger] copy@[j]).same(data@[j]),
                decreases data.len() - k,
            {
                copy.push(data[k].duplicate());
                k = k + 1;
            }
            copy.push(year.duplicate());
            copy
        },
        None => {
            let mut v: Vec<EventData> = Vec::new();
            v.push(year.duplicate());
            v
        },
    };
    cache.insert(team_num, add);
    true
}

/// A record counts as already kept only when a kept record agrees with it
/// in every field: team, match number, score, teammates, each breakdown
/// measure, the video link, the bridge states and the bonus.  So a record
/// that differs from every kept one in its video link alone is still new.
pub proof fn kept_record_agrees_on_every_field(list: Seq<EventData>, item: EventData)
    requires
        holds_record(list, item),
    ensures
        exists|i: int|
            0 <= i < list.len() && {
                let k = #[trigger] list[i];
                &&& k.team == item.team
                &&& k.match_number == item.match_number
                &&& k.score == item.score
                &&& texts(k.team_members@) == texts(item.team_members@)
                &&& k.auto_game_pieces == item.auto_game_pieces
                &&& k.auto_game_points == item.auto_game_points
                &&& k.teleop_game_pieces == item.teleop_game_pieces
                &&& k.teleop_game_points == item.teleop_game_points
                &&& k.penalty == item.penalty
                &&& k.auto == item.auto
                &&& k.rp == item.rp
                &&& opt_text(k.video) == opt_text(item.video)
                &&& opt_text(k.auto_level) == opt_text(item.auto_level)
                &&& opt_text(k.end_level) == opt_text(item.end_level)
                &&& k.sustain_bonus == item.sustain_bonus
            },
{
    let i = choose|i: int| 0 <= i < list.len() && (#[trigger] list[i]).same(item);
    assert(list[i].same(item));
}

/// A record that has just been kept for its team is not new the second
/// time.
pub proof fn check_cache_settles(list: Seq<EventData>, item: EventData)
    requires
        list.len() > 0,
        list.last().same(item),
    ensures
        holds_record(list, item),
{
    assert(list[list.len() - 1].same(item));
}

} // verus!
