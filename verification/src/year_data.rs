//! The cache of match lists already counted: a fresh list for a team (or
//! for the event as a whole) is counted again only when it differs from
//! the one counted before.

use vstd::prelude::*;
use std::collections::HashMap;
use crate::parse::{same_match_lists, same_matches, Root2};

verus! {

broadcast use vstd::std_specs::hash::group_hash_axioms;

/// The cache slot of the event-wide match list.
pub const PUBLIC_CACHE: u16 = 16969;

/// Which match list a request is about: one team's season, or the event.
#[derive(Clone, Copy, Debug, PartialEq, Eq, Structural)]
pub enum SendType {
    Year(u16),
    Match,
}

/// The last match list counted for each slot, and whether anything changed.
#[derive(Clone, Debug)]
pub struct YearData {
    pub cache: HashMap<u16, Vec<Root2>>,
    pub updated: bool,
}

/// The cache slot of a request: the team's number for a season, the public
/// slot for the event.
pub open spec fn slot(what: SendType, team: u16) -> u16 {
    match what {
        SendType::Year(_) => team,
        SendType::Match => PUBLIC_CACHE,
    }
}

/// The slot already holds the same matches as `json`.
pub open spec fn already_counted(cache: Map<u16, Vec<Root2>>, loc: u16, json: Seq<Root2>) -> bool {
    cache.contains_key(loc) && same_matches(cache[loc]@, json)
}

impl YearData {
    /// An empty cache.
    pub fn new() -> (r: Self)
        ensures
            r.cache@ == Map::<u16, Vec<Root2>>::empty(),
            !r.updated,
    {
        YearData { cache: HashMap::new(), updated: false }
    }

    /// Whether `json` is news for its slot.  When the slot already holds the
    /// same matches, nothing changes and the answer is `false`; otherwise
    /// the slot takes `json`, the cache is marked as updated and the answer
    /// is `true`.
    pub fn check_cache(&mut self, json: Vec<Root2>, what: &SendType, team: &u16) -> (r: bool)
        ensures
            r == !already_counted(old(self).cache@, slot(*what, *team), json@),
            !r ==> *final(self) == *old(self),
            r ==> final(self).updated && final(self).cache@ == old(self).cache@.insert(
                slot(*what, *team),
                json,
            ),
    {
        proof {
            assert(vstd::std_specs::hash::obeys_key_model::<u16>());
        }
        let loc: u16 = match what {
            SendType::Year(_) => *team,
            SendType::Match => PUBLIC_CACHE,
        };
        match self.cache.get(&loc) {
            Some(compare) => {
                if same_match_lists(compare, &json) {
                    return false;
                }
            },
            None => {},
        }
        self.updated = true;
        self.cache.insert(loc, json);
        true
    }
}

/// A match list that has just been taken into the cache is not news the
/// second time: counting the same list again changes nothing.
pub proof fn check_cache_settles(
    cache: Map<u16, Vec<Root2>>,
    json: Vec<Root2>,
    what: SendType,
    team: u16,
)
    ensures
        already_counted(cache.insert(slot(what, team), json), slot(what, team), json@),
{
}

} // verus!
