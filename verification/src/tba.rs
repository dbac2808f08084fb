//! Reading The Blue Alliance's team lists: team keys to team numbers, and
//! the top of a district ranking.

use vstd::prelude::*;
use crate::parse::texts;
use crate::team_key::{frc, parse_u16, parse_u16_spec, team_number, team_number_spec};
use crate::text::{remove_all, remove_str};

verus! {

/// The Blue Alliance client.
#[derive(Clone, Copy, Debug, PartialEq, Eq, Structural)]
pub struct Tba {}

/// One entry of a district ranking.
#[derive(Clone, Debug, PartialEq)]
pub struct Team {
    pub team_key: String,
}

/// The team numbers of the keys that name one, in order.
pub open spec fn named_numbers(keys: Seq<Seq<char>>) -> Seq<u16>
    decreases keys.len(),
{
    if keys.len() == 0 {
        Seq::empty()
    } else {
        let prev = named_numbers(keys.drop_last());
        match parse_u16_spec(remove_all(keys.last(), frc())) {
            Some(n) => prev.push(n),
            None => prev,
        }
    }
}

/// The keys of a ranking.
pub open spec fn ranking_keys(r: Seq<Team>) -> Seq<Seq<char>> {
    r.map_values(|t: Team| t.team_key@)
}

impl Tba {
    pub fn new() -> (r: Tba)
        ensures
            r == (Tba {}),
    {
        Tba {}
    }

    /// The team number of each key, 0 where a key names none.
    pub fn team_numbers(json: &Vec<String>) -> (r: Vec<u16>)
        ensures
            r@ == texts(json@).map_values(|k: Seq<char>| team_number_spec(k)),
    {
        let mut out: Vec<u16> = Vec::new();
        let mut i: usize = 0;
        while i < json.len()
            invariant
                i <= json.len(),
                out@ == texts(json@.take(i as int)).map_values(|k: Seq<char>| team_number_spec(k)),
            decreases json.len() - i,
        {
            out.push(team_number(json[i].as_str()));
            assert(texts(json@.take(i + 1)).map_values(|k: Seq<char>| team_number_spec(k))
                =~= texts(json@.take(i as int)).map_values(|k: Seq<char>| team_number_spec(k)).push(
                team_number_spec(json@[i as int]@),
            ));
            i = i + 1;
        }
        assert(json@.take(json.len() as int) =~= json@);
        out
    }
}

/// The team numbers among the first 60 entries of a ranking: each key with
/// `"frc"` removed, kept where it reads as a number.
pub fn top_60_numbers(keys: &Vec<Team>) -> (r: Vec<u16>)
    requires
        keys.len() >= 60,
    ensures
        r@ == named_numbers(ranking_keys(keys@.take(60))),
{
    proof {
        reveal_strlit("frc");
    }
    let pat = "frc";
    assert(pat@ =~= frc());
    let mut out: Vec<u16> = Vec::new();
    let mut i: usize = 0;
    while i < 60
        invariant
            i <= 60,
            keys.len() >= 60,
            pat@ == frc(),
            out@ == named_numbers(ranking_keys(keys@.take(i as int))),
        decreases 60 - i,
    {
        assert(ranking_keys(keys@.take(i + 1)).drop_last() =~= ranking_keys(keys@.take(i as int)));
        let bare = remove_str(keys[i].team_key.as_str(), pat);
        match parse_u16(bare.as_str()) {
            Some(n) => out.push(n),
            None => {},
        }
        i = i + 1;
    }
    out
}

} // verus!
