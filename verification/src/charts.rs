//! The per-team requests of the ranking charts: which event's ratings to
//! read for a team.

use vstd::prelude::*;
use crate::parse::texts;

verus! {

/// Which ratings the charts follow.
#[derive(Clone, Copy, Debug, PartialEq, Eq, Structural)]
pub enum Version {
    Match,
    Pre,
    Top60,
}

/// A team, and the key the ratings request for it goes with.
#[derive(Clone, Debug, PartialEq)]
pub struct Http {
    pub team: u16,
    pub key: String,
}

/// The first of `events` that is not `code`.
pub open spec fn first_other(events: Seq<Seq<char>>, code: Seq<char>) -> Option<Seq<char>>
    decreases events.len(),
{
    if events.len() == 0 {
        None
    } else if events[0] != code {
        Some(events[0])
    } else {
        first_other(events.skip(1), code)
    }
}

/// The teams of `followed` that are not in `sent`, in order.
pub open spec fn unsent(followed: Seq<u16>, sent: Seq<u16>) -> Seq<u16>
    decreases followed.len(),
{
    if followed.len() == 0 {
        Seq::empty()
    } else if sent.contains(followed.last()) {
        unsent(followed.drop_last(), sent)
    } else {
        unsent(followed.drop_last(), sent).push(followed.last())
    }
}

/// The outcome of a charts round that followed `followed` and sent ratings
/// for `sent`: the teams left unsent when the round failed, that is when
/// the two lists differ and the round was not a match round; none otherwise.
pub fn check_populated(version: Version, followed: &Vec<u16>, sent: &Vec<u16>) -> (r: Option<Vec<u16>>)
    ensures
        match r {
            Some(missing) => followed@ != sent@ && version != Version::Match && missing@ == unsent(
                followed@,
                sent@,
            ),
            None => followed@ == sent@ || version == Version::Match,
        },
{
    let mut same = followed.len() == sent.len();
    let mut i: usize = 0;
    while same && i < followed.len()
        invariant
            i <= followed.len(),
            same ==> followed.len() == sent.len(),
            same ==> forall|j: int| 0 <= j < i ==> followed@[j] == sent@[j],
            !same ==> followed@ != sent@,
        decreases followed.len() - i,
    {
        if followed[i] != sent[i] {
            assert(followed@[i as int] != sent@[i as int]);
            same = false;
        }
        i = i + 1;
    }
    if same {
        assert(followed@ =~= sent@);
    }
    if same || version == Version::Match {
        return None;
    }
    let mut missing: Vec<u16> = Vec::new();
    let mut k: usize = 0;
    while k < followed.len()
        invariant
            k <= followed.len(),
            missing@ == unsent(followed@.take(k as int), sent@),
        decreases followed.len() - k,
    {
        assert(followed@.take(k + 1).drop_last() =~= followed@.take(k as int));
        let mut found = false;
        let mut j: usize = 0;
        while j < sent.len()
            invariant
                k < followed.len(),
                j <= sent.len(),
                found == (exists|x: int| 0 <= x < j && sent@[x] == followed@[k as int]),
            decreases sent.len() - j,
        {
            if sent[j] == followed[k] {
                found = true;
            }
            j = j + 1;
        }
        assert(found == sent@.contains(followed@[k as int]));
        if !found {
            missing.push(followed[k]);
        }
        k = k + 1;
    }
    assert(followed@.take(followed.len() as int) =~= followed@);
    Some(missing)
}

impl Http {
    /// The request for `team` against the first of its events that is not
    /// the event `code`; none when it has no other event.
    pub fn from_events(team: u16, events: &Vec<String>, code: &str) -> (r: Option<Http>)
        ensures
            match r {
                Some(h) => h.team == team && first_other(texts(events@), code@) == Some(h.key@),
                None => first_other(texts(events@), code@) is None,
            },
    {
        let own_code = String::from_str(code);
        let mut i: usize = 0;
        assert(texts(events@).skip(0) =~= texts(events@));
        while i < events.len()
            invariant
                i <= events.len(),
                own_code@ == code@,
                first_other(texts(events@), code@) == first_other(texts(events@).skip(i as int), code@),
            decreases events.len() - i,
        {
            let ghost rest = texts(events@).skip(i as int);
            assert(rest[0] == events@[i as int]@);
            if events[i] != own_code {
                return Some(Http { team, key: events[i].clone() });
            }
            assert(rest.skip(1) =~= texts(events@).skip(i + 1));
            i = i + 1;
        }
        assert(texts(events@).skip(i as int) =~= Seq::<Seq<char>>::empty());
        None
    }
}

} // verus!
