//! The service's settings: which event it follows and which teams.

use vstd::prelude::*;

verus! {

/// The season the service follows.
pub const YEAR: u16 = 2023;

/// The team that the event list names but the service does not follow.
pub const SKIPPED_TEAM: u16 = 8177;

/// The settings the service runs with.
#[derive(Clone, Debug, PartialEq)]
pub struct Env {
    pub code: String,
    pub api_key: String,
    pub redis_key: String,
    pub sentry_dsn: String,
    pub firestore_collection: String,
    pub update_where: String,
    pub teams: Vec<u16>,
}

/// `teams` without the skipped team, in order.
pub open spec fn followed(teams: Seq<u16>) -> Seq<u16>
    decreases teams.len(),
{
    if teams.len() == 0 {
        Seq::empty()
    } else if teams.last() == SKIPPED_TEAM {
        followed(teams.drop_last())
    } else {
        followed(teams.drop_last()).push(teams.last())
    }
}

/// The followed teams are exactly the listed teams other than the skipped
/// one: the skipped team is never followed and every other team is.
pub proof fn skipped_team_never_followed(teams: Seq<u16>)
    ensures
        !followed(teams).contains(SKIPPED_TEAM),
        forall|t: u16| t != SKIPPED_TEAM ==> (teams.contains(t) <==> followed(teams).contains(t)),
    decreases teams.len(),
{
    if teams.len() > 0 {
        let rest = teams.drop_last();
        let last = teams.last();
        skipped_team_never_followed(rest);
        assert(teams =~= rest.push(last));
        let f = followed(rest);
        if last == SKIPPED_TEAM {
            assert(followed(teams) == f);
            assert forall|t: u16| t != SKIPPED_TEAM implies (teams.contains(t) <==> f.contains(t)) by {
                if teams.contains(t) {
                    let i = choose|i: int| 0 <= i < teams.len() && teams[i] == t;
                    assert(rest[i] == t);
                    assert(rest.contains(t));
                }
                if f.contains(t) {
                    assert(rest.contains(t));
                    let k = choose|k: int| 0 <= k < rest.len() && rest[k] == t;
                    assert(teams[k] == t);
                }
            }
        } else {
            let g = f.push(last);
            assert(followed(teams) == g);
            assert forall|t: u16| t != SKIPPED_TEAM implies (teams.contains(t) <==> g.contains(t)) by {
                if teams.contains(t) {
                    let i = choose|i: int| 0 <= i < teams.len() && teams[i] == t;
                    if i < rest.len() {
                        assert(rest[i] == t);
                        assert(rest.contains(t));
                        assert(f.contains(t));
                        let j = choose|j: int| 0 <= j < f.len() && f[j] == t;
                        assert(g[j] == t);
                    } else {
                        assert(g[f.len() as int] == t);
                    }
                }
                if g.contains(t) {
                    let j = choose|j: int| 0 <= j < g.len() && g[j] == t;
                    if j == f.len() {
                        assert(teams[teams.len() - 1] == t);
                    } else {
                        assert(f[j] == t);
                        assert(f.contains(t));
                        assert(rest.contains(t));
                        let k = choose|k: int| 0 <= k < rest.len() && rest[k] == t;
                        assert(teams[k] == t);
                    }
                }
            }
            assert forall|j: int| 0 <= j < g.len() implies g[j] != SKIPPED_TEAM by {
                if j < f.len() {
                    assert(f[j] == g[j]);
                    if f[j] == SKIPPED_TEAM {
                        assert(f.contains(SKIPPED_TEAM));
                    }
                }
            }
        }
    }
}

impl Env {
    /// The settings for event `code`, named `event_name`, whose teams are
    /// `teams`: every team but the skipped one is followed, and updates are
    /// fetched for the same event.
    pub fn new(
        code: &str,
        api_key: &str,
        redis_key: &str,
        sentry_dsn: &str,
        event_name: String,
        teams: &Vec<u16>,
    ) -> (r: Self)
        ensures
            r.code@ == code@,
            r.api_key@ == api_key@,
            r.redis_key@ == redis_key@,
            r.sentry_dsn@ == sentry_dsn@,
            r.firestore_collection == event_name,
            r.update_where@ == code@,
            r.teams@ == followed(teams@),
    {
        let mut kept: Vec<u16> = Vec::new();
        let mut i: usize = 0;
        while i < teams.len()
            invariant
                i <= teams.len(),
                kept@ == followed(teams@.take(i as int)),
            decreases teams.len() - i,
        {
            assert(teams@.take(i + 1).drop_last() =~= teams@.take(i as int));
            if teams[i] != SKIPPED_TEAM {
                kept.push(teams[i]);
            }
            i = i + 1;
        }
        assert(teams@.take(teams.len() as int) =~= teams@);
        Env {
            code: String::from_str(code),
            api_key: String::from_str(api_key),
            redis_key: String::from_str(redis_key),
            sentry_dsn: String::from_str(sentry_dsn),
            firestore_collection: event_name,
            update_where: String::from_str(code),
            teams: kept,
        }
    }
}

} // verus!
