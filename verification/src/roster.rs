//! Team rosters: picking the teams of one state or province out of The
//! Blue Alliance's team list, and listing the teams at an event.

use vstd::prelude::*;
use crate::parse::texts;

verus! {

/// A team as the team list gives it.
#[derive(Clone, Debug, PartialEq)]
pub struct RosterTeam {
    pub team_number: String,
    pub state_prov: Option<String>,
}

/// The state key that selects every team.
pub open spec fn any_state() -> Seq<char> {
    seq!['*']
}

/// Whether `t` belongs to the selection `state`.
pub open spec fn in_state(t: RosterTeam, state: Seq<char>) -> bool {
    state == any_state() || (t.state_prov matches Some(s) && s@ == state)
}

/// The numbers of the teams of `teams` in the selection `state`, in order.
pub open spec fn selected(teams: Seq<RosterTeam>, state: Seq<char>) -> Seq<Seq<char>>
    decreases teams.len(),
{
    if teams.len() == 0 {
        Seq::empty()
    } else if in_state(teams.last(), state) {
        selected(teams.drop_last(), state).push(teams.last().team_number@)
    } else {
        selected(teams.drop_last(), state)
    }
}

/// The texts of `list`, separated by `sep`.
pub open spec fn joined(list: Seq<Seq<char>>, sep: Seq<char>) -> Seq<char>
    decreases list.len(),
{
    if list.len() == 0 {
        Seq::empty()
    } else if list.len() == 1 {
        list[0]
    } else {
        joined(list.drop_last(), sep) + sep + list.last()
    }
}

/// The selection `"*"` keeps every team, in order.
pub proof fn star_selects_every_team(teams: Seq<RosterTeam>)
    ensures
        selected(teams, any_state()) == teams.map_values(|t: RosterTeam| t.team_number@),
    decreases teams.len(),
{
    if teams.len() > 0 {
        star_selects_every_team(teams.drop_last());
        assert(teams.drop_last().map_values(|t: RosterTeam| t.team_number@).push(
            teams.last().team_number@,
        ) =~= teams.map_values(|t: RosterTeam| t.team_number@));
    } else {
        assert(teams.map_values(|t: RosterTeam| t.team_number@) =~= Seq::<Seq<char>>::empty());
    }
}

proof fn lemma_selected_filter(teams: Seq<RosterTeam>, state: Seq<char>, pred: spec_fn(RosterTeam) -> bool)
    requires
        forall|t: RosterTeam| #[trigger] pred(t) == in_state(t, state),
    ensures
        selected(teams, state) == teams.filter(pred).map_values(|t: RosterTeam| t.team_number@),
    decreases teams.len(),
{
    reveal(Seq::filter);
    if teams.len() > 0 {
        lemma_selected_filter(teams.drop_last(), state, pred);
        let f = teams.drop_last().filter(pred);
        assert(pred(teams.last()) == in_state(teams.last(), state));
        if pred(teams.last()) {
            assert(teams.filter(pred) == f.push(teams.last()));
            assert(f.push(teams.last()).map_values(|t: RosterTeam| t.team_number@) =~= f.map_values(
                |t: RosterTeam| t.team_number@,
            ).push(teams.last().team_number@));
        } else {
            assert(teams.filter(pred) == f);
        }
    } else {
        assert(teams.filter(pred).map_values(|t: RosterTeam| t.team_number@) =~= Seq::<
            Seq<char>,
        >::empty());
    }
}

/// For a state key other than `"*"`, the selection holds, in order, the
/// numbers of exactly those teams whose state or province is the key
/// itself: equal to it, not merely holding it.
pub proof fn state_selects_its_own_teams(teams: Seq<RosterTeam>, state: Seq<char>)
    requires
        state != any_state(),
    ensures
        selected(teams, state) == teams.filter(
            |t: RosterTeam| t.state_prov is Some && t.state_prov->0@ == state,
        ).map_values(|t: RosterTeam| t.team_number@),
{
    let pred = |t: RosterTeam| t.state_prov is Some && t.state_prov->0@ == state;
    lemma_selected_filter(teams, state, pred);
}

/// The numbers of the teams in the selection `state_key`: every team for
/// `"*"`, otherwise the teams whose state or province is `state_key`.
pub fn select_teams(teams: &Vec<RosterTeam>, state_key: &str) -> (r: Vec<String>)
    ensures
        texts(r@) == selected(teams@, state_key@),
        state_key@ == any_state() ==> texts(r@) == teams@.map_values(|t: RosterTeam| t.team_number@),
        state_key@ != any_state() ==> texts(r@) == teams@.filter(
            |t: RosterTeam| t.state_prov is Some && t.state_prov->0@ == state_key@,
        ).map_values(|t: RosterTeam| t.team_number@),
{
    proof {
        reveal_strlit("*");
    }
    let star = "*";
    assert(star@ =~= any_state());
    let every = state_key.unicode_len() == 1 && state_key.get_char(0) == '*';
    assert(every == (state_key@ == any_state())) by {
        if state_key@.len() == 1 && state_key@[0] == '*' {
            assert(state_key@ =~= any_state());
        }
    }
    let key = String::from_str(state_key);
    let mut out: Vec<String> = Vec::new();
    let mut i: usize = 0;
    while i < teams.len()
        invariant
            i <= teams.len(),
            key@ == state_key@,
            every == (state_key@ == any_state()),
            texts(out@) == selected(teams@.take(i as int), state_key@),
        decreases teams.len() - i,
    {
        assert(teams@.take(i + 1).drop_last() =~= teams@.take(i as int));
        let team = &teams[i];
        let keep = if every {
            true
        } else {
            match &team.state_prov {
                Some(s) => *s == key,
                None => false,
            }
        };
        if keep {
            let ghost before = out@;
            out.push(team.team_number.clone());
            assert(texts(out@) =~= texts(before).push(team.team_number@));
        }
        i = i + 1;
    }
    assert(teams@.take(teams.len() as int) =~= teams@);
    proof {
        if state_key@ == any_state() {
            star_selects_every_team(teams@);
        } else {
            let pred = |t: RosterTeam| t.state_prov is Some && t.state_prov->0@ == state_key@;
            lemma_selected_filter(teams@, state_key@, pred);
        }
    }
    out
}

/// The texts of `numbers`, separated by `", "`: `numbers.join(", ")`.
pub fn join_numbers(numbers: &Vec<String>) -> (r: String)
    ensures
        r@ == joined(texts(numbers@), seq![',', ' ']),
{
    proof {
        reveal_strlit(", ");
    }
    let sep = ", ";
    assert(sep@ =~= seq![',', ' ']);
    let mut out = String::new();
    let mut i: usize = 0;
    while i < numbers.len()
        invariant
            i <= numbers.len(),
            sep@ == seq![',', ' '],
            out@ == joined(texts(numbers@.take(i as int)), sep@),
        decreases numbers.len() - i,
    {
        let ghost prev = texts(numbers@.take(i as int));
        let ghost next = texts(numbers@.take(i + 1));
        assert(next.drop_last() =~= prev);
        if i != 0 {
            out.append(sep);
        }
        out.append(numbers[i].as_str());
        proof {
            if i == 0 {
                assert(out@ =~= next[0]);
            } else {
                assert(out@ =~= joined(prev, sep@) + sep@ + next.last());
            }
        }
        i = i + 1;
    }
    assert(numbers@.take(numbers.len() as int) =~= numbers@);
    out
}

} // verus!
