//! The quizzer enumerator: the stable ordering of quizzer names.
//!
//! Names are grouped by team number and ordered by ascending team, then by
//! first appearance within the team, across the record stream. The result
//! is the row ordering of the report and is a pure function of the records.

use vstd::prelude::*;

verus! {

use crate::records::{field_at, field_of, quizzer_of, team_col, team_of};
use crate::text::{parse_chars_or, str_chars, str_eq};

/// The team lists padded with empty teams up to length `n`.
pub open spec fn pad_teams(ts: Seq<Seq<Seq<char>>>, n: int) -> Seq<Seq<Seq<char>>> {
    if ts.len() >= n {
        ts
    } else {
        ts + Seq::new((n - ts.len()) as nat, |k: int| Seq::<Seq<char>>::empty())
    }
}

/// Whether any team list holds the name.
pub open spec fn teams_contain(ts: Seq<Seq<Seq<char>>>, nm: Seq<char>) -> bool {
    exists|i: int| 0 <= i < ts.len() && ts[i].contains(nm)
}

/// One record's effect on the team lists: the lists grow to cover the
/// record's team, and a name not seen before joins its team's list.
pub open spec fn teams_step(ts: Seq<Seq<Seq<char>>>, r: Seq<Seq<char>>) -> Seq<Seq<Seq<char>>> {
    let tn = team_of(r);
    let nm = quizzer_of(r);
    let p = pad_teams(ts, tn + 1);
    if teams_contain(ts, nm) {
        p
    } else {
        p.update(tn, p[tn].push(nm))
    }
}

/// The team lists after all records.
pub open spec fn teams_after(records: Seq<Seq<Seq<char>>>) -> Seq<Seq<Seq<char>>>
    decreases records.len(),
{
    if records.len() == 0 {
        Seq::empty()
    } else {
        teams_step(teams_after(records.drop_last()), records.last())
    }
}

/// The quizzer ordering: the team lists flattened in team-number order.
pub open spec fn quizzer_names_spec(records: Seq<Seq<Seq<char>>>) -> Seq<Seq<char>> {
    teams_after(records).flatten()
}

/// The enumerator is deterministic: any two orderings derived from the
/// same record sequence are the same list.
pub proof fn lemma_quizzer_order_deterministic(
    records: Seq<Seq<Seq<char>>>,
    a: Seq<Seq<char>>,
    b: Seq<Seq<char>>,
)
    requires
        a == quizzer_names_spec(records),
        b == quizzer_names_spec(records),
    ensures
        a == b,
{
}

/// Every record's quizzer name appears in the ordering.
pub proof fn lemma_names_cover_records(records: Seq<Seq<Seq<char>>>, k: int)
    requires
        0 <= k < records.len(),
    ensures
        quizzer_names_spec(records).contains(quizzer_of(records[k])),
{
    lemma_teams_have_name(records, k);
    lemma_flatten_contains(teams_after(records), quizzer_of(records[k]));
}

proof fn lemma_teams_have_name(records: Seq<Seq<Seq<char>>>, k: int)
    requires
        0 <= k < records.len(),
    ensures
        teams_contain(teams_after(records), quizzer_of(records[k])),
    decreases records.len(),
{
    let prev = teams_after(records.drop_last());
    let r = records.last();
    if k == records.len() - 1 {
        let nm = quizzer_of(r);
        if teams_contain(prev, nm) {
            lemma_step_keeps(prev, r, nm);
        } else {
            let tn = team_of(r);
            let p = pad_teams(prev, tn + 1);
            lemma_team_of_bounds(r);
            assert(teams_step(prev, r)[tn].contains(nm)) by {
                assert(p.update(tn, p[tn].push(nm))[tn] == p[tn].push(nm));
                assert(p[tn].push(nm).last() == nm);
            }
        }
    } else {
        lemma_teams_have_name(records.drop_last(), k);
        assert(records.drop_last()[k] == records[k]);
        lemma_step_keeps(prev, r, quizzer_of(records[k]));
    }
}

/// The team field parses to a non-negative number no more than the largest
/// machine size, whatever the record holds.
pub proof fn lemma_team_of_bounds(r: Seq<Seq<char>>)
    ensures
        0 <= team_of(r) <= usize::MAX,
{
    let t = crate::text::strip_plus(field_at(r, team_col()));
    if t.len() > 0 && crate::text::all_digits(t) && crate::text::digits_val(t) <= usize::MAX {
        crate::text::lemma_digits_val_nonneg(t);
    }
}

/// A name present in some team list is still present after a step.
proof fn lemma_step_keeps(ts: Seq<Seq<Seq<char>>>, r: Seq<Seq<char>>, nm: Seq<char>)
    requires
        teams_contain(ts, nm),
    ensures
        teams_contain(teams_step(ts, r), nm),
{
    let tn = team_of(r);
    let p = pad_teams(ts, tn + 1);
    let i = choose|i: int| 0 <= i < ts.len() && ts[i].contains(nm);
    assert(p[i] == ts[i]);
    lemma_team_of_bounds(r);
    let out = teams_step(ts, r);
    if teams_contain(ts, quizzer_of(r)) {
        assert(out[i].contains(nm));
    } else {
        if i == tn {
            assert(out[i] == p[i].push(quizzer_of(r)));
            let j = choose|j: int| 0 <= j < ts[i].len() && ts[i][j] == nm;
            assert(out[i][j] == nm);
            assert(out[i].contains(nm));
        } else {
            assert(out[i] == p[i]);
            assert(out[i].contains(nm));
        }
    }
}

proof fn lemma_flatten_contains(ts: Seq<Seq<Seq<char>>>, nm: Seq<char>)
    requires
        teams_contain(ts, nm),
    ensures
        ts.flatten().contains(nm),
    decreases ts.len(),
{
    let i = choose|i: int| 0 <= i < ts.len() && ts[i].contains(nm);
    if i == 0 {
        let j = choose|j: int| 0 <= j < ts[0].len() && ts[0][j] == nm;
        assert(ts.flatten() == ts.first() + ts.drop_first().flatten());
        assert(ts.flatten()[j] == nm);
    } else {
        assert(ts.drop_first()[i - 1].contains(nm));
        lemma_flatten_contains(ts.drop_first(), nm);
        let j = choose|j: int| 0 <= j < ts.drop_first().flatten().len() && ts.drop_first().flatten()[j]
            == nm;
        assert(ts.flatten() == ts.first() + ts.drop_first().flatten());
        assert(ts.flatten()[ts.first().len() + j] == nm);
    }
}

/// Whether any team's list holds the name.
fn teams_contain_exec(teams: &Vec<Vec<String>>, nm: &str) -> (b: bool)
    ensures
        b == teams_contain(teams.deep_view(), nm@),
{
    let n = teams.len();
    let mut i: usize = 0;
    while i < n
        invariant
            n == teams@.len(),
            i <= n,
            forall|x: int| 0 <= x < i ==> !teams.deep_view()[x].contains(nm@),
        decreases n - i,
    {
        let row = &teams[i];
        let m = row.len();
        let mut j: usize = 0;
        while j < m
            invariant
                m == row@.len(),
                j <= m,
                row@ == teams@[i as int]@,
                i < teams@.len(),
                forall|y: int| 0 <= y < j ==> teams.deep_view()[i as int][y] != nm@,
            decreases m - j,
        {
            if str_eq(row[j].as_str(), nm) {
                proof {
                    assert(teams.deep_view()[i as int][j as int] == nm@);
                }
                return true;
            }
            j = j + 1;
        }
        proof {
            assert forall|y: int| 0 <= y < teams.deep_view()[i as int].len() implies teams.deep_view()[i as int][y]
                != nm@ by {}
            assert(!teams.deep_view()[i as int].contains(nm@));
        }
        i = i + 1;
    }
    false
}

/// The flattened team lists.
fn flatten_teams(teams: &Vec<Vec<String>>) -> (out: Vec<String>)
    ensures
        out.deep_view() == teams.deep_view().flatten(),
{
    broadcast use Seq::lemma_flatten_push;

    let mut out: Vec<String> = Vec::new();
    let n = teams.len();
    let mut i: usize = 0;
    proof {
        assert(teams.deep_view().take(0) =~= Seq::<Seq<Seq<char>>>::empty());
        assert(out.deep_view() =~= Seq::<Seq<Seq<char>>>::empty().flatten());
    }
    while i < n
        invariant
            n == teams@.len(),
            i <= n,
            out.deep_view() == teams.deep_view().take(i as int).flatten(),
        decreases n - i,
    {
        let row = &teams[i];
        let m = row.len();
        let mut j: usize = 0;
        while j < m
            invariant
                m == row@.len(),
                i < teams@.len(),
                n == teams@.len(),
                j <= m,
                row@ == teams@[i as int]@,
                out.deep_view() == teams.deep_view().take(i as int).flatten() + teams.deep_view()[i as int].take(j as int),
            decreases m - j,
        {
            let s = row[j].clone();
            proof {
                assert(s.deep_view() == teams.deep_view()[i as int][j as int]);
            }
            let ghost pre_out = out.deep_view();
            out.push(s);
            j = j + 1;
            proof {
                let goal = teams.deep_view().take(i as int).flatten() + teams.deep_view()[i as int].take(j as int);
                assert(out@.len() == pre_out.len() + 1);
                assert forall|k: int| 0 <= k < out@.len() implies out.deep_view()[k] == goal[k] by {
                    if k < pre_out.len() {
                        assert(out.deep_view()[k] == pre_out[k]);
                    } else {
                        assert(out.deep_view()[k] == teams.deep_view()[i as int][j - 1]);
                    }
                }
                assert(out.deep_view() =~= goal);
            }
        }
        i = i + 1;
        proof {
            let dv = teams.deep_view();
            assert(dv.take(i as int).drop_last() =~= dv.take(i - 1));
            assert(dv.take(i as int).last() == dv[i - 1]);
            assert(dv.take(i as int) =~= dv.take(i - 1).push(dv[i - 1]));
            assert(dv[i - 1].take(dv[i - 1].len() as int) =~= dv[i - 1]);
            assert(out.deep_view() == dv.take(i - 1).flatten() + dv[i - 1]);
            dv.take(i - 1).lemma_flatten_push(dv[i - 1]);
        }
    }
    proof {
        assert(teams.deep_view().take(n as int) =~= teams.deep_view());
    }
    out
}

/// The ordered, deduplicated quizzer names of the records: by ascending
/// team number, then first appearance within the team.
pub fn get_quizzer_names(records: &Vec<Vec<String>>) -> (names: Vec<String>)
    ensures
        names.deep_view() == quizzer_names_spec(records.deep_view()),
{
    let mut teams: Vec<Vec<String>> = Vec::new();
    let n = records.len();
    let mut i: usize = 0;
    proof {
        assert(teams.deep_view() =~= teams_after(records.deep_view().take(0)));
    }
    while i < n
        invariant
            n == records@.len(),
            i <= n,
            teams.deep_view() == teams_after(records.deep_view().take(i as int)),
        decreases n - i,
    {
        let r = &records[i];
        proof {
            assert(records.deep_view()[i as int] == records@[i as int].deep_view());
        }
        let ghost rec = records.deep_view()[i as int];
        let nm = field_of(r, 7);
        let tf = field_of(r, 8);
        let tchars = str_chars(tf);
        let tn = parse_chars_or(&tchars, 0);
        proof {
            assert(tn as int == team_of(rec));
        }
        let seen = teams_contain_exec(&teams, nm);
        let ghost pre = teams.deep_view();
        while teams.len() <= tn
            invariant
                pre.len() <= teams@.len(),
                teams@.len() == pre.len() || teams@.len() <= tn + 1,
                teams.deep_view() =~= pre + Seq::new((teams@.len() - pre.len()) as nat, |k: int| Seq::<Seq<char>>::empty()),
            decreases tn + 1 - teams@.len(),
        {
            let ghost pre_pad = teams.deep_view();
            let empty_row: Vec<String> = Vec::new();
            proof {
                assert(empty_row.deep_view() =~= Seq::<Seq<char>>::empty());
            }
            teams.push(empty_row);
            proof {
                let goal = pre + Seq::new((teams@.len() - pre.len()) as nat, |k: int| Seq::<Seq<char>>::empty());
                assert forall|k: int| 0 <= k < teams@.len() implies teams.deep_view()[k] == goal[k] by {
                    if k < pre_pad.len() {
                        assert(teams.deep_view()[k] == pre_pad[k]);
                    } else {
                        assert(teams.deep_view()[k] =~= Seq::<Seq<char>>::empty());
                    }
                }
                assert(teams.deep_view() =~= goal);
            }
        }
        proof {
            assert(teams.deep_view() =~= pad_teams(pre, tn + 1));
        }
        if !seen {
            let ghost padded = teams.deep_view();
            let owned = String::from_str(nm);
            teams[tn].push(owned);
            proof {
                let goal = padded.update(tn as int, padded[tn as int].push(nm@));
                assert forall|k: int| 0 <= k < teams@.len() implies teams.deep_view()[k] == goal[k] by {
                    if k == tn as int {
                        assert(teams.deep_view()[k] =~= padded[tn as int].push(nm@));
                    } else {
                        assert(teams.deep_view()[k] == padded[k]);
                    }
                }
                assert(teams.deep_view() =~= goal);
            }
        }
        i = i + 1;
        proof {
            let cur = records.deep_view().take(i as int);
            assert(cur.drop_last() =~= records.deep_view().take(i - 1));
            assert(cur.last() == rec);
            assert(teams.deep_view() =~= teams_step(teams_after(cur.drop_last()), rec));
        }
    }
    proof {
        assert(records.deep_view().take(n as int) =~= records.deep_view());
    }
    flatten_teams(&teams)
}

} // verus!
