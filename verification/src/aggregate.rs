//! The aggregator: one pass over the judged records, counting attempts,
//! correct answers, bonus attempts and bonus conversions per quizzer and
//! question type.
//!
//! A record whose round is absent from the round map changes nothing and
//! contributes its round identifier once to the missing-rounds warning.

use vstd::prelude::*;

verus! {

use crate::records::{event_code_of, field_of, qnum_of, quizzer_of, round_of};
use crate::roundmap::{rm_contains, rm_get, RoundMap};
use crate::text::{esc_str, escape_id, parse_chars_or, sort_lex, sort_strings, str_eq, trim_quotes_chars};
use crate::types::{qtype_count, spec_type_index, type_index};

/// The four parallel count matrices, indexed by quizzer row and question
/// type column.
pub struct TallyView {
    pub attempts: Seq<Seq<u64>>,
    pub correct: Seq<Seq<u64>>,
    pub bonus_attempts: Seq<Seq<u64>>,
    pub bonus_correct: Seq<Seq<u64>>,
}

/// One cell of a matrix incremented; out-of-range coordinates leave the
/// matrix unchanged.
pub open spec fn mat_inc(m: Seq<Seq<u64>>, i: int, j: int) -> Seq<Seq<u64>> {
    if 0 <= i < m.len() && 0 <= j < m[i].len() {
        m.update(i, m[i].update(j, ((m[i][j] + 1) as u64)))
    } else {
        m
    }
}

/// Index of the first occurrence of a name.
pub open spec fn first_name_index(names: Seq<Seq<char>>, nm: Seq<char>) -> int
    decreases names.len(),
{
    if names.len() == 0 {
        0
    } else if names[0] == nm {
        0
    } else {
        1 + first_name_index(names.drop_first(), nm)
    }
}

/// The matrix row of a quizzer: the first position of the name in the
/// enumerated ordering, or row 0 for a name that is not listed.
pub open spec fn quizzer_row(names: Seq<Seq<char>>, nm: Seq<char>) -> int {
    if names.contains(nm) {
        first_name_index(names, nm)
    } else {
        0
    }
}

pub proof fn lemma_first_name_index(names: Seq<Seq<char>>, nm: Seq<char>)
    requires
        names.contains(nm),
    ensures
        0 <= first_name_index(names, nm) < names.len(),
        names[first_name_index(names, nm)] == nm,
        forall|j: int| 0 <= j < first_name_index(names, nm) ==> names[j] != nm,
    decreases names.len(),
{
    if names.len() > 0 && names[0] != nm {
        assert(names.drop_first().contains(nm)) by {
            let i = choose|i: int| 0 <= i < names.len() && names[i] == nm;
            assert(names.drop_first()[i - 1] == nm);
        }
        lemma_first_name_index(names.drop_first(), nm);
        assert forall|j: int| 0 <= j < first_name_index(names, nm) implies names[j] != nm by {
            if j > 0 {
                assert(names.drop_first()[j - 1] != nm);
            }
        }
    }
}

/// A record's question type within a round's code sequence: question 21 is
/// always the generic type; positions outside the sequence fall back to the
/// generic type as well.
pub open spec fn qtype_of(r: Seq<Seq<char>>, types: Seq<char>) -> char {
    let q = qnum_of(r);
    if q == 21 {
        'G'
    } else if 1 <= q <= types.len() {
        types[q - 1]
    } else {
        'G'
    }
}

/// The matrix updates an event code commands on one cell: attempts for a
/// team answer, bonus attempts for a bonus, with the matching correct
/// matrix incremented on the correct codes.
pub open spec fn apply_event(t: TallyView, code: Seq<char>, i: int, j: int) -> TallyView {
    if code == "'TC'"@ {
        TallyView {
            attempts: mat_inc(t.attempts, i, j),
            correct: mat_inc(t.correct, i, j),
            bonus_attempts: t.bonus_attempts,
            bonus_correct: t.bonus_correct,
        }
    } else if code == "'TE'"@ {
        TallyView {
            attempts: mat_inc(t.attempts, i, j),
            correct: t.correct,
            bonus_attempts: t.bonus_attempts,
            bonus_correct: t.bonus_correct,
        }
    } else if code == "'BC'"@ {
        TallyView {
            attempts: t.attempts,
            correct: t.correct,
            bonus_attempts: mat_inc(t.bonus_attempts, i, j),
            bonus_correct: mat_inc(t.bonus_correct, i, j),
        }
    } else if code == "'BE'"@ {
        TallyView {
            attempts: t.attempts,
            correct: t.correct,
            bonus_attempts: mat_inc(t.bonus_attempts, i, j),
            bonus_correct: t.bonus_correct,
        }
    } else {
        t
    }
}

/// One record's effect on the tally: nothing when its round is unknown,
/// otherwise the event applied at the record's row and type column.
pub open spec fn agg_step(
    t: TallyView,
    names: Seq<Seq<char>>,
    m: Seq<(Seq<char>, Seq<char>)>,
    r: Seq<Seq<char>>,
) -> TallyView {
    if !rm_contains(m, round_of(r)) {
        t
    } else {
        apply_event(
            t,
            event_code_of(r),
            quizzer_row(names, quizzer_of(r)),
            spec_type_index(qtype_of(r, rm_get(m, round_of(r)))),
        )
    }
}

/// The tally after the first `n` records.
pub open spec fn agg_upto(
    t0: TallyView,
    names: Seq<Seq<char>>,
    m: Seq<(Seq<char>, Seq<char>)>,
    records: Seq<Seq<Seq<char>>>,
    n: int,
) -> TallyView
    decreases n,
{
    if n <= 0 {
        t0
    } else {
        agg_step(agg_upto(t0, names, m, records, n - 1), names, m, records[n - 1])
    }
}

/// The tally after all records.
pub open spec fn agg_all(
    t0: TallyView,
    names: Seq<Seq<char>>,
    m: Seq<(Seq<char>, Seq<char>)>,
    records: Seq<Seq<Seq<char>>>,
) -> TallyView {
    agg_upto(t0, names, m, records, records.len() as int)
}

/// The distinct unknown round identifiers among the first `n` records, in
/// first-reference order.
pub open spec fn missing_upto(
    m: Seq<(Seq<char>, Seq<char>)>,
    records: Seq<Seq<Seq<char>>>,
    n: int,
) -> Seq<Seq<char>>
    decreases n,
{
    if n <= 0 {
        Seq::empty()
    } else {
        let prev = missing_upto(m, records, n - 1);
        let rd = round_of(records[n - 1]);
        if !rm_contains(m, rd) && !prev.contains(rd) {
            prev.push(rd)
        } else {
            prev
        }
    }
}

/// The distinct unknown round identifiers among all records.
pub open spec fn missing_all(
    m: Seq<(Seq<char>, Seq<char>)>,
    records: Seq<Seq<Seq<char>>>,
) -> Seq<Seq<char>> {
    missing_upto(m, records, records.len() as int)
}

/// The identifiers quoted, escaped and comma-separated, as the warning
/// prints them: double quotes and backslashes inside an identifier carry a
/// backslash escape.
pub open spec fn quoted_list(ms: Seq<Seq<char>>) -> Seq<char>
    decreases ms.len(),
{
    if ms.len() == 0 {
        Seq::empty()
    } else if ms.len() == 1 {
        "\""@ + esc_str(ms[0]) + "\""@
    } else {
        quoted_list(ms.drop_last()) + ", "@ + "\""@ + esc_str(ms.last()) + "\""@
    }
}

/// The second warning line: the sorted unknown identifiers in list form.
pub open spec fn skipped_line(ms: Seq<Seq<char>>) -> Seq<char> {
    "Skipped Rounds: ["@ + quoted_list(ms) + "]"@
}

/// The warnings the aggregator emits: none when every round resolved, and
/// otherwise the fixed three-line batch with the sorted identifier list.
pub open spec fn missing_warnings(ms: Seq<Seq<char>>) -> Seq<Seq<char>> {
    if ms.len() == 0 {
        Seq::empty()
    } else {
        seq![
            "Warning: Some records were skipped due to missing question sets"@,
            skipped_line(sort_lex(ms)),
            "If your question sets are not named correctly, please rename them to match the round numbers in the quiz data file"@,
        ]
    }
}

/// Dimensions are stable and every cell grows by at most the number of
/// records processed.
pub proof fn lemma_agg_dims_and_bound(
    t0: TallyView,
    names: Seq<Seq<char>>,
    m: Seq<(Seq<char>, Seq<char>)>,
    records: Seq<Seq<Seq<char>>>,
    n: int,
)
    requires
        0 <= n,
    ensures
        agg_upto(t0, names, m, records, n).attempts.len() == t0.attempts.len(),
        agg_upto(t0, names, m, records, n).correct.len() == t0.correct.len(),
        agg_upto(t0, names, m, records, n).bonus_attempts.len() == t0.bonus_attempts.len(),
        agg_upto(t0, names, m, records, n).bonus_correct.len() == t0.bonus_correct.len(),
        forall|a: int|
            0 <= a < t0.attempts.len() ==> (#[trigger] agg_upto(t0, names, m, records, n).attempts[a]).len()
                == t0.attempts[a].len(),
        forall|a: int|
            0 <= a < t0.correct.len() ==> (#[trigger] agg_upto(t0, names, m, records, n).correct[a]).len()
                == t0.correct[a].len(),
        forall|a: int|
            0 <= a < t0.bonus_attempts.len() ==> (#[trigger] agg_upto(
                t0,
                names,
                m,
                records,
                n,
            ).bonus_attempts[a]).len() == t0.bonus_attempts[a].len(),
        forall|a: int|
            0 <= a < t0.bonus_correct.len() ==> (#[trigger] agg_upto(
                t0,
                names,
                m,
                records,
                n,
            ).bonus_correct[a]).len() == t0.bonus_correct[a].len(),
        forall|a: int, b: int|
            0 <= a < t0.attempts.len() && 0 <= b < t0.attempts[a].len() ==> (#[trigger] agg_upto(
                t0,
                names,
                m,
                records,
                n,
            ).attempts[a][b]) <= t0.attempts[a][b] + n,
        forall|a: int, b: int|
            0 <= a < t0.correct.len() && 0 <= b < t0.correct[a].len() ==> (#[trigger] agg_upto(
                t0,
                names,
                m,
                records,
                n,
            ).correct[a][b]) <= t0.correct[a][b] + n,
        forall|a: int, b: int|
            0 <= a < t0.bonus_attempts.len() && 0 <= b < t0.bonus_attempts[a].len() ==> (
            #[trigger] agg_upto(t0, names, m, records, n).bonus_attempts[a][b])
                <= t0.bonus_attempts[a][b] + n,
        forall|a: int, b: int|
            0 <= a < t0.bonus_correct.len() && 0 <= b < t0.bonus_correct[a].len() ==> (
            #[trigger] agg_upto(t0, names, m, records, n).bonus_correct[a][b])
                <= t0.bonus_correct[a][b] + n,
    decreases n,
{
    if n > 0 {
        lemma_agg_dims_and_bound(t0, names, m, records, n - 1);
    }
}

/// The matrix row a record addresses.
pub open spec fn step_row(names: Seq<Seq<char>>, r: Seq<Seq<char>>) -> int {
    quizzer_row(names, quizzer_of(r))
}

/// The matrix column a record addresses.
pub open spec fn step_col(m: Seq<(Seq<char>, Seq<char>)>, r: Seq<Seq<char>>) -> int {
    spec_type_index(qtype_of(r, rm_get(m, round_of(r))))
}

proof fn lemma_mat_inc_cells(m: Seq<Seq<u64>>, i: int, j: int)
    requires
        0 <= i < m.len(),
        0 <= j < m[i].len(),
        m[i][j] < u64::MAX,
    ensures
        mat_inc(m, i, j).len() == m.len(),
        forall|a: int| 0 <= a < m.len() ==> (#[trigger] mat_inc(m, i, j)[a]).len() == m[a].len(),
        mat_inc(m, i, j)[i][j] == m[i][j] + 1,
        forall|a: int, b: int|
            0 <= a < m.len() && 0 <= b < m[a].len() && !(a == i && b == j) ==> (#[trigger] mat_inc(
                m,
                i,
                j,
            )[a][b]) == m[a][b],
{
}

/// Every record whose round the map defines changes exactly one cell, in
/// exactly the matrices its event code implies: a correct team answer adds
/// one attempt and one correct answer at the record's cell, a team error
/// one attempt only, a correct bonus one bonus attempt and one bonus
/// conversion, a bonus error one bonus attempt only; every other cell of
/// every matrix is unchanged.
pub proof fn lemma_accepted_record_effect(
    t: TallyView,
    names: Seq<Seq<char>>,
    m: Seq<(Seq<char>, Seq<char>)>,
    r: Seq<Seq<char>>,
)
    requires
        rm_contains(m, round_of(r)),
        0 <= step_row(names, r) < t.attempts.len(),
        t.correct.len() == t.attempts.len(),
        t.bonus_attempts.len() == t.attempts.len(),
        t.bonus_correct.len() == t.attempts.len(),
        forall|a: int| 0 <= a < t.attempts.len() ==> (#[trigger] t.attempts[a]).len() == qtype_count(),
        forall|a: int| 0 <= a < t.attempts.len() ==> (#[trigger] t.correct[a]).len() == qtype_count(),
        forall|a: int|
            0 <= a < t.attempts.len() ==> (#[trigger] t.bonus_attempts[a]).len() == qtype_count(),
        forall|a: int|
            0 <= a < t.attempts.len() ==> (#[trigger] t.bonus_correct[a]).len() == qtype_count(),
        forall|a: int, b: int|
            0 <= a < t.attempts.len() && 0 <= b < qtype_count() ==> #[trigger] t.attempts[a][b]
                < u64::MAX && t.correct[a][b] < u64::MAX && t.bonus_attempts[a][b] < u64::MAX
                && t.bonus_correct[a][b] < u64::MAX,
    ensures
        ({
            let out = agg_step(t, names, m, r);
            let i = step_row(names, r);
            let j = step_col(m, r);
            &&& event_code_of(r) == "'TC'"@ ==> {
                &&& out.attempts[i][j] == t.attempts[i][j] + 1
                &&& out.correct[i][j] == t.correct[i][j] + 1
                &&& out.bonus_attempts == t.bonus_attempts
                &&& out.bonus_correct == t.bonus_correct
                &&& forall|a: int, b: int|
                    0 <= a < t.attempts.len() && 0 <= b < qtype_count() && !(a == i && b == j)
                        ==> #[trigger] out.attempts[a][b] == t.attempts[a][b] && out.correct[a][b]
                        == t.correct[a][b]
            }
            &&& event_code_of(r) == "'TE'"@ ==> {
                &&& out.attempts[i][j] == t.attempts[i][j] + 1
                &&& out.correct == t.correct
                &&& out.bonus_attempts == t.bonus_attempts
                &&& out.bonus_correct == t.bonus_correct
                &&& forall|a: int, b: int|
                    0 <= a < t.attempts.len() && 0 <= b < qtype_count() && !(a == i && b == j)
                        ==> #[trigger] out.attempts[a][b] == t.attempts[a][b]
            }
            &&& event_code_of(r) == "'BC'"@ ==> {
                &&& out.bonus_attempts[i][j] == t.bonus_attempts[i][j] + 1
                &&& out.bonus_correct[i][j] == t.bonus_correct[i][j] + 1
                &&& out.attempts == t.attempts
                &&& out.correct == t.correct
                &&& forall|a: int, b: int|
                    0 <= a < t.attempts.len() && 0 <= b < qtype_count() && !(a == i && b == j)
                        ==> #[trigger] out.bonus_attempts[a][b] == t.bonus_attempts[a][b]
                        && out.bonus_correct[a][b] == t.bonus_correct[a][b]
            }
            &&& event_code_of(r) == "'BE'"@ ==> {
                &&& out.bonus_attempts[i][j] == t.bonus_attempts[i][j] + 1
                &&& out.attempts == t.attempts
                &&& out.correct == t.correct
                &&& out.bonus_correct == t.bonus_correct
                &&& forall|a: int, b: int|
                    0 <= a < t.attempts.len() && 0 <= b < qtype_count() && !(a == i && b == j)
                        ==> #[trigger] out.bonus_attempts[a][b] == t.bonus_attempts[a][b]
            }
        }),
{
    let i = step_row(names, r);
    let j = step_col(m, r);
    if names.contains(quizzer_of(r)) {
        lemma_first_name_index(names, quizzer_of(r));
    }
    crate::types::lemma_type_index_in_range(qtype_of(r, rm_get(m, round_of(r))));
    reveal_strlit("'TC'");
    reveal_strlit("'TE'");
    reveal_strlit("'BC'");
    reveal_strlit("'BE'");
    assert("'TC'"@ != "'TE'"@) by {
        assert("'TC'"@[2] != "'TE'"@[2]);
    }
    assert("'TC'"@ != "'BC'"@) by {
        assert("'TC'"@[1] != "'BC'"@[1]);
    }
    assert("'TC'"@ != "'BE'"@) by {
        assert("'TC'"@[1] != "'BE'"@[1]);
    }
    assert("'TE'"@ != "'BC'"@) by {
        assert("'TE'"@[1] != "'BC'"@[1]);
    }
    assert("'TE'"@ != "'BE'"@) by {
        assert("'TE'"@[1] != "'BE'"@[1]);
    }
    assert("'BC'"@ != "'BE'"@) by {
        assert("'BC'"@[2] != "'BE'"@[2]);
    }
    if event_code_of(r) == "'TC'"@ {
        lemma_mat_inc_cells(t.attempts, i, j);
        lemma_mat_inc_cells(t.correct, i, j);
    } else if event_code_of(r) == "'TE'"@ {
        lemma_mat_inc_cells(t.attempts, i, j);
    } else if event_code_of(r) == "'BC'"@ {
        lemma_mat_inc_cells(t.bonus_attempts, i, j);
        lemma_mat_inc_cells(t.bonus_correct, i, j);
    } else if event_code_of(r) == "'BE'"@ {
        lemma_mat_inc_cells(t.bonus_attempts, i, j);
    }
}

/// A record whose round identifier the map does not define changes no
/// matrix cell.
pub proof fn lemma_missing_round_skips(
    t: TallyView,
    names: Seq<Seq<char>>,
    m: Seq<(Seq<char>, Seq<char>)>,
    r: Seq<Seq<char>>,
)
    requires
        !rm_contains(m, round_of(r)),
    ensures
        agg_step(t, names, m, r) == t,
{
}

/// The missing-rounds list holds each unknown identifier that any record
/// references, and holds no identifier twice, however many records
/// reference it.
pub proof fn lemma_missing_collects_once(
    m: Seq<(Seq<char>, Seq<char>)>,
    records: Seq<Seq<Seq<char>>>,
    n: int,
)
    requires
        0 <= n <= records.len(),
    ensures
        missing_upto(m, records, n).no_duplicates(),
        forall|k: int|
            0 <= k < n && !rm_contains(m, round_of(#[trigger] records[k])) ==> missing_upto(
                m,
                records,
                n,
            ).contains(round_of(records[k])),
        forall|x: Seq<char>|
            missing_upto(m, records, n).contains(x) ==> !rm_contains(m, x),
    decreases n,
{
    if n > 0 {
        lemma_missing_collects_once(m, records, n - 1);
        let prev = missing_upto(m, records, n - 1);
        let rd = round_of(records[n - 1]);
        let cur = missing_upto(m, records, n);
        if !rm_contains(m, rd) && !prev.contains(rd) {
            assert forall|x: Seq<char>| cur.contains(x) implies !rm_contains(m, x) by {
                let ix = choose|ix: int| 0 <= ix < cur.len() && cur[ix] == x;
                if ix < prev.len() {
                    assert(prev.contains(x));
                }
            }
            assert forall|k: int|
                0 <= k < n && !rm_contains(m, round_of(#[trigger] records[k])) implies cur.contains(
                round_of(records[k]),
            ) by {
                if k < n - 1 {
                    assert(prev.contains(round_of(records[k])));
                    let ix = choose|ix: int|
                        0 <= ix < prev.len() && prev[ix] == round_of(records[k]);
                    assert(cur[ix] == round_of(records[k]));
                } else {
                    assert(cur.last() == rd);
                }
            }
        } else {
            if !rm_contains(m, rd) {
                assert(prev.contains(rd));
            }
        }
    }
}

/// Any unknown round identifier that some record references appears
/// exactly once in the sorted list of the skipped-rounds warning.
pub proof fn lemma_missing_round_warned_once(
    m: Seq<(Seq<char>, Seq<char>)>,
    records: Seq<Seq<Seq<char>>>,
    rd: Seq<char>,
)
    requires
        !rm_contains(m, rd),
        exists|k: int| 0 <= k < records.len() && round_of(#[trigger] records[k]) == rd,
    ensures
        sort_lex(missing_all(m, records)).to_multiset().count(rd) == 1,
{
    broadcast use vstd::seq_lib::group_to_multiset_ensures;

    let ms = missing_all(m, records);
    lemma_missing_collects_once(m, records, records.len() as int);
    let k = choose|k: int| 0 <= k < records.len() && round_of(#[trigger] records[k]) == rd;
    assert(ms.contains(rd));
    ms.lemma_multiset_has_no_duplicates();
    crate::text::lemma_sort_lex_multiset(ms);
}

/// Whether the vector holds the string.
fn contains_string(v: &Vec<String>, x: &str) -> (b: bool)
    ensures
        b == v.deep_view().contains(x@),
{
    let n = v.len();
    let mut i: usize = 0;
    while i < n
        invariant
            n == v@.len(),
            i <= n,
            forall|j: int| 0 <= j < i ==> v.deep_view()[j] != x@,
        decreases n - i,
    {
        if str_eq(v[i].as_str(), x) {
            proof {
                assert(v.deep_view()[i as int] == x@);
            }
            return true;
        }
        i = i + 1;
    }
    false
}

/// The matrix row of a quizzer name.
fn quizzer_row_exec(names: &Vec<String>, nm: &str) -> (i: usize)
    ensures
        i as int == quizzer_row(names.deep_view(), nm@),
        names.deep_view().contains(nm@) ==> i < names@.len(),
        !names.deep_view().contains(nm@) ==> i == 0,
{
    let n = names.len();
    let mut i: usize = 0;
    while i < n
        invariant
            n == names@.len(),
            i <= n,
            forall|j: int| 0 <= j < i ==> names.deep_view()[j] != nm@,
        decreases n - i,
    {
        if str_eq(names[i].as_str(), nm) {
            proof {
                assert(names.deep_view()[i as int] == nm@);
                lemma_first_name_index(names.deep_view(), nm@);
            }
            return i;
        }
        i = i + 1;
    }
    proof {
        assert(!names.deep_view().contains(nm@));
    }
    0
}

/// Adds one to a cell.
fn mat_inc_exec(m: &mut Vec<Vec<u64>>, i: usize, j: usize)
    requires
        i < old(m)@.len(),
        j < old(m)@[i as int]@.len(),
        old(m).deep_view()[i as int][j as int] < u64::MAX,
    ensures
        final(m).deep_view() == mat_inc(old(m).deep_view(), i as int, j as int),
{
    let v: u64 = m[i][j];
    m[i][j] = v + 1;
    proof {
        let dv = old(m).deep_view();
        let goal = mat_inc(dv, i as int, j as int);
        assert forall|k: int| 0 <= k < m@.len() implies m.deep_view()[k] == goal[k] by {
            if k == i as int {
                assert(m.deep_view()[k] =~= dv[k].update(j as int, ((dv[k][j as int] + 1) as u64)));
            } else {
                assert(m.deep_view()[k] == dv[k]);
            }
        }
        assert(m.deep_view() =~= goal);
    }
}

/// The quoted, comma-separated identifier list of the warning.
fn quoted_list_exec(v: &Vec<String>) -> (s: String)
    ensures
        s@ == quoted_list(v.deep_view()),
{
    let mut s = String::new();
    let n = v.len();
    let mut i: usize = 0;
    proof {
        assert(s@ =~= quoted_list(v.deep_view().take(0)));
    }
    while i < n
        invariant
            n == v@.len(),
            i <= n,
            s@ == quoted_list(v.deep_view().take(i as int)),
        decreases n - i,
    {
        if i > 0 {
            s.append(", ");
        }
        let escaped = escape_id(v[i].as_str());
        s.append("\"");
        s.append(escaped.as_str());
        s.append("\"");
        i = i + 1;
        proof {
            let dv = v.deep_view();
            let cur = dv.take(i as int);
            assert(cur.drop_last() =~= dv.take(i - 1));
            assert(cur.last() == dv[i - 1]);
            assert(s@ =~= quoted_list(cur));
        }
    }
    proof {
        assert(v.deep_view().take(n as int) =~= v.deep_view());
    }
    s
}

/// The skipped-rounds warning line for a sorted identifier list.
fn skipped_rounds_line(sorted: &Vec<String>) -> (s: String)
    ensures
        s@ == skipped_line(sorted.deep_view()),
{
    let mut s = String::from_str("Skipped Rounds: [");
    let q = quoted_list_exec(sorted);
    s.append(q.as_str());
    s.append("]");
    proof {
        assert(s@ =~= skipped_line(sorted.deep_view()));
    }
    s
}

/// Walks the records once, incrementing the matrices as each record's event
/// code commands, skipping records of unknown rounds, and appending the
/// missing-rounds warning batch when any round went unresolved.
pub fn update_arrays(
    warns: &mut Vec<String>,
    records: &Vec<Vec<String>>,
    quizzer_names: &Vec<String>,
    question_types: &RoundMap,
    attempts: &mut Vec<Vec<u64>>,
    correct_answers: &mut Vec<Vec<u64>>,
    bonus_attempts: &mut Vec<Vec<u64>>,
    bonus: &mut Vec<Vec<u64>>,
)
    requires
        old(attempts)@.len() == quizzer_names@.len(),
        old(correct_answers)@.len() == quizzer_names@.len(),
        old(bonus_attempts)@.len() == quizzer_names@.len(),
        old(bonus)@.len() == quizzer_names@.len(),
        forall|a: int|
            0 <= a < quizzer_names@.len() ==> (#[trigger] old(attempts).deep_view()[a]).len()
                == qtype_count(),
        forall|a: int|
            0 <= a < quizzer_names@.len() ==> (#[trigger] old(correct_answers).deep_view()[a]).len()
                == qtype_count(),
        forall|a: int|
            0 <= a < quizzer_names@.len() ==> (#[trigger] old(bonus_attempts).deep_view()[a]).len()
                == qtype_count(),
        forall|a: int|
            0 <= a < quizzer_names@.len() ==> (#[trigger] old(bonus).deep_view()[a]).len()
                == qtype_count(),
        forall|a: int, b: int|
            0 <= a < quizzer_names@.len() && 0 <= b < qtype_count() ==> (#[trigger] old(
                attempts,
            ).deep_view()[a][b]) + records@.len() <= u64::MAX,
        forall|a: int, b: int|
            0 <= a < quizzer_names@.len() && 0 <= b < qtype_count() ==> (#[trigger] old(
                correct_answers,
            ).deep_view()[a][b]) + records@.len() <= u64::MAX,
        forall|a: int, b: int|
            0 <= a < quizzer_names@.len() && 0 <= b < qtype_count() ==> (#[trigger] old(
                bonus_attempts,
            ).deep_view()[a][b]) + records@.len() <= u64::MAX,
        forall|a: int, b: int|
            0 <= a < quizzer_names@.len() && 0 <= b < qtype_count() ==> (#[trigger] old(
                bonus,
            ).deep_view()[a][b]) + records@.len() <= u64::MAX,
        forall|k: int|
            0 <= k < records@.len() && rm_contains(
                question_types@,
                round_of(#[trigger] records.deep_view()[k]),
            ) ==> quizzer_names@.len() > 0,
    ensures
        final(attempts).deep_view() == agg_all(
            (TallyView {
                attempts: old(attempts).deep_view(),
                correct: old(correct_answers).deep_view(),
                bonus_attempts: old(bonus_attempts).deep_view(),
                bonus_correct: old(bonus).deep_view(),
            }),
            quizzer_names.deep_view(),
            question_types@,
            records.deep_view(),
        ).attempts,
        final(correct_answers).deep_view() == agg_all(
            (TallyView {
                attempts: old(attempts).deep_view(),
                correct: old(correct_answers).deep_view(),
                bonus_attempts: old(bonus_attempts).deep_view(),
                bonus_correct: old(bonus).deep_view(),
            }),
            quizzer_names.deep_view(),
            question_types@,
            records.deep_view(),
        ).correct,
        final(bonus_attempts).deep_view() == agg_all(
            (TallyView {
                attempts: old(attempts).deep_view(),
                correct: old(correct_answers).deep_view(),
                bonus_attempts: old(bonus_attempts).deep_view(),
                bonus_correct: old(bonus).deep_view(),
            }),
            quizzer_names.deep_view(),
            question_types@,
            records.deep_view(),
        ).bonus_attempts,
        final(bonus).deep_view() == agg_all(
            (TallyView {
                attempts: old(attempts).deep_view(),
                correct: old(correct_answers).deep_view(),
                bonus_attempts: old(bonus_attempts).deep_view(),
                bonus_correct: old(bonus).deep_view(),
            }),
            quizzer_names.deep_view(),
            question_types@,
            records.deep_view(),
        ).bonus_correct,
        final(warns).deep_view() == old(warns).deep_view() + missing_warnings(
            missing_all(question_types@, records.deep_view()),
        ),
{
    let ghost t0 = TallyView {
        attempts: attempts.deep_view(),
        correct: correct_answers.deep_view(),
        bonus_attempts: bonus_attempts.deep_view(),
        bonus_correct: bonus.deep_view(),
    };
    let ghost names = quizzer_names.deep_view();
    let ghost map = question_types@;
    let ghost recs = records.deep_view();

    let mut missing: Vec<String> = Vec::new();
    let n = records.len();
    let mut i: usize = 0;
    proof {
        assert(missing.deep_view() =~= missing_upto(map, recs, 0));
    }
    while i < n
        invariant
            n == records@.len(),
            i <= n,
            recs == records.deep_view(),
            names == quizzer_names.deep_view(),
            map == question_types@,
            t0.attempts.len() == quizzer_names@.len(),
            t0.correct.len() == quizzer_names@.len(),
            t0.bonus_attempts.len() == quizzer_names@.len(),
            t0.bonus_correct.len() == quizzer_names@.len(),
            forall|a: int|
                0 <= a < quizzer_names@.len() ==> (#[trigger] t0.attempts[a]).len() == qtype_count(),
            forall|a: int|
                0 <= a < quizzer_names@.len() ==> (#[trigger] t0.correct[a]).len() == qtype_count(),
            forall|a: int|
                0 <= a < quizzer_names@.len() ==> (#[trigger] t0.bonus_attempts[a]).len()
                    == qtype_count(),
            forall|a: int|
                0 <= a < quizzer_names@.len() ==> (#[trigger] t0.bonus_correct[a]).len()
                    == qtype_count(),
            forall|a: int, b: int|
                0 <= a < quizzer_names@.len() && 0 <= b < qtype_count() ==> (#[trigger] t0.attempts[a][b])
                    + n <= u64::MAX,
            forall|a: int, b: int|
                0 <= a < quizzer_names@.len() && 0 <= b < qtype_count() ==> (#[trigger] t0.correct[a][b])
                    + n <= u64::MAX,
            forall|a: int, b: int|
                0 <= a < quizzer_names@.len() && 0 <= b < qtype_count() ==> (
                #[trigger] t0.bonus_attempts[a][b]) + n <= u64::MAX,
            forall|a: int, b: int|
                0 <= a < quizzer_names@.len() && 0 <= b < qtype_count() ==> (
                #[trigger] t0.bonus_correct[a][b]) + n <= u64::MAX,
            forall|k: int|
                0 <= k < n && rm_contains(map, round_of(#[trigger] recs[k])) ==> quizzer_names@.len()
                    > 0,
            attempts.deep_view() == agg_upto(t0, names, map, recs, i as int).attempts,
            correct_answers.deep_view() == agg_upto(t0, names, map, recs, i as int).correct,
            bonus_attempts.deep_view() == agg_upto(t0, names, map, recs, i as int).bonus_attempts,
            bonus.deep_view() == agg_upto(t0, names, map, recs, i as int).bonus_correct,
            missing.deep_view() == missing_upto(map, recs, i as int),
        decreases n - i,
    {
        let r = &records[i];
        proof {
            assert(recs[i as int] == records@[i as int].deep_view());
        }
        let ghost rec = recs[i as int];
        let ghost t_prev = agg_upto(t0, names, map, recs, i as int);
        proof {
            lemma_agg_dims_and_bound(t0, names, map, recs, i as int);
        }
        let rnd = field_of(r, 4);
        match question_types.get(rnd) {
            None => {
                if !contains_string(&missing, rnd) {
                    let owned = String::from_str(rnd);
                    missing.push(owned);
                    proof {
                        assert(missing.deep_view() =~= missing_upto(map, recs, i as int).push(
                            round_of(rec),
                        ));
                    }
                }
            },
            Some(types) => {
                let code = field_of(r, 10);
                let qname = field_of(r, 7);
                let qfield = field_of(r, 5);
                let qv = trim_quotes_chars(qfield);
                let qn = parse_chars_or(&qv, 1);
                proof {
                    assert(qn as int == qnum_of(rec));
                }
                let qi = quizzer_row_exec(quizzer_names, qname);
                let ty: char = if qn == 21 {
                    'G'
                } else if qn >= 1 && qn - 1 < types.len() {
                    types[qn - 1]
                } else {
                    'G'
                };
                proof {
                    assert(ty == qtype_of(rec, rm_get(map, round_of(rec))));
                }
                let ti = type_index(ty);
                proof {
                    assert(quizzer_names@.len() > 0);
                    assert(qi < quizzer_names@.len());
                    assert(qi as int == quizzer_row(names, quizzer_of(rec)));
                    assert(ti as int == spec_type_index(qtype_of(rec, rm_get(map, round_of(rec)))));
                    assert(t_prev.attempts[qi as int].len() == qtype_count());
                    assert(t_prev.correct[qi as int].len() == qtype_count());
                    assert(t_prev.bonus_attempts[qi as int].len() == qtype_count());
                    assert(t_prev.bonus_correct[qi as int].len() == qtype_count());
                    assert(attempts@[qi as int]@.len() == attempts.deep_view()[qi as int].len());
                    assert(correct_answers@[qi as int]@.len() == correct_answers.deep_view()[
                        qi as int
                    ].len());
                    assert(bonus_attempts@[qi as int]@.len() == bonus_attempts.deep_view()[
                        qi as int
                    ].len());
                    assert(bonus@[qi as int]@.len() == bonus.deep_view()[qi as int].len());
                    assert(t_prev.attempts[qi as int][ti as int] <= t0.attempts[qi as int][
                        ti as int
                    ] + i);
                    assert(t_prev.correct[qi as int][ti as int] <= t0.correct[qi as int][ti as int]
                        + i);
                    assert(t_prev.bonus_attempts[qi as int][ti as int] <= t0.bonus_attempts[
                        qi as int
                    ][ti as int] + i);
                    assert(t_prev.bonus_correct[qi as int][ti as int] <= t0.bonus_correct[
                        qi as int
                    ][ti as int] + i);
                }
                if str_eq(code, "'TC'") {
                    mat_inc_exec(attempts, qi, ti);
                    mat_inc_exec(correct_answers, qi, ti);
                } else if str_eq(code, "'TE'") {
                    mat_inc_exec(attempts, qi, ti);
                } else if str_eq(code, "'BC'") {
                    mat_inc_exec(bonus_attempts, qi, ti);
                    mat_inc_exec(bonus, qi, ti);
                } else if str_eq(code, "'BE'") {
                    mat_inc_exec(bonus_attempts, qi, ti);
                }
            },
        }
        i = i + 1;
        proof {
            assert(agg_upto(t0, names, map, recs, i as int) == agg_step(t_prev, names, map, rec));
            assert(attempts.deep_view() == agg_upto(t0, names, map, recs, i as int).attempts);
            assert(correct_answers.deep_view() == agg_upto(t0, names, map, recs, i as int).correct);
            assert(bonus_attempts.deep_view() == agg_upto(
                t0,
                names,
                map,
                recs,
                i as int,
            ).bonus_attempts);
            assert(bonus.deep_view() == agg_upto(t0, names, map, recs, i as int).bonus_correct);
            assert(missing.deep_view() == missing_upto(map, recs, i as int));
        }
    }
    if missing.len() > 0 {
        let w1 = String::from_str("Warning: Some records were skipped due to missing question sets");
        warns.push(w1);
        let sorted = sort_strings(missing);
        let line = skipped_rounds_line(&sorted);
        warns.push(line);
        let w3 = String::from_str(
            "If your question sets are not named correctly, please rename them to match the round numbers in the quiz data file",
        );
        warns.push(w3);
        proof {
            assert(warns.deep_view() =~= old(warns).deep_view() + missing_warnings(
                missing_all(map, recs),
            ));
        }
    } else {
        proof {
            assert(warns.deep_view() =~= old(warns).deep_view() + missing_warnings(
                missing_all(map, recs),
            ));
        }
    }
}

} // verus!
