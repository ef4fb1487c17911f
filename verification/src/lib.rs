//! Per-quizzer performance statistics for a quiz competition.
//!
//! The library reconciles two inputs that arrive as plain text: rich-text
//! question-set documents, which define the ordered question-type codes of
//! each round, and a headerless delimited event log of judged answers. It
//! classifies every judged event by question type and aggregates per-quizzer
//! counts of attempts, correct answers, bonus attempts and bonus conversions
//! into a delimited report, alongside data-quality warnings.

pub mod aggregate;
pub mod quizzers;
pub mod records;
pub mod report;
pub mod roundmap;
pub mod rtf;
pub mod text;
pub mod types;

use vstd::prelude::*;

verus! {

use crate::aggregate::{agg_all, missing_all, missing_warnings, update_arrays, TallyView};
use crate::quizzers::{get_quizzer_names, lemma_names_cover_records, quizzer_names_spec};
use crate::records::{csv_rows_of, filter_judged, filter_records, parse_csv_records, round_of};
use crate::report::{build_results, report_spec};
use crate::roundmap::{rm_contains, RoundMap};
use crate::rtf::{doc_map, extract_round_types};
use crate::types::qtype_count;

/// The collision warning naming a round identifier defined twice.
pub open spec fn dup_warn(k: Seq<char>) -> Seq<char> {
    "Warning: Duplicate question set number: "@ + k + ", using only the first."@
}

/// One document entry folded into the merged map: an identifier already
/// present keeps its first definition and is diagnosed; a new one is
/// appended.
pub open spec fn merge_step(
    m: Seq<(Seq<char>, Seq<char>)>,
    warns: Seq<Seq<char>>,
    e: (Seq<char>, Seq<char>),
) -> (Seq<(Seq<char>, Seq<char>)>, Seq<Seq<char>>) {
    if rm_contains(m, e.0) {
        (m, warns.push(dup_warn(e.0)))
    } else {
        (m.push(e), warns)
    }
}

/// When a later document defines a round identifier that the merged map
/// already holds, the first definition is kept unchanged, and the
/// collision warning appended to the list names exactly that identifier.
pub proof fn lemma_first_definition_wins(
    m: Seq<(Seq<char>, Seq<char>)>,
    warns: Seq<Seq<char>>,
    e: (Seq<char>, Seq<char>),
)
    requires
        rm_contains(m, e.0),
    ensures
        merge_step(m, warns, e).0 == m,
        crate::roundmap::rm_get(merge_step(m, warns, e).0, e.0) == crate::roundmap::rm_get(m, e.0),
        merge_step(m, warns, e).1 == warns.push(dup_warn(e.0)),
        dup_warn(e.0) == "Warning: Duplicate question set number: "@ + e.0
            + ", using only the first."@,
{
}

/// The first `n` entries of one document's map merged in.
pub open spec fn merge_entries(
    m: Seq<(Seq<char>, Seq<char>)>,
    warns: Seq<Seq<char>>,
    doc: Seq<(Seq<char>, Seq<char>)>,
    n: int,
) -> (Seq<(Seq<char>, Seq<char>)>, Seq<Seq<char>>)
    decreases n,
{
    if n <= 0 {
        (m, warns)
    } else {
        let p = merge_entries(m, warns, doc, n - 1);
        merge_step(p.0, p.1, doc[n - 1])
    }
}

/// The merged round map and collision warnings of the first `n` documents,
/// processed in order, first definition winning.
pub open spec fn merge_docs(docs: Seq<Seq<char>>, n: int) -> (
    Seq<(Seq<char>, Seq<char>)>,
    Seq<Seq<char>>,
)
    decreases n,
{
    if n <= 0 {
        (Seq::empty(), Seq::empty())
    } else {
        let p = merge_docs(docs, n - 1);
        let dm = doc_map(docs[n - 1]);
        merge_entries(p.0, p.1, dm, dm.len() as int)
    }
}

/// Merging entries never moves or rewrites an identifier the map already
/// holds.
proof fn lemma_merge_entries_preserves(
    m: Seq<(Seq<char>, Seq<char>)>,
    warns: Seq<Seq<char>>,
    doc: Seq<(Seq<char>, Seq<char>)>,
    n: int,
    r: Seq<char>,
)
    requires
        0 <= n,
        rm_contains(m, r),
    ensures
        rm_contains(merge_entries(m, warns, doc, n).0, r),
        crate::roundmap::rm_get(merge_entries(m, warns, doc, n).0, r)
            == crate::roundmap::rm_get(m, r),
    decreases n,
{
    if n > 0 {
        lemma_merge_entries_preserves(m, warns, doc, n - 1, r);
        let p = merge_entries(m, warns, doc, n - 1);
        if !rm_contains(p.0, doc[n - 1].0) {
            crate::roundmap::lemma_rm_push_preserves(p.0, doc[n - 1], r);
        }
    }
}

/// The merged entries hold an identifier exactly when the map already held
/// it or one of the merged entries carries it.
proof fn lemma_merge_entries_contains(
    m: Seq<(Seq<char>, Seq<char>)>,
    warns: Seq<Seq<char>>,
    doc: Seq<(Seq<char>, Seq<char>)>,
    n: int,
    r: Seq<char>,
)
    requires
        0 <= n,
    ensures
        rm_contains(merge_entries(m, warns, doc, n).0, r) <==> (rm_contains(m, r) || exists|i: int|
            0 <= i < n && (#[trigger] doc[i]).0 == r),
    decreases n,
{
    if n > 0 {
        lemma_merge_entries_contains(m, warns, doc, n - 1, r);
        let p = merge_entries(m, warns, doc, n - 1);
        if !rm_contains(p.0, doc[n - 1].0) {
            crate::roundmap::lemma_rm_contains_push(p.0, doc[n - 1], r);
        }
        if doc[n - 1].0 == r {
            assert(rm_contains(merge_entries(m, warns, doc, n).0, r)) by {
                if rm_contains(p.0, doc[n - 1].0) {
                } else {
                    crate::roundmap::lemma_rm_contains_push(p.0, doc[n - 1], r);
                }
            }
        }
    }
}

/// Merging a well-formed document map that carries a fresh identifier
/// binds the identifier to that document's type codes.
proof fn lemma_merge_entries_new_key(
    m: Seq<(Seq<char>, Seq<char>)>,
    warns: Seq<Seq<char>>,
    doc: Seq<(Seq<char>, Seq<char>)>,
    n: int,
    r: Seq<char>,
)
    requires
        0 <= n <= doc.len(),
        !rm_contains(m, r),
        crate::roundmap::rm_wf(doc),
        exists|i: int| 0 <= i < n && (#[trigger] doc[i]).0 == r,
    ensures
        rm_contains(merge_entries(m, warns, doc, n).0, r),
        crate::roundmap::rm_get(merge_entries(m, warns, doc, n).0, r)
            == crate::roundmap::rm_get(doc, r),
    decreases n,
{
    let p = merge_entries(m, warns, doc, n - 1);
    let e = doc[n - 1];
    if exists|i: int| 0 <= i < n - 1 && (#[trigger] doc[i]).0 == r {
        lemma_merge_entries_new_key(m, warns, doc, n - 1, r);
        if !rm_contains(p.0, e.0) {
            crate::roundmap::lemma_rm_push_preserves(p.0, e, r);
        }
    } else {
        assert(e.0 == r) by {
            let i = choose|i: int| 0 <= i < n && (#[trigger] doc[i]).0 == r;
            assert(doc[i].0 == r);
        }
        lemma_merge_entries_contains(m, warns, doc, n - 1, r);
        assert(!rm_contains(p.0, r));
        crate::roundmap::lemma_rm_push_new(p.0, e);
        assert(crate::roundmap::rm_get(doc, r) == e.1) by {
            crate::roundmap::lemma_rm_first_index(doc, r);
            let fi = crate::roundmap::rm_first_index(doc, r);
            if fi < n - 1 {
                assert(doc[fi].0 == r);
            }
            assert(fi == n - 1);
        }
    }
}

/// A warning once in the list stays in it as entries merge.
proof fn lemma_merge_entries_warns_keep(
    m: Seq<(Seq<char>, Seq<char>)>,
    warns: Seq<Seq<char>>,
    doc: Seq<(Seq<char>, Seq<char>)>,
    n: int,
    x: Seq<char>,
)
    requires
        0 <= n,
        warns.contains(x),
    ensures
        merge_entries(m, warns, doc, n).1.contains(x),
    decreases n,
{
    if n > 0 {
        lemma_merge_entries_warns_keep(m, warns, doc, n - 1, x);
        let p = merge_entries(m, warns, doc, n - 1);
        if rm_contains(p.0, doc[n - 1].0) {
            let i = choose|i: int| 0 <= i < p.1.len() && p.1[i] == x;
            assert(p.1.push(dup_warn(doc[n - 1].0))[i] == x);
        }
    }
}

/// Merging a document entry whose identifier the map already holds pushes
/// the collision warning naming that identifier.
proof fn lemma_merge_entries_warns_dup(
    m: Seq<(Seq<char>, Seq<char>)>,
    warns: Seq<Seq<char>>,
    doc: Seq<(Seq<char>, Seq<char>)>,
    n: int,
    r: Seq<char>,
)
    requires
        0 <= n,
        rm_contains(m, r),
        exists|i: int| 0 <= i < n && (#[trigger] doc[i]).0 == r,
    ensures
        merge_entries(m, warns, doc, n).1.contains(dup_warn(r)),
    decreases n,
{
    let p = merge_entries(m, warns, doc, n - 1);
    let e = doc[n - 1];
    if exists|i: int| 0 <= i < n - 1 && (#[trigger] doc[i]).0 == r {
        lemma_merge_entries_warns_dup(m, warns, doc, n - 1, r);
        let i = choose|i: int| 0 <= i < p.1.len() && p.1[i] == dup_warn(r);
        if rm_contains(p.0, e.0) {
            assert(p.1.push(dup_warn(e.0))[i] == dup_warn(r));
        }
    } else {
        assert(e.0 == r) by {
            let i = choose|i: int| 0 <= i < n && (#[trigger] doc[i]).0 == r;
            assert(doc[i].0 == r);
        }
        lemma_merge_entries_preserves(m, warns, doc, n - 1, r);
        assert(rm_contains(p.0, e.0));
        let out = merge_entries(m, warns, doc, n).1;
        assert(out == p.1.push(dup_warn(r)));
        assert(out[out.len() - 1] == dup_warn(r));
    }
}

/// The merged map of the first `n` documents holds an identifier exactly
/// when one of those documents defines it.
pub proof fn lemma_merge_docs_contains(docs: Seq<Seq<char>>, n: int, r: Seq<char>)
    requires
        0 <= n <= docs.len(),
    ensures
        rm_contains(merge_docs(docs, n).0, r) <==> exists|d: int|
            0 <= d < n && rm_contains(doc_map(#[trigger] docs[d]), r),
    decreases n,
{
    if n > 0 {
        lemma_merge_docs_contains(docs, n - 1, r);
        let p = merge_docs(docs, n - 1);
        let dm = doc_map(docs[n - 1]);
        lemma_merge_entries_contains(p.0, p.1, dm, dm.len() as int, r);
        if rm_contains(merge_docs(docs, n).0, r) {
            if rm_contains(p.0, r) {
                let d = choose|d: int|
                    0 <= d < n - 1 && rm_contains(doc_map(#[trigger] docs[d]), r);
                assert(rm_contains(doc_map(docs[d]), r));
            } else {
                assert(rm_contains(doc_map(docs[n - 1]), r));
            }
        }
        if exists|d: int| 0 <= d < n && rm_contains(doc_map(#[trigger] docs[d]), r) {
            let d = choose|d: int| 0 <= d < n && rm_contains(doc_map(#[trigger] docs[d]), r);
            if d < n - 1 {
                assert(rm_contains(p.0, r));
            }
        }
    }
}

/// Across any number of documents, the first-parsed definition of a round
/// identifier is the one the merged map retains: a later document's
/// definition never overwrites it.
pub proof fn lemma_first_document_definition_retained(
    docs: Seq<Seq<char>>,
    n: int,
    d: int,
    r: Seq<char>,
)
    requires
        0 <= d < n <= docs.len(),
        rm_contains(doc_map(docs[d]), r),
        forall|e: int| 0 <= e < d ==> !rm_contains(doc_map(#[trigger] docs[e]), r),
    ensures
        rm_contains(merge_docs(docs, n).0, r),
        crate::roundmap::rm_get(merge_docs(docs, n).0, r)
            == crate::roundmap::rm_get(doc_map(docs[d]), r),
    decreases n,
{
    let p = merge_docs(docs, n - 1);
    let dm = doc_map(docs[n - 1]);
    if d < n - 1 {
        lemma_first_document_definition_retained(docs, n - 1, d, r);
        lemma_merge_entries_preserves(p.0, p.1, dm, dm.len() as int, r);
    } else {
        lemma_merge_docs_contains(docs, n - 1, r);
        assert(!rm_contains(p.0, r));
        crate::rtf::lemma_doc_map_wf(docs[d]);
        lemma_merge_entries_new_key(p.0, p.1, dm, dm.len() as int, r);
    }
}

/// When two documents define the same round identifier, the returned
/// warnings hold the collision warning naming it.
pub proof fn lemma_duplicate_definition_warned(
    docs: Seq<Seq<char>>,
    n: int,
    d1: int,
    d2: int,
    r: Seq<char>,
)
    requires
        0 <= d1 < d2 < n <= docs.len(),
        rm_contains(doc_map(docs[d1]), r),
        rm_contains(doc_map(docs[d2]), r),
    ensures
        merge_docs(docs, n).1.contains(dup_warn(r)),
    decreases n,
{
    let p = merge_docs(docs, n - 1);
    let dm = doc_map(docs[n - 1]);
    if d2 < n - 1 {
        lemma_duplicate_definition_warned(docs, n - 1, d1, d2, r);
        lemma_merge_entries_warns_keep(p.0, p.1, dm, dm.len() as int, dup_warn(r));
    } else {
        lemma_merge_docs_contains(docs, n - 1, r);
        assert(rm_contains(p.0, r));
        lemma_merge_entries_warns_dup(p.0, p.1, dm, dm.len() as int, r);
    }
}

/// The warning that the event log did not parse, with the reader's message.
pub open spec fn csv_warn(msg: Seq<char>) -> Seq<char> {
    "Quiz data contains formatting error: "@ + msg
}

/// The all-zero tally for `n` quizzers.
pub open spec fn zero_tally(n: int) -> TallyView {
    TallyView {
        attempts: Seq::new(n as nat, |i: int| Seq::new(qtype_count() as nat, |j: int| 0u64)),
        correct: Seq::new(n as nat, |i: int| Seq::new(qtype_count() as nat, |j: int| 0u64)),
        bonus_attempts: Seq::new(n as nat, |i: int| Seq::new(qtype_count() as nat, |j: int| 0u64)),
        bonus_correct: Seq::new(n as nat, |i: int| Seq::new(qtype_count() as nat, |j: int| 0u64)),
    }
}

/// Everything the engine computes from the document texts and the log
/// text: the data-quality warnings in emission order, and the report. A
/// log that fails to parse contributes zero records and no warning here:
/// that condition is surfaced apart, on the diagnostic channel.
pub open spec fn qperf_spec(docs: Seq<Seq<char>>, log: Seq<char>) -> (Seq<Seq<char>>, Seq<char>) {
    let mp = merge_docs(docs, docs.len() as int);
    let rows = match csv_rows_of(log) {
        Ok(rows) => rows,
        Err(m) => Seq::empty(),
    };
    let records = filter_judged(rows);
    let names = quizzer_names_spec(records);
    let t = agg_all(zero_tally(names.len() as int), names, mp.0, records);
    let warns = mp.1 + missing_warnings(missing_all(mp.0, records));
    (warns, report_spec(names, t, ","@))
}

/// The diagnostic of a log that did not parse, kept off the returned
/// warnings: the caller writes it to its diagnostic channel.
pub open spec fn qperf_diag(log: Seq<char>) -> Option<Seq<char>> {
    match csv_rows_of(log) {
        Ok(rows) => None,
        Err(m) => Some(csv_warn(m)),
    }
}

/// A copy of a round's type codes.
fn clone_chars(v: &Vec<char>) -> (out: Vec<char>)
    ensures
        out@ == v@,
{
    let mut out: Vec<char> = Vec::new();
    let n = v.len();
    let mut i: usize = 0;
    while i < n
        invariant
            n == v@.len(),
            i <= n,
            out@ == v@.take(i as int),
        decreases n - i,
    {
        out.push(v[i]);
        i = i + 1;
        proof {
            assert(out@ =~= v@.take(i as int));
        }
    }
    proof {
        assert(out@ =~= v@);
    }
    out
}

/// Folds one document's map into the merged map, keeping the first
/// definition of every identifier and warning on collisions.
fn merge_into(dst: &mut RoundMap, dm: &RoundMap, warns: &mut Vec<String>)
    requires
        old(dst).wf(),
    ensures
        final(dst)@ == merge_entries(old(dst)@, old(warns).deep_view(), dm@, dm@.len() as int).0,
        final(warns).deep_view() == merge_entries(
            old(dst)@,
            old(warns).deep_view(),
            dm@,
            dm@.len() as int,
        ).1,
        final(dst).wf(),
{
    let n = dm.len();
    let mut i: usize = 0;
    while i < n
        invariant
            n == dm@.len(),
            i <= n,
            dst@ == merge_entries(old(dst)@, old(warns).deep_view(), dm@, i as int).0,
            warns.deep_view() == merge_entries(old(dst)@, old(warns).deep_view(), dm@, i as int).1,
            dst.wf(),
        decreases n - i,
    {
        let (round, types) = dm.entry_at(i);
        if dst.contains(round.as_str()) {
            let w = String::from_str("Warning: Duplicate question set number: ").concat(
                round.as_str(),
            ).concat(", using only the first.");
            let ghost pre = warns.deep_view();
            warns.push(w);
            proof {
                assert(warns.deep_view() =~= pre.push(dup_warn(dm@[i as int].0)));
            }
        } else {
            dst.set(round.clone(), clone_chars(types));
        }
        i = i + 1;
        proof {
            let p = merge_entries(old(dst)@, old(warns).deep_view(), dm@, i - 1);
            assert(merge_entries(old(dst)@, old(warns).deep_view(), dm@, i as int) == merge_step(
                p.0,
                p.1,
                dm@[i - 1],
            ));
        }
    }
}

/// An all-zero count matrix with one row per quizzer.
fn zero_matrix(rows: usize) -> (m: Vec<Vec<u64>>)
    ensures
        m.deep_view() == Seq::new(
            rows as nat,
            |i: int| Seq::new(qtype_count() as nat, |j: int| 0u64),
        ),
{
    let mut m: Vec<Vec<u64>> = Vec::new();
    let mut i: usize = 0;
    while i < rows
        invariant
            i <= rows,
            m.deep_view() =~= Seq::new(
                i as nat,
                |a: int| Seq::new(qtype_count() as nat, |j: int| 0u64),
            ),
        decreases rows - i,
    {
        let mut row: Vec<u64> = Vec::new();
        let mut j: usize = 0;
        while j < 8
            invariant
                j <= 8,
                row@ =~= Seq::new(j as nat, |b: int| 0u64),
            decreases 8 - j,
        {
            row.push(0);
            j = j + 1;
            proof {
                assert(row@ =~= Seq::new(j as nat, |b: int| 0u64));
            }
        }
        let ghost pre = m.deep_view();
        m.push(row);
        i = i + 1;
        proof {
            let goal = Seq::new(i as nat, |a: int| Seq::new(qtype_count() as nat, |j2: int| 0u64));
            assert forall|k: int| 0 <= k < m@.len() implies m.deep_view()[k] == goal[k] by {
                if k < pre.len() {
                    assert(m.deep_view()[k] == pre[k]);
                } else {
                    assert(m.deep_view()[k] =~= Seq::new(qtype_count() as nat, |j2: int| 0u64));
                }
            }
            assert(m.deep_view() =~= goal);
        }
    }
    m
}

/// The whole engine: parses the question-set documents into one merged
/// round map, reads and filters the event log, enumerates the quizzers,
/// aggregates the counts, and renders the report. Returns the data-quality
/// warnings in emission order, the report text, and, apart from the
/// warnings, the diagnostic of a log that failed to parse.
pub fn qperformance(question_set_docs: &Vec<String>, quiz_data: &str) -> (r: (
    Vec<String>,
    String,
    Option<String>,
))
    ensures
        r.0.deep_view() == qperf_spec(question_set_docs.deep_view(), quiz_data@).0,
        r.1@ == qperf_spec(question_set_docs.deep_view(), quiz_data@).1,
        r.2.deep_view() == qperf_diag(quiz_data@),
{
    let ghost docs = question_set_docs.deep_view();
    let mut warns: Vec<String> = Vec::new();
    let mut map = RoundMap::new();
    let nd = question_set_docs.len();
    let mut d: usize = 0;
    proof {
        assert(map@ =~= merge_docs(docs, 0).0);
        assert(warns.deep_view() =~= merge_docs(docs, 0).1);
    }
    while d < nd
        invariant
            nd == question_set_docs@.len(),
            d <= nd,
            docs == question_set_docs.deep_view(),
            map@ == merge_docs(docs, d as int).0,
            warns.deep_view() == merge_docs(docs, d as int).1,
            map.wf(),
        decreases nd - d,
    {
        let dm = extract_round_types(question_set_docs[d].as_str());
        proof {
            assert(docs[d as int] == question_set_docs@[d as int]@);
        }
        merge_into(&mut map, &dm, &mut warns);
        d = d + 1;
    }
    let ghost mp = merge_docs(docs, docs.len() as int);
    let mut diag: Option<String> = None;
    let rows: Vec<Vec<String>> = match parse_csv_records(quiz_data) {
        Ok(rows) => rows,
        Err(m) => {
            let w = String::from_str("Quiz data contains formatting error: ").concat(m.as_str());
            diag = Some(w);
            Vec::new()
        },
    };
    proof {
        match csv_rows_of(quiz_data@) {
            Ok(v) => {
                assert(rows.deep_view() == v);
            },
            Err(m) => {
                assert(rows.deep_view() =~= Seq::<Seq<Seq<char>>>::empty());
            },
        }
        assert(diag.deep_view() == qperf_diag(quiz_data@));
    }
    let records = filter_records(rows);
    let ghost recs = records.deep_view();
    let quizzer_names = get_quizzer_names(&records);
    let ghost names = quizzer_names.deep_view();
    let nq = quizzer_names.len();
    let nrec = records.len();
    let mut attempts = zero_matrix(nq);
    let mut correct_answers = zero_matrix(nq);
    let mut bonus_attempts = zero_matrix(nq);
    let mut bonus = zero_matrix(nq);
    proof {
        assert(records@.len() == nrec);
        assert(nrec as u64 <= u64::MAX);
        assert(records@.len() <= u64::MAX);
        assert(attempts@.len() == attempts.deep_view().len());
        assert(correct_answers@.len() == correct_answers.deep_view().len());
        assert(bonus_attempts@.len() == bonus_attempts.deep_view().len());
        assert(bonus@.len() == bonus.deep_view().len());
        assert(attempts.deep_view().len() == nq);
        assert(correct_answers.deep_view().len() == nq);
        assert(bonus_attempts.deep_view().len() == nq);
        assert(bonus.deep_view().len() == nq);
        assert forall|k: int|
            0 <= k < records@.len() && rm_contains(
                map@,
                round_of(#[trigger] recs[k]),
            ) implies quizzer_names@.len() > 0 by {
            lemma_names_cover_records(recs, k);
        }
        assert forall|a: int, b: int|
            0 <= a < quizzer_names@.len() && 0 <= b < qtype_count() implies (
        #[trigger] attempts.deep_view()[a][b]) + records@.len() <= u64::MAX by {
            assert(attempts.deep_view()[a][b] == 0);
        }
        assert forall|a: int, b: int|
            0 <= a < quizzer_names@.len() && 0 <= b < qtype_count() implies (
        #[trigger] correct_answers.deep_view()[a][b]) + records@.len() <= u64::MAX by {
            assert(correct_answers.deep_view()[a][b] == 0);
        }
        assert forall|a: int, b: int|
            0 <= a < quizzer_names@.len() && 0 <= b < qtype_count() implies (
        #[trigger] bonus_attempts.deep_view()[a][b]) + records@.len() <= u64::MAX by {
            assert(bonus_attempts.deep_view()[a][b] == 0);
        }
        assert forall|a: int, b: int|
            0 <= a < quizzer_names@.len() && 0 <= b < qtype_count() implies (
        #[trigger] bonus.deep_view()[a][b]) + records@.len() <= u64::MAX by {
            assert(bonus.deep_view()[a][b] == 0);
        }
    }
    update_arrays(
        &mut warns,
        &records,
        &quizzer_names,
        &map,
        &mut attempts,
        &mut correct_answers,
        &mut bonus_attempts,
        &mut bonus,
    );
    let ghost t = agg_all(zero_tally(names.len() as int), names, map@, recs);
    proof {
        assert(attempts.deep_view() == t.attempts);
        assert(correct_answers.deep_view() == t.correct);
        assert(bonus_attempts.deep_view() == t.bonus_attempts);
        assert(bonus.deep_view() == t.bonus_correct);
        crate::aggregate::lemma_agg_dims_and_bound(
            zero_tally(names.len() as int),
            names,
            map@,
            recs,
            recs.len() as int,
        );
        assert forall|a: int|
            0 <= a < quizzer_names@.len() implies (#[trigger] attempts@[a])@.len()
            == qtype_count() by {
            assert(attempts@[a]@.len() == attempts.deep_view()[a].len());
        }
        assert forall|a: int|
            0 <= a < quizzer_names@.len() implies (#[trigger] correct_answers@[a])@.len()
            == qtype_count() by {
            assert(correct_answers@[a]@.len() == correct_answers.deep_view()[a].len());
        }
        assert forall|a: int|
            0 <= a < quizzer_names@.len() implies (#[trigger] bonus_attempts@[a])@.len()
            == qtype_count() by {
            assert(bonus_attempts@[a]@.len() == bonus_attempts.deep_view()[a].len());
        }
        assert forall|a: int|
            0 <= a < quizzer_names@.len() implies (#[trigger] bonus@[a])@.len() == qtype_count() by {
            assert(bonus@[a]@.len() == bonus.deep_view()[a].len());
        }
    }
    let report = build_results(
        &quizzer_names,
        &attempts,
        &correct_answers,
        &bonus_attempts,
        &bonus,
        ",",
    );
    proof {
        let spec_pair = qperf_spec(docs, quiz_data@);
        assert(warns.deep_view() =~= spec_pair.0);
        assert(report@ == spec_pair.1);
    }
    (warns, report, diag)
}

} // verus!
