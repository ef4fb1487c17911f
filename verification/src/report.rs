//! The report builder: the four matrices and the quizzer names rendered as
//! a delimited text table.
//!
//! The header row lists "Quizzer" and then, per question type in the fixed
//! alphabetical order, the four sub-columns "QA", "QC", "BA" and "BC". Each
//! quizzer row lists the name and the four counts per type, printed with
//! one decimal place. Every field is followed by the delimiter and a tab;
//! rows end with a newline.

use vstd::prelude::*;

verus! {

use crate::aggregate::TallyView;
use crate::text::count_str;
use crate::text::fmt_count;
use crate::types::{qtype_codes, qtype_count, question_type_codes, spec_type_index};

/// The per-type header labels, four per code.
pub open spec fn type_header_fields(cs: Seq<char>) -> Seq<Seq<char>>
    decreases cs.len(),
{
    if cs.len() == 0 {
        Seq::empty()
    } else {
        seq![
            seq![cs[0]] + " QA"@,
            seq![cs[0]] + " QC"@,
            seq![cs[0]] + " BA"@,
            seq![cs[0]] + " BC"@,
        ] + type_header_fields(cs.drop_first())
    }
}

/// The header row's fields: the name column, then the per-type labels.
pub open spec fn header_fields_spec() -> Seq<Seq<char>> {
    seq!["Quizzer"@] + type_header_fields(qtype_codes())
}

/// One quizzer's rendered counts, four per code, each type's counts read
/// at that type's column.
pub open spec fn type_count_fields(
    cs: Seq<char>,
    a: Seq<u64>,
    c: Seq<u64>,
    ba: Seq<u64>,
    bc: Seq<u64>,
) -> Seq<Seq<char>>
    decreases cs.len(),
{
    if cs.len() == 0 {
        Seq::empty()
    } else {
        let ix = spec_type_index(cs[0]);
        seq![
            count_str(a[ix] as int),
            count_str(c[ix] as int),
            count_str(ba[ix] as int),
            count_str(bc[ix] as int),
        ] + type_count_fields(cs.drop_first(), a, c, ba, bc)
    }
}

/// One quizzer row's fields: the name, then the rendered counts.
pub open spec fn row_fields_spec(
    name: Seq<char>,
    a: Seq<u64>,
    c: Seq<u64>,
    ba: Seq<u64>,
    bc: Seq<u64>,
) -> Seq<Seq<char>> {
    seq![name] + type_count_fields(qtype_codes(), a, c, ba, bc)
}

/// Fields joined with the delimiter and a tab after every field.
pub open spec fn fields_str(fields: Seq<Seq<char>>, delim: Seq<char>) -> Seq<char>
    decreases fields.len(),
{
    if fields.len() == 0 {
        Seq::empty()
    } else {
        fields_str(fields.drop_last(), delim) + fields.last() + delim + "\t"@
    }
}

/// One newline-terminated report line.
pub open spec fn line_str(fields: Seq<Seq<char>>, delim: Seq<char>) -> Seq<char> {
    fields_str(fields, delim) + "\n"@
}

/// The first `n` quizzer rows of the report.
pub open spec fn rows_str(names: Seq<Seq<char>>, t: TallyView, delim: Seq<char>, n: int) -> Seq<
    char,
>
    decreases n,
{
    if n <= 0 {
        Seq::empty()
    } else {
        rows_str(names, t, delim, n - 1) + line_str(
            row_fields_spec(
                names[n - 1],
                t.attempts[n - 1],
                t.correct[n - 1],
                t.bonus_attempts[n - 1],
                t.bonus_correct[n - 1],
            ),
            delim,
        )
    }
}

/// The whole report: the header line, then one line per quizzer.
pub open spec fn report_spec(names: Seq<Seq<char>>, t: TallyView, delim: Seq<char>) -> Seq<char> {
    line_str(header_fields_spec(), delim) + rows_str(names, t, delim, names.len() as int)
}

proof fn lemma_type_header_fields_len(cs: Seq<char>)
    ensures
        type_header_fields(cs).len() == 4 * cs.len(),
    decreases cs.len(),
{
    if cs.len() > 0 {
        lemma_type_header_fields_len(cs.drop_first());
    }
}

proof fn lemma_type_count_fields_len(cs: Seq<char>, a: Seq<u64>, c: Seq<u64>, ba: Seq<u64>, bc: Seq<u64>)
    ensures
        type_count_fields(cs, a, c, ba, bc).len() == 4 * cs.len(),
    decreases cs.len(),
{
    if cs.len() > 0 {
        lemma_type_count_fields_len(cs.drop_first(), a, c, ba, bc);
    }
}

/// The header and every quizzer row have the same width: one name column
/// plus four columns per question type.
pub proof fn lemma_report_row_width(name: Seq<char>, a: Seq<u64>, c: Seq<u64>, ba: Seq<u64>, bc: Seq<u64>)
    ensures
        header_fields_spec().len() == 4 * qtype_count() + 1,
        row_fields_spec(name, a, c, ba, bc).len() == 4 * qtype_count() + 1,
{
    lemma_type_header_fields_len(qtype_codes());
    lemma_type_count_fields_len(qtype_codes(), a, c, ba, bc);
}

/// The one-character string of a question-type code.
fn type_char_str(c: char) -> (r: &'static str)
    requires
        qtype_codes().contains(c),
    ensures
        r@ == seq![c],
{
    proof {
        reveal_strlit("A");
        reveal_strlit("G");
        reveal_strlit("I");
        reveal_strlit("Q");
        reveal_strlit("R");
        reveal_strlit("S");
        reveal_strlit("V");
        reveal_strlit("X");
    }
    let r: &'static str = if c == 'A' {
        "A"
    } else if c == 'G' {
        "G"
    } else if c == 'I' {
        "I"
    } else if c == 'Q' {
        "Q"
    } else if c == 'R' {
        "R"
    } else if c == 'S' {
        "S"
    } else if c == 'V' {
        "V"
    } else {
        "X"
    };
    proof {
        assert(r@ =~= seq![c]);
    }
    r
}

/// The header row's fields.
pub fn header_fields() -> (v: Vec<String>)
    ensures
        v.deep_view() == header_fields_spec(),
        v@.len() == 4 * qtype_count() + 1,
{
    let codes = question_type_codes();
    let mut v: Vec<String> = Vec::new();
    v.push(String::from_str("Quizzer"));
    let mut i: usize = 0;
    proof {
        assert(qtype_codes().skip(0) =~= qtype_codes());
        assert(v.deep_view() =~= seq!["Quizzer"@]);
        assert(seq!["Quizzer"@] + type_header_fields(qtype_codes().skip(0)) =~= header_fields_spec());
    }
    while i < codes.len()
        invariant
            codes@ == qtype_codes(),
            i <= codes@.len(),
            v.deep_view() + type_header_fields(codes@.skip(i as int)) =~= header_fields_spec(),
        decreases codes@.len() - i,
    {
        let c = codes[i];
        let cs = type_char_str(c);
        v.push(String::from_str(cs).concat(" QA"));
        v.push(String::from_str(cs).concat(" QC"));
        v.push(String::from_str(cs).concat(" BA"));
        v.push(String::from_str(cs).concat(" BC"));
        i = i + 1;
        proof {
            let rest = codes@.skip(i - 1);
            assert(rest[0] == codes@[i - 1]);
            assert(rest.drop_first() =~= codes@.skip(i as int));
            assert(v.deep_view() + type_header_fields(codes@.skip(i as int)) =~= header_fields_spec());
        }
    }
    proof {
        assert(codes@.skip(codes@.len() as int) =~= Seq::<char>::empty());
        assert(v.deep_view() =~= header_fields_spec());
        lemma_type_header_fields_len(qtype_codes());
    }
    v
}

/// One quizzer row's fields.
pub fn row_fields(
    name: &String,
    a: &Vec<u64>,
    c: &Vec<u64>,
    ba: &Vec<u64>,
    bc: &Vec<u64>,
) -> (v: Vec<String>)
    requires
        a@.len() == qtype_count(),
        c@.len() == qtype_count(),
        ba@.len() == qtype_count(),
        bc@.len() == qtype_count(),
    ensures
        v.deep_view() == row_fields_spec(name@, a@, c@, ba@, bc@),
        v@.len() == 4 * qtype_count() + 1,
{
    let codes = question_type_codes();
    let mut v: Vec<String> = Vec::new();
    v.push(name.clone());
    let mut i: usize = 0;
    proof {
        assert(qtype_codes().skip(0) =~= qtype_codes());
        assert(v.deep_view() =~= seq![name@]);
        assert(seq![name@] + type_count_fields(qtype_codes().skip(0), a@, c@, ba@, bc@)
            =~= row_fields_spec(name@, a@, c@, ba@, bc@));
    }
    while i < codes.len()
        invariant
            codes@ == qtype_codes(),
            i <= codes@.len(),
            a@.len() == qtype_count(),
            c@.len() == qtype_count(),
            ba@.len() == qtype_count(),
            bc@.len() == qtype_count(),
            v.deep_view() + type_count_fields(codes@.skip(i as int), a@, c@, ba@, bc@)
                =~= row_fields_spec(name@, a@, c@, ba@, bc@),
        decreases codes@.len() - i,
    {
        let code = codes[i];
        let ix = crate::types::type_index(code);
        v.push(fmt_count(a[ix]));
        v.push(fmt_count(c[ix]));
        v.push(fmt_count(ba[ix]));
        v.push(fmt_count(bc[ix]));
        i = i + 1;
        proof {
            let rest = codes@.skip(i - 1);
            assert(rest[0] == codes@[i - 1]);
            assert(rest.drop_first() =~= codes@.skip(i as int));
            assert(v.deep_view() + type_count_fields(codes@.skip(i as int), a@, c@, ba@, bc@)
                =~= row_fields_spec(name@, a@, c@, ba@, bc@));
        }
    }
    proof {
        assert(codes@.skip(codes@.len() as int) =~= Seq::<char>::empty());
        assert(v.deep_view() =~= row_fields_spec(name@, a@, c@, ba@, bc@));
        lemma_type_count_fields_len(qtype_codes(), a@, c@, ba@, bc@);
    }
    v
}

/// Appends one report line: the fields, each followed by the delimiter and
/// a tab, then a newline.
fn push_line(out: &mut String, fields: &Vec<String>, delim: &str)
    ensures
        final(out)@ == old(out)@ + line_str(fields.deep_view(), delim@),
{
    let n = fields.len();
    let mut i: usize = 0;
    proof {
        assert(out@ + fields_str(fields.deep_view().take(0), delim@) =~= out@);
    }
    while i < n
        invariant
            n == fields@.len(),
            i <= n,
            out@ == old(out)@ + fields_str(fields.deep_view().take(i as int), delim@),
        decreases n - i,
    {
        out.append(fields[i].as_str());
        out.append(delim);
        out.append("\t");
        i = i + 1;
        proof {
            let dv = fields.deep_view();
            let cur = dv.take(i as int);
            assert(cur.drop_last() =~= dv.take(i - 1));
            assert(cur.last() == dv[i - 1]);
            assert(out@ =~= old(out)@ + fields_str(cur, delim@));
        }
    }
    out.append("\n");
    proof {
        assert(fields.deep_view().take(n as int) =~= fields.deep_view());
        assert(out@ =~= old(out)@ + line_str(fields.deep_view(), delim@));
    }
}

/// Renders the report: the header line, then one line per quizzer with the
/// four counts per question type.
pub fn build_results(
    quizzer_names: &Vec<String>,
    attempts: &Vec<Vec<u64>>,
    correct_answers: &Vec<Vec<u64>>,
    bonus_attempts: &Vec<Vec<u64>>,
    bonus: &Vec<Vec<u64>>,
    delimiter: &str,
) -> (result: String)
    requires
        attempts@.len() == quizzer_names@.len(),
        correct_answers@.len() == quizzer_names@.len(),
        bonus_attempts@.len() == quizzer_names@.len(),
        bonus@.len() == quizzer_names@.len(),
        forall|a: int|
            0 <= a < quizzer_names@.len() ==> (#[trigger] attempts@[a])@.len() == qtype_count(),
        forall|a: int|
            0 <= a < quizzer_names@.len() ==> (#[trigger] correct_answers@[a])@.len()
                == qtype_count(),
        forall|a: int|
            0 <= a < quizzer_names@.len() ==> (#[trigger] bonus_attempts@[a])@.len()
                == qtype_count(),
        forall|a: int|
            0 <= a < quizzer_names@.len() ==> (#[trigger] bonus@[a])@.len() == qtype_count(),
    ensures
        result@ == report_spec(
            quizzer_names.deep_view(),
            (TallyView {
                attempts: attempts.deep_view(),
                correct: correct_answers.deep_view(),
                bonus_attempts: bonus_attempts.deep_view(),
                bonus_correct: bonus.deep_view(),
            }),
            delimiter@,
        ),
{
    let ghost t = TallyView {
        attempts: attempts.deep_view(),
        correct: correct_answers.deep_view(),
        bonus_attempts: bonus_attempts.deep_view(),
        bonus_correct: bonus.deep_view(),
    };
    let ghost names = quizzer_names.deep_view();
    let mut result = String::new();
    let hdr = header_fields();
    push_line(&mut result, &hdr, delimiter);
    let n = quizzer_names.len();
    let mut i: usize = 0;
    proof {
        assert(result@ =~= line_str(header_fields_spec(), delimiter@) + rows_str(
            names,
            t,
            delimiter@,
            0,
        ));
    }
    while i < n
        invariant
            n == quizzer_names@.len(),
            i <= n,
            names == quizzer_names.deep_view(),
            t.attempts == attempts.deep_view(),
            t.correct == correct_answers.deep_view(),
            t.bonus_attempts == bonus_attempts.deep_view(),
            t.bonus_correct == bonus.deep_view(),
            attempts@.len() == n,
            correct_answers@.len() == n,
            bonus_attempts@.len() == n,
            bonus@.len() == n,
            forall|a: int| 0 <= a < n ==> (#[trigger] attempts@[a])@.len() == qtype_count(),
            forall|a: int| 0 <= a < n ==> (#[trigger] correct_answers@[a])@.len() == qtype_count(),
            forall|a: int| 0 <= a < n ==> (#[trigger] bonus_attempts@[a])@.len() == qtype_count(),
            forall|a: int| 0 <= a < n ==> (#[trigger] bonus@[a])@.len() == qtype_count(),
            result@ == line_str(header_fields_spec(), delimiter@) + rows_str(
                names,
                t,
                delimiter@,
                i as int,
            ),
        decreases n - i,
    {
        let row = row_fields(
            &quizzer_names[i],
            &attempts[i],
            &correct_answers[i],
            &bonus_attempts[i],
            &bonus[i],
        );
        push_line(&mut result, &row, delimiter);
        i = i + 1;
        proof {
            assert(names[i - 1] == quizzer_names@[i - 1]@);
            assert(t.attempts[i - 1] == attempts@[i - 1]@);
            assert(t.correct[i - 1] == correct_answers@[i - 1]@);
            assert(t.bonus_attempts[i - 1] == bonus_attempts@[i - 1]@);
            assert(t.bonus_correct[i - 1] == bonus@[i - 1]@);
            assert(result@ =~= line_str(header_fields_spec(), delimiter@) + rows_str(
                names,
                t,
                delimiter@,
                i as int,
            ));
        }
    }
    result
}

} // verus!
