//! Event records from the tabular log.
//!
//! A record is the ordered tuple of raw string fields of one log line,
//! addressed positionally: round identifier, question number, quizzer name,
//! team number and event code sit at fixed columns. The filter keeps only
//! the four judged-event codes.

use vstd::prelude::*;

verus! {

use crate::text::{parse_digits_or, str_eq, trim_quotes};

/// Column positions of the fields the engine reads.
pub open spec fn round_col() -> int {
    4
}

pub open spec fn qnum_col() -> int {
    5
}

pub open spec fn quizzer_col() -> int {
    7
}

pub open spec fn team_col() -> int {
    8
}

pub open spec fn event_col() -> int {
    10
}

/// A record's field at a column; absent columns read as the empty string.
pub open spec fn field_at(r: Seq<Seq<char>>, i: int) -> Seq<char> {
    if 0 <= i < r.len() {
        r[i]
    } else {
        Seq::empty()
    }
}

pub open spec fn event_code_of(r: Seq<Seq<char>>) -> Seq<char> {
    field_at(r, event_col())
}

pub open spec fn quizzer_of(r: Seq<Seq<char>>) -> Seq<char> {
    field_at(r, quizzer_col())
}

pub open spec fn round_of(r: Seq<Seq<char>>) -> Seq<char> {
    field_at(r, round_col())
}

/// A record's team number: the team field read as a number, defaulting to
/// team 0 on a non-numeric or missing value.
pub open spec fn team_of(r: Seq<Seq<char>>) -> int {
    parse_digits_or(field_at(r, team_col()), 0)
}

/// A record's 1-indexed question number: the quote-wrapped question field,
/// defaulting to question 1 when it does not parse.
pub open spec fn qnum_of(r: Seq<Seq<char>>) -> int {
    parse_digits_or(trim_quotes(field_at(r, qnum_col())), 1)
}

/// Whether a record carries one of the four judged-event codes.
pub open spec fn is_judged(r: Seq<Seq<char>>) -> bool {
    ||| event_code_of(r) == "'TC'"@
    ||| event_code_of(r) == "'TE'"@
    ||| event_code_of(r) == "'BC'"@
    ||| event_code_of(r) == "'BE'"@
}

/// The subsequence of judged records, in their original order.
pub open spec fn filter_judged(s: Seq<Seq<Seq<char>>>) -> Seq<Seq<Seq<char>>>
    decreases s.len(),
{
    if s.len() == 0 {
        Seq::empty()
    } else if is_judged(s.last()) {
        filter_judged(s.drop_last()).push(s.last())
    } else {
        filter_judged(s.drop_last())
    }
}

/// What the csv reader yields for given log text: either the ordered
/// records of raw string fields, one per data line, or the message of the
/// parse error on the first structurally invalid line. The outcome is a
/// function of the text alone.
pub uninterp spec fn csv_rows_of(s: Seq<char>) -> Result<Seq<Seq<Seq<char>>>, Seq<char>>;

/// Relies on csv::ReaderBuilder and csv::Reader: with headers off, the
/// reader yields the input's records of string fields in order and fails
/// on the first structurally invalid line; the records and any error
/// message are functions of the input text alone.
#[verifier::external_body]
pub(crate) fn parse_csv_records(content: &str) -> (r: Result<Vec<Vec<String>>, String>)
    ensures
        r matches Ok(rows) ==> csv_rows_of(content@) matches Ok(v) && rows.deep_view() == v,
        r matches Err(m) ==> csv_rows_of(content@) matches Err(e) && m@ == e,
{
    let mut reader = csv::ReaderBuilder::new().has_headers(false).from_reader(
        content.as_bytes(),
    );
    let mut rows: Vec<Vec<String>> = Vec::new();
    for result in reader.records() {
        match result {
            Ok(rec) => rows.push(rec.iter().map(|f| f.to_string()).collect()),
            Err(e) => {
                return Err(format!("{}", e));
            },
        }
    }
    Ok(rows)
}

/// A record's field at a column, the empty string when the column is absent.
pub fn field_of<'a>(r: &'a Vec<String>, i: usize) -> (s: &'a str)
    ensures
        s@ == field_at(r.deep_view(), i as int),
{
    if i < r.len() {
        r[i].as_str()
    } else {
        proof {
            reveal_strlit("");
            assert(""@ =~= Seq::<char>::empty());
        }
        ""
    }
}

/// Whether a record carries one of the four judged-event codes.
pub fn record_is_judged(r: &Vec<String>) -> (b: bool)
    ensures
        b == is_judged(r.deep_view()),
{
    let code = field_of(r, 10);
    str_eq(code, "'TC'") || str_eq(code, "'TE'") || str_eq(code, "'BC'") || str_eq(code, "'BE'")
}

/// Keeps only the judged records, in order.
pub fn filter_records(records: Vec<Vec<String>>) -> (out: Vec<Vec<String>>)
    ensures
        out.deep_view() == filter_judged(records.deep_view()),
{
    let mut out: Vec<Vec<String>> = Vec::new();
    let n = records.len();
    let mut i: usize = 0;
    while i < n
        invariant
            n == records@.len(),
            i <= n,
            out.deep_view() == filter_judged(records.deep_view().take(i as int)),
        decreases n - i,
    {
        let keep = record_is_judged(&records[i]);
        proof {
            assert(records.deep_view()[i as int] == records@[i as int].deep_view());
        }
        if keep {
            let row = clone_row(&records[i]);
            out.push(row);
        }
        i = i + 1;
        proof {
            let pre = records.deep_view().take(i - 1);
            let cur = records.deep_view().take(i as int);
            assert(cur.drop_last() =~= pre);
            assert(cur.last() == records.deep_view()[i - 1]);
            if keep {
                assert(out.deep_view() =~= filter_judged(cur));
            }
        }
    }
    proof {
        assert(records.deep_view().take(n as int) =~= records.deep_view());
    }
    out
}

/// A copy of one record's fields.
pub fn clone_row(r: &Vec<String>) -> (out: Vec<String>)
    ensures
        out.deep_view() == r.deep_view(),
{
    let mut out: Vec<String> = Vec::new();
    let n = r.len();
    let mut i: usize = 0;
    while i < n
        invariant
            n == r@.len(),
            i <= n,
            out.deep_view() == r.deep_view().take(i as int),
        decreases n - i,
    {
        let row = r[i].clone();
        proof {
            assert(row.deep_view() == r.deep_view()[i as int]);
        }
        let ghost pre = out.deep_view();
        out.push(row);
        i = i + 1;
        proof {
            assert(pre.len() == i - 1);
            assert(out@.len() == i as int);
            assert(out.deep_view().len() == i as int);
            assert(r.deep_view().take(i as int).len() == i as int);
            assert forall|k: int| 0 <= k < out@.len() implies out.deep_view()[k]
                == r.deep_view().take(i as int)[k] by {
                if k < pre.len() {
                    assert(out.deep_view()[k] == pre[k]);
                }
            }
            assert(out.deep_view() =~= r.deep_view().take(i as int));
        }
    }
    proof {
        assert(r.deep_view().take(n as int) =~= r.deep_view());
    }
    out
}

} // verus!
