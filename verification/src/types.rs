//! The fixed enumeration of question-type codes.
//!
//! Eight single-letter codes classify a question's category. Their
//! alphabetical order gives the stable column ordering shared by the
//! aggregation matrices and the report header.

use vstd::prelude::*;

verus! {

/// The canonical question-type codes, in the fixed alphabetical order that
/// indexes the aggregation matrices and orders the report columns.
pub open spec fn qtype_codes() -> Seq<char> {
    seq!['A', 'G', 'I', 'Q', 'R', 'S', 'V', 'X']
}

/// Number of question-type columns.
pub open spec fn qtype_count() -> int {
    qtype_codes().len() as int
}

/// Column index of a question-type code; an unknown code falls back to
/// column 0, mirroring the tolerant lookup the aggregator relies on.
pub open spec fn spec_type_index(c: char) -> int {
    if c == 'A' {
        0
    } else if c == 'G' {
        1
    } else if c == 'I' {
        2
    } else if c == 'Q' {
        3
    } else if c == 'R' {
        4
    } else if c == 'S' {
        5
    } else if c == 'V' {
        6
    } else if c == 'X' {
        7
    } else {
        0
    }
}

/// The type index always addresses a valid column.
pub proof fn lemma_type_index_in_range(c: char)
    ensures
        0 <= spec_type_index(c) < qtype_count(),
{
}

/// The canonical codes as an executable vector, in the fixed order.
pub fn question_type_codes() -> (v: Vec<char>)
    ensures
        v@ == qtype_codes(),
{
    let mut v: Vec<char> = Vec::new();
    v.push('A');
    v.push('G');
    v.push('I');
    v.push('Q');
    v.push('R');
    v.push('S');
    v.push('V');
    v.push('X');
    proof {
        assert(v@ =~= qtype_codes());
    }
    v
}

/// Column index of a question-type code.
pub fn type_index(c: char) -> (i: usize)
    ensures
        i as int == spec_type_index(c),
        i < 8,
{
    if c == 'A' {
        0
    } else if c == 'G' {
        1
    } else if c == 'I' {
        2
    } else if c == 'Q' {
        3
    } else if c == 'R' {
        4
    } else if c == 'S' {
        5
    } else if c == 'V' {
        6
    } else if c == 'X' {
        7
    } else {
        0
    }
}

} // verus!
