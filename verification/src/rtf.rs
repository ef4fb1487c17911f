//! The round-type extractor: one rich-text question-set document parsed
//! into a round map.
//!
//! The document is split on the literal tab control word into fragments. A
//! fragment holding the `SET #` marker starts a new round, committing the
//! types accumulated for the previous one. Every non-empty even-indexed
//! fragment contributes one type code: its second-to-last character.

use vstd::prelude::*;

verus! {

use crate::roundmap::{rm_set, rm_wf, RoundMap};
use crate::text::str_chars;

/// Whether `pat` occurs in `s` at position `i`.
pub open spec fn sub_at(s: Seq<char>, i: int, pat: Seq<char>) -> bool {
    &&& 0 <= i
    &&& i + pat.len() <= s.len()
    &&& s.subrange(i, i + pat.len()) == pat
}

/// The first occurrence of `pat` at or after position `from`.
pub open spec fn find_from(s: Seq<char>, pat: Seq<char>, from: int) -> Option<int>
    decreases s.len() - from + 1,
{
    if from < 0 || from + pat.len() > s.len() {
        None
    } else if sub_at(s, from, pat) {
        Some(from)
    } else {
        find_from(s, pat, from + 1)
    }
}

pub proof fn lemma_find_from_props(s: Seq<char>, pat: Seq<char>, from: int)
    ensures
        find_from(s, pat, from) matches Some(i) ==> from <= i && sub_at(s, i, pat),
    decreases s.len() - from + 1,
{
    if !(from < 0 || from + pat.len() > s.len()) && !sub_at(s, from, pat) {
        lemma_find_from_props(s, pat, from + 1);
    }
}

/// The fragments of `s` between occurrences of `pat`, from position `pos`
/// on: every occurrence separates two fragments, and both outer fragments
/// exist even when empty.
pub open spec fn split_from(s: Seq<char>, pat: Seq<char>, pos: int) -> Seq<Seq<char>>
    decreases s.len() - pos,
        when pat.len() > 0 && 0 <= pos <= s.len()
        via split_from_decreases
{
    match find_from(s, pat, pos) {
        None => seq![s.subrange(pos, s.len() as int)],
        Some(i) => seq![s.subrange(pos, i)] + split_from(s, pat, i + pat.len()),
    }
}

#[via_fn]
proof fn split_from_decreases(s: Seq<char>, pat: Seq<char>, pos: int) {
    lemma_find_from_props(s, pat, pos);
}

/// The fragments of the whole text.
pub open spec fn split_on(s: Seq<char>, pat: Seq<char>) -> Seq<Seq<char>> {
    split_from(s, pat, 0)
}

/// Whether a character matches the marker pattern's identifier class.
pub open spec fn is_alnum(c: char) -> bool {
    ||| 65 <= c as u32 <= 90
    ||| 97 <= c as u32 <= 122
    ||| 48 <= c as u32 <= 57
}

/// Whether the round marker starts at position `i`: the literal `SET #`
/// followed by at least one alphanumeric character.
pub open spec fn marker_at(s: Seq<char>, i: int) -> bool {
    &&& 0 <= i
    &&& i + 6 <= s.len()
    &&& s.subrange(i, i + 5) == "SET #"@
    &&& is_alnum(s[i + 5])
}

/// The first position where the marker matches.
pub open spec fn first_marker_from(s: Seq<char>, from: int) -> Option<int>
    decreases s.len() - from,
{
    if from < 0 || from + 6 > s.len() {
        None
    } else if marker_at(s, from) {
        Some(from)
    } else {
        first_marker_from(s, from + 1)
    }
}

/// The end of the alphanumeric run starting at `k`.
pub open spec fn alnum_end(s: Seq<char>, k: int) -> int
    decreases s.len() - k,
{
    if k < 0 || k >= s.len() {
        k
    } else if !is_alnum(s[k]) {
        k
    } else {
        alnum_end(s, k + 1)
    }
}

/// The round identifier of a fragment: at the leftmost marker match, the
/// whole alphanumeric run after the literal `SET #`.
pub open spec fn spec_find_marker(s: Seq<char>) -> Option<Seq<char>> {
    match first_marker_from(s, 0) {
        None => None,
        Some(i) => Some(s.subrange(i + 5, alnum_end(s, i + 5))),
    }
}

/// Relies on regex::Regex::captures with the fixed pattern
/// "SET #([A-Za-z0-9]+)": the match starts at the leftmost position where
/// the literal marker is followed by an alphanumeric character, and the
/// greedy group captures the whole alphanumeric run after the marker.
#[verifier::external_body]
fn find_set_marker(part: &Vec<char>) -> (r: Option<String>)
    ensures
        r matches Some(id) ==> spec_find_marker(part@) matches Some(x) && id@ == x,
        r is None ==> spec_find_marker(part@) is None,
{
    let s: String = part.iter().collect();
    let re = regex::Regex::new("SET #([A-Za-z0-9]+)").unwrap();
    match re.captures(&s) {
        Some(caps) => Some(caps.get(1).unwrap().as_str().to_string()),
        None => None,
    }
}

/// The identifier wrapped in single quotes, as the event log writes round
/// identifiers.
pub open spec fn quote_wrap(id: Seq<char>) -> Seq<char> {
    seq!['\''] + id + seq!['\'']
}

/// The extractor's running state: the committed rounds, the round being
/// accumulated, and its type codes so far.
pub struct RtfState {
    pub map: Seq<(Seq<char>, Seq<char>)>,
    pub round: Seq<char>,
    pub types: Seq<char>,
}

pub open spec fn rtf_init() -> RtfState {
    RtfState { map: Seq::empty(), round: Seq::empty(), types: Seq::empty() }
}

/// One fragment's effect: a marker commits the previous round's non-empty
/// accumulation and opens the new round; a non-empty even-indexed fragment
/// then contributes its second-to-last character as a type code.
pub open spec fn rtf_step(st: RtfState, part: Seq<char>, idx: int) -> RtfState {
    let st1 = match spec_find_marker(part) {
        Some(id) => RtfState {
            map: if st.types.len() > 0 {
                rm_set(st.map, st.round, st.types)
            } else {
                st.map
            },
            round: quote_wrap(id),
            types: Seq::empty(),
        },
        None => st,
    };
    if idx % 2 == 0 && part.len() > 1 {
        RtfState { map: st1.map, round: st1.round, types: st1.types.push(part[part.len() - 2]) }
    } else {
        st1
    }
}

/// The state after the first `n` fragments.
pub open spec fn rtf_upto(parts: Seq<Seq<char>>, n: int) -> RtfState
    decreases n,
{
    if n <= 0 {
        rtf_init()
    } else {
        rtf_step(rtf_upto(parts, n - 1), parts[n - 1], n - 1)
    }
}

/// The round map one document defines: the state after all fragments, with
/// the final accumulation committed under the last-seen round identifier.
pub open spec fn doc_map(content: Seq<char>) -> Seq<(Seq<char>, Seq<char>)> {
    let parts = split_on(content, "\\tab"@);
    let fin = rtf_upto(parts, parts.len() as int);
    rm_set(fin.map, fin.round, fin.types)
}

proof fn lemma_rtf_upto_wf(parts: Seq<Seq<char>>, n: int)
    requires
        0 <= n,
    ensures
        rm_wf(rtf_upto(parts, n).map),
    decreases n,
{
    if n > 0 {
        lemma_rtf_upto_wf(parts, n - 1);
        let st = rtf_upto(parts, n - 1);
        if st.types.len() > 0 {
            crate::roundmap::lemma_rm_set_wf(st.map, st.round, st.types);
        }
    }
}

/// A document's round map holds each identifier at most once.
pub proof fn lemma_doc_map_wf(content: Seq<char>)
    ensures
        rm_wf(doc_map(content)),
{
    let parts = split_on(content, "\\tab"@);
    let fin = rtf_upto(parts, parts.len() as int);
    lemma_rtf_upto_wf(parts, parts.len() as int);
    crate::roundmap::lemma_rm_set_wf(fin.map, fin.round, fin.types);
}

/// Whether `pat` occurs at position `i` of `s`.
fn match_at(s: &Vec<char>, pat: &Vec<char>, i: usize) -> (b: bool)
    requires
        i <= s@.len(),
    ensures
        b == sub_at(s@, i as int, pat@),
{
    if pat.len() > s.len() - i {
        return false;
    }
    let m = pat.len();
    let n = s.len();
    let mut j: usize = 0;
    while j < m
        invariant
            m == pat@.len(),
            n == s@.len(),
            i + m <= s@.len(),
            j <= m,
            forall|k: int| 0 <= k < j ==> s@[i + k] == pat@[k],
        decreases m - j,
    {
        if s[i + j] != pat[j] {
            proof {
                assert(s@.subrange(i as int, i + m) != pat@) by {
                    assert(s@.subrange(i as int, i + m)[j as int] == s@[i + j]);
                }
            }
            return false;
        }
        j = j + 1;
    }
    proof {
        assert(s@.subrange(i as int, i + m) =~= pat@);
    }
    true
}

/// The first occurrence of `pat` at or after `from`.
fn find_sub_from(s: &Vec<char>, pat: &Vec<char>, from: usize) -> (r: Option<usize>)
    requires
        from <= s@.len(),
        pat@.len() > 0,
    ensures
        r matches Some(i) ==> {
            &&& find_from(s@, pat@, from as int) == Some(i as int)
            &&& from <= i
            &&& i + pat@.len() <= s@.len()
        },
        r is None ==> find_from(s@, pat@, from as int) is None,
{
    let mut i: usize = from;
    while pat.len() <= s.len() - i
        invariant
            from <= i,
            i <= s@.len(),
            pat@.len() > 0,
            find_from(s@, pat@, from as int) == find_from(s@, pat@, i as int),
        decreases s@.len() - i,
    {
        if match_at(s, pat, i) {
            return Some(i);
        }
        i = i + 1;
    }
    None
}

/// A copy of the characters in `[lo, hi)`.
fn copy_range(s: &Vec<char>, lo: usize, hi: usize) -> (out: Vec<char>)
    requires
        lo <= hi <= s@.len(),
    ensures
        out@ == s@.subrange(lo as int, hi as int),
{
    let mut out: Vec<char> = Vec::new();
    let mut i: usize = lo;
    while i < hi
        invariant
            lo <= i <= hi <= s@.len(),
            out@ == s@.subrange(lo as int, i as int),
        decreases hi - i,
    {
        out.push(s[i]);
        i = i + 1;
        proof {
            assert(out@ =~= s@.subrange(lo as int, i as int));
        }
    }
    proof {
        assert(out@ =~= s@.subrange(lo as int, hi as int));
    }
    out
}

/// The fragments of `s` separated by occurrences of `pat`.
fn split_chars(s: &Vec<char>, pat: &Vec<char>) -> (parts: Vec<Vec<char>>)
    requires
        pat@.len() > 0,
    ensures
        parts.deep_view() == split_on(s@, pat@),
{
    let mut parts: Vec<Vec<char>> = Vec::new();
    let n = s.len();
    let mut pos: usize = 0;
    loop
        invariant
            n == s@.len(),
            pat@.len() > 0,
            pos <= s@.len(),
            parts.deep_view() + split_from(s@, pat@, pos as int) =~= split_on(s@, pat@),
        decreases s@.len() - pos,
    {
        match find_sub_from(s, pat, pos) {
            Some(i) => {
                proof {
                    lemma_find_from_props(s@, pat@, pos as int);
                }
                let part = copy_range(s, pos, i);
                let ghost pre = parts.deep_view();
                parts.push(part);
                proof {
                    assert forall|k: int| 0 <= k < parts@.len() implies parts.deep_view()[k] == (pre
                        + seq![s@.subrange(pos as int, i as int)])[k] by {
                        if k < pre.len() {
                            assert(parts.deep_view()[k] == pre[k]);
                        }
                    }
                    assert(parts.deep_view() =~= pre + seq![s@.subrange(pos as int, i as int)]);
                    assert(split_from(s@, pat@, pos as int) =~= seq![
                        s@.subrange(pos as int, i as int),
                    ] + split_from(s@, pat@, i + pat@.len()));
                    assert(parts.deep_view() + split_from(s@, pat@, i + pat@.len()) =~= split_on(
                        s@,
                        pat@,
                    ));
                }
                proof {
                    assert(i + pat@.len() <= s@.len());
                }
                pos = i + pat.len();
            },
            None => {
                let part = copy_range(s, pos, s.len());
                let ghost pre = parts.deep_view();
                parts.push(part);
                proof {
                    assert forall|k: int| 0 <= k < parts@.len() implies parts.deep_view()[k] == (pre
                        + seq![s@.subrange(pos as int, s@.len() as int)])[k] by {
                        if k < pre.len() {
                            assert(parts.deep_view()[k] == pre[k]);
                        }
                    }
                    assert(parts.deep_view() =~= pre + seq![
                        s@.subrange(pos as int, s@.len() as int),
                    ]);
                    assert(split_from(s@, pat@, pos as int) =~= seq![
                        s@.subrange(pos as int, s@.len() as int),
                    ]);
                    assert(parts.deep_view() =~= split_on(s@, pat@));
                }
                return parts;
            },
        }
    }
}

/// Parses one question-set document into its round map.
pub fn extract_round_types(content: &str) -> (rm: RoundMap)
    ensures
        rm@ == doc_map(content@),
        rm.wf(),
{
    let cs = str_chars(content);
    let pat = str_chars("\\tab");
    proof {
        reveal_strlit("\\tab");
        assert(pat@.len() > 0);
    }
    let parts = split_chars(&cs, &pat);
    proof {
        assert(parts.deep_view() == split_on(content@, "\\tab"@));
    }
    let ghost pv = parts.deep_view();
    let mut map = RoundMap::new();
    let mut round = String::new();
    let mut types: Vec<char> = Vec::new();
    let n = parts.len();
    let mut i: usize = 0;
    proof {
        assert(map@ =~= rtf_upto(pv, 0).map);
        assert(round@ =~= rtf_upto(pv, 0).round);
        assert(types@ =~= rtf_upto(pv, 0).types);
    }
    while i < n
        invariant
            n == parts@.len(),
            i <= n,
            pv == parts.deep_view(),
            map@ == rtf_upto(pv, i as int).map,
            round@ == rtf_upto(pv, i as int).round,
            types@ == rtf_upto(pv, i as int).types,
            rm_wf(map@),
        decreases n - i,
    {
        let part = &parts[i];
        proof {
            assert(pv[i as int] == parts@[i as int]@);
        }
        match find_set_marker(part) {
            Some(id) => {
                if types.len() > 0 {
                    map.set(round, types);
                    types = Vec::new();
                } else {
                    types = Vec::new();
                }
                round = String::from_str("'").concat(id.as_str()).concat("'");
                proof {
                    reveal_strlit("'");
                    assert(round@ =~= quote_wrap(id@));
                    assert(types@ =~= Seq::<char>::empty());
                }
            },
            None => {},
        }
        if i % 2 == 0 && part.len() > 1 {
            types.push(part[part.len() - 2]);
        }
        i = i + 1;
        proof {
            let st = rtf_upto(pv, i - 1);
            assert(rtf_upto(pv, i as int) == rtf_step(st, pv[i - 1], i - 1));
        }
    }
    proof {
        crate::roundmap::lemma_rm_set_wf(map@, round@, types@);
    }
    map.set(round, types);
    map
}

} // verus!
