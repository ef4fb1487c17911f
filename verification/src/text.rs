//! Character-level text utilities: string access and comparison, quote
//! trimming, tolerant integer parsing, and decimal rendering of counts.

use vstd::prelude::*;

verus! {

use vstd::multiset::Multiset;

/// The characters of a string slice as a vector.
pub fn str_chars(s: &str) -> (v: Vec<char>)
    ensures
        v@ == s@,
{
    let n: usize = s.unicode_len();
    let mut v: Vec<char> = Vec::new();
    let mut i: usize = 0;
    while i < n
        invariant
            n == s@.len(),
            i <= n,
            v@ == s@.take(i as int),
        decreases n - i,
    {
        let c = s.get_char(i);
        v.push(c);
        i = i + 1;
        proof {
            assert(v@ =~= s@.take(i as int));
        }
    }
    proof {
        assert(v@ =~= s@);
    }
    v
}

/// Character-for-character equality of two string slices.
pub fn str_eq(a: &str, b: &str) -> (r: bool)
    ensures
        r == (a@ == b@),
{
    let an: usize = a.unicode_len();
    let bn: usize = b.unicode_len();
    if an != bn {
        proof {
            assert(a@ != b@);
        }
        return false;
    }
    let mut i: usize = 0;
    while i < an
        invariant
            an == a@.len(),
            an == b@.len(),
            i <= an,
            forall|j: int| 0 <= j < i ==> a@[j] == b@[j],
        decreases an - i,
    {
        if a.get_char(i) != b.get_char(i) {
            return false;
        }
        i = i + 1;
    }
    proof {
        assert(a@ =~= b@);
    }
    true
}

/// Whether a character is an ASCII decimal digit.
pub open spec fn is_digit(c: char) -> bool {
    48 <= c as u32 <= 57
}

/// Numeric value of a digit character; zero for anything else.
pub open spec fn digit_val(c: char) -> int {
    if is_digit(c) {
        c as u32 - 48
    } else {
        0
    }
}

pub open spec fn all_digits(s: Seq<char>) -> bool {
    forall|i: int| 0 <= i < s.len() ==> is_digit(#[trigger] s[i])
}

/// The number denoted by a digit string, most significant digit first.
pub open spec fn digits_val(s: Seq<char>) -> int
    decreases s.len(),
{
    if s.len() == 0 {
        0
    } else {
        digits_val(s.drop_last()) * 10 + digit_val(s.last())
    }
}

pub proof fn lemma_digits_val_nonneg(s: Seq<char>)
    ensures
        digits_val(s) >= 0,
    decreases s.len(),
{
    if s.len() > 0 {
        lemma_digits_val_nonneg(s.drop_last());
    }
}

/// A digit string is worth at least any of its prefixes.
pub proof fn lemma_digits_val_prefix(s: Seq<char>, k: int)
    requires
        0 <= k <= s.len(),
    ensures
        digits_val(s.take(k)) <= digits_val(s),
    decreases s.len() - k,
{
    if k < s.len() {
        lemma_digits_val_prefix(s, k + 1);
        assert(s.take(k + 1).drop_last() =~= s.take(k));
        assert(s.take(k + 1).last() == s[k]);
        lemma_digits_val_nonneg(s.take(k));
    } else {
        assert(s.take(k) =~= s);
    }
}

/// The string with one optional leading plus sign removed, as a decimal
/// parse accepts it.
pub open spec fn strip_plus(s: Seq<char>) -> Seq<char> {
    if s.len() > 0 && s[0] == '+' {
        s.drop_first()
    } else {
        s
    }
}

/// The tolerant reading of a number string: after one optional leading
/// plus sign, its value when the rest is a nonempty all-digit string whose
/// value fits a `usize`, and `d` otherwise.
pub open spec fn parse_digits_or(s: Seq<char>, d: int) -> int {
    let t = strip_plus(s);
    if t.len() > 0 && all_digits(t) && digits_val(t) <= usize::MAX {
        digits_val(t)
    } else {
        d
    }
}

/// Parses a character vector as a decimal number, falling back to `d` on
/// anything that is not an in-range digit string with at most one leading
/// plus sign.
pub fn parse_chars_or(v: &Vec<char>, d: usize) -> (r: usize)
    ensures
        r as int == parse_digits_or(v@, d as int),
{
    let start: usize = if v.len() > 0 && v[0] == '+' {
        1
    } else {
        0
    };
    let ghost t = strip_plus(v@);
    proof {
        assert(t.len() == v@.len() - start);
        assert(forall|k: int| 0 <= k < t.len() ==> t[k] == v@[k + start]);
    }
    if v.len() == start {
        return d;
    }
    let mut acc: usize = 0;
    let mut i: usize = start;
    proof {
        assert(t.take(0) =~= Seq::<char>::empty());
    }
    while i < v.len()
        invariant
            start <= i <= v@.len(),
            start <= 1,
            t == strip_plus(v@),
            t.len() == v@.len() - start,
            forall|k: int| 0 <= k < t.len() ==> t[k] == v@[k + start],
            all_digits(t.take(i - start)),
            acc as int == digits_val(t.take(i - start)),
        decreases v@.len() - i,
    {
        let c = v[i];
        let cu: u32 = c as u32;
        if cu < 48 || cu > 57 {
            proof {
                assert(t[i - start] == v@[i as int]);
                assert(!all_digits(t));
            }
            return d;
        }
        let dv: usize = (cu - 48) as usize;
        if acc > (usize::MAX - dv) / 10 {
            proof {
                assert(t.take(i - start + 1).drop_last() =~= t.take(i - start));
                assert(t.take(i - start + 1).last() == v@[i as int]);
                assert(digits_val(t.take(i - start + 1)) == acc * 10 + dv);
                assert(acc * 10 + dv > usize::MAX) by {
                    assert(acc >= (usize::MAX - dv) / 10 + 1);
                    assert(((usize::MAX - dv) / 10 + 1) * 10 == ((usize::MAX - dv) / 10) * 10 + 10);
                };
                if all_digits(t) {
                    lemma_digits_val_prefix(t, i - start + 1);
                }
            }
            return d;
        }
        proof {
            assert(t.take(i - start + 1).drop_last() =~= t.take(i - start));
            assert(t.take(i - start + 1).last() == v@[i as int]);
            assert(acc <= (usize::MAX - dv) / 10);
            assert(acc * 10 <= ((usize::MAX - dv) / 10) * 10);
            assert(((usize::MAX - dv) / 10) * 10 <= usize::MAX - dv);
        }
        acc = acc * 10 + dv;
        i = i + 1;
    }
    proof {
        assert(t.take(v@.len() - start) =~= t);
    }
    acc
}

/// Leading single-quote characters removed.
pub open spec fn trim_start_q(s: Seq<char>) -> Seq<char>
    decreases s.len(),
{
    if s.len() > 0 && s[0] == '\'' {
        trim_start_q(s.drop_first())
    } else {
        s
    }
}

/// Trailing single-quote characters removed.
pub open spec fn trim_end_q(s: Seq<char>) -> Seq<char>
    decreases s.len(),
{
    if s.len() > 0 && s.last() == '\'' {
        trim_end_q(s.drop_last())
    } else {
        s
    }
}

/// The string with surrounding single-quote runs removed, as the log's
/// quote-wrapped fields require.
pub open spec fn trim_quotes(s: Seq<char>) -> Seq<char> {
    trim_end_q(trim_start_q(s))
}

proof fn lemma_trim_start_skip(s: Seq<char>, k: int)
    requires
        0 <= k <= s.len(),
        forall|j: int| 0 <= j < k ==> s[j] == '\'',
        k == s.len() || s[k] != '\'',
    ensures
        trim_start_q(s) == s.skip(k),
    decreases k,
{
    if k == 0 {
        assert(s.skip(0) =~= s);
    } else {
        assert(s[0] == '\'');
        lemma_trim_start_skip(s.drop_first(), k - 1);
        assert(s.drop_first().skip(k - 1) =~= s.skip(k));
    }
}

proof fn lemma_trim_end_take(s: Seq<char>, k: int)
    requires
        0 <= k <= s.len(),
        forall|j: int| k <= j < s.len() ==> s[j] == '\'',
        k == 0 || s[k - 1] != '\'',
    ensures
        trim_end_q(s) == s.take(k),
    decreases s.len() - k,
{
    if k == s.len() {
        assert(s.take(k) =~= s);
    } else {
        assert(s.last() == '\'');
        lemma_trim_end_take(s.drop_last(), k);
        assert(s.drop_last().take(k) =~= s.take(k));
    }
}

/// The quote-trimmed characters of a string slice.
pub fn trim_quotes_chars(s: &str) -> (v: Vec<char>)
    ensures
        v@ == trim_quotes(s@),
{
    let cs = str_chars(s);
    let n = cs.len();
    let mut lo: usize = 0;
    while lo < n && cs[lo] == '\''
        invariant
            n == cs@.len(),
            lo <= n,
            forall|j: int| 0 <= j < lo ==> cs@[j] == '\'',
        decreases n - lo,
    {
        lo = lo + 1;
    }
    let mut hi: usize = n;
    while hi > lo && cs[hi - 1] == '\''
        invariant
            n == cs@.len(),
            lo <= hi <= n,
            forall|j: int| hi <= j < n ==> cs@[j] == '\'',
        decreases hi,
    {
        hi = hi - 1;
    }
    proof {
        lemma_trim_start_skip(cs@, lo as int);
        lemma_trim_end_take(cs@.skip(lo as int), hi - lo);
    }
    let mut v: Vec<char> = Vec::new();
    let mut i: usize = lo;
    while i < hi
        invariant
            lo <= i <= hi <= cs@.len(),
            v@ == cs@.subrange(lo as int, i as int),
        decreases hi - i,
    {
        v.push(cs[i]);
        i = i + 1;
        proof {
            assert(v@ =~= cs@.subrange(lo as int, i as int));
        }
    }
    proof {
        assert(cs@.skip(lo as int).take(hi - lo) =~= cs@.subrange(lo as int, hi as int));
    }
    v
}

/// One character as the quoted identifier list prints it: a double quote
/// or a backslash gains a backslash escape, any other character stands as
/// itself.
pub open spec fn esc_char(c: char) -> Seq<char> {
    if c == '"' {
        seq!['\\', '"']
    } else if c == '\\' {
        seq!['\\', '\\']
    } else {
        seq![c]
    }
}

/// A string with double quotes and backslashes backslash-escaped.
pub open spec fn esc_str(s: Seq<char>) -> Seq<char>
    decreases s.len(),
{
    if s.len() == 0 {
        Seq::empty()
    } else {
        esc_str(s.drop_last()) + esc_char(s.last())
    }
}

/// Escapes double quotes and backslashes in an identifier.
pub fn escape_id(s: &str) -> (out: String)
    ensures
        out@ == esc_str(s@),
{
    let n: usize = s.unicode_len();
    let mut out = String::new();
    let mut i: usize = 0;
    proof {
        assert(esc_str(s@.take(0)) =~= Seq::<char>::empty());
    }
    while i < n
        invariant
            n == s@.len(),
            i <= n,
            out@ == esc_str(s@.take(i as int)),
        decreases n - i,
    {
        let c = s.get_char(i);
        if c == '"' {
            out.append("\\\"");
            proof {
                reveal_strlit("\\\"");
                assert("\\\""@ =~= esc_char(c));
            }
        } else if c == '\\' {
            out.append("\\\\");
            proof {
                reveal_strlit("\\\\");
                assert("\\\\"@ =~= esc_char(c));
            }
        } else {
            let piece = s.substring_char(i, i + 1);
            out.append(piece);
            proof {
                assert(piece@ =~= esc_char(c));
            }
        }
        i = i + 1;
        proof {
            assert(s@.take(i as int).drop_last() =~= s@.take(i - 1));
            assert(s@.take(i as int).last() == s@[i - 1]);
            assert(out@ =~= esc_str(s@.take(i as int)));
        }
    }
    proof {
        assert(s@.take(n as int) =~= s@);
    }
    out
}

/// Lexicographic order on character sequences by code point, the order in
/// which the skipped-rounds warning lists round identifiers.
pub open spec fn lex_le(a: Seq<char>, b: Seq<char>) -> bool
    decreases a.len(),
{
    if a.len() == 0 {
        true
    } else if b.len() == 0 {
        false
    } else if (a[0] as u32) < (b[0] as u32) {
        true
    } else if (a[0] as u32) > (b[0] as u32) {
        false
    } else {
        lex_le(a.drop_first(), b.drop_first())
    }
}

/// Compares two strings in lexicographic code-point order.
pub fn lex_le_exec(a: &str, b: &str) -> (r: bool)
    ensures
        r == lex_le(a@, b@),
{
    let an: usize = a.unicode_len();
    let bn: usize = b.unicode_len();
    let mut i: usize = 0;
    proof {
        assert(a@.skip(0) =~= a@);
        assert(b@.skip(0) =~= b@);
    }
    loop
        invariant
            an == a@.len(),
            bn == b@.len(),
            i <= an,
            i <= bn,
            forall|j: int| 0 <= j < i ==> a@[j] == b@[j],
            lex_le(a@, b@) == lex_le(a@.skip(i as int), b@.skip(i as int)),
        decreases an - i,
    {
        if i >= an {
            return true;
        }
        if i >= bn {
            return false;
        }
        let ca = a.get_char(i) as u32;
        let cb = b.get_char(i) as u32;
        if ca < cb {
            return true;
        }
        if ca > cb {
            return false;
        }
        proof {
            assert(a@.skip(i as int).drop_first() =~= a@.skip(i + 1));
            assert(b@.skip(i as int).drop_first() =~= b@.skip(i + 1));
        }
        i = i + 1;
    }
}

/// Insertion of a string into a lexicographically sorted sequence, before
/// the first entry it does not come after.
pub open spec fn insert_sorted(x: Seq<char>, s: Seq<Seq<char>>) -> Seq<Seq<char>>
    decreases s.len(),
{
    if s.len() == 0 {
        seq![x]
    } else if lex_le(x, s[0]) {
        seq![x] + s
    } else {
        seq![s[0]] + insert_sorted(x, s.drop_first())
    }
}

/// Insertion sort of a sequence of strings in lexicographic order.
pub open spec fn sort_lex(s: Seq<Seq<char>>) -> Seq<Seq<char>>
    decreases s.len(),
{
    if s.len() == 0 {
        Seq::empty()
    } else {
        insert_sorted(s.last(), sort_lex(s.drop_last()))
    }
}

/// Sorting keeps exactly the original entries.
pub proof fn lemma_sort_lex_multiset(s: Seq<Seq<char>>)
    ensures
        sort_lex(s).to_multiset() == s.to_multiset(),
    decreases s.len(),
{
    broadcast use vstd::seq_lib::group_to_multiset_ensures;

    if s.len() > 0 {
        lemma_sort_lex_multiset(s.drop_last());
        lemma_insert_sorted_multiset(s.last(), sort_lex(s.drop_last()));
        assert(s.drop_last().push(s.last()) =~= s);
    }
}

proof fn lemma_insert_sorted_multiset(x: Seq<char>, s: Seq<Seq<char>>)
    ensures
        insert_sorted(x, s).to_multiset() == s.to_multiset().insert(x),
    decreases s.len(),
{
    broadcast use vstd::seq_lib::group_to_multiset_ensures;

    if s.len() == 0 {
        assert(seq![x] =~= Seq::<Seq<char>>::empty().push(x));
        assert(s =~= Seq::<Seq<char>>::empty());
    } else if lex_le(x, s[0]) {
        vstd::seq_lib::lemma_multiset_commutative(seq![x], s);
        assert(seq![x] =~= Seq::<Seq<char>>::empty().push(x));
        assert(seq![x].to_multiset() =~= Multiset::<Seq<char>>::empty().insert(x));
        assert((seq![x] + s).to_multiset() =~= s.to_multiset().insert(x));
    } else {
        lemma_insert_sorted_multiset(x, s.drop_first());
        vstd::seq_lib::lemma_multiset_commutative(seq![s[0]], insert_sorted(x, s.drop_first()));
        vstd::seq_lib::lemma_multiset_commutative(seq![s[0]], s.drop_first());
        assert(seq![s[0]] + s.drop_first() =~= s);
        assert((seq![s[0]] + insert_sorted(x, s.drop_first())).to_multiset() =~= s.to_multiset().insert(x));
    }
}

/// First position whose entry the string comes before, in a sorted vector.
fn find_insert_pos(x: &str, v: &Vec<String>) -> (i: usize)
    ensures
        i <= v@.len(),
        forall|j: int| 0 <= j < i ==> !lex_le(x@, v.deep_view()[j]),
        i < v@.len() ==> lex_le(x@, v.deep_view()[i as int]),
{
    let mut i: usize = 0;
    while i < v.len()
        invariant
            i <= v@.len(),
            forall|j: int| 0 <= j < i ==> !lex_le(x@, v.deep_view()[j]),
        decreases v@.len() - i,
    {
        if lex_le_exec(x, v[i].as_str()) {
            return i;
        }
        i = i + 1;
    }
    i
}

/// Inserts a string into a sorted vector of strings.
fn insert_sorted_exec(x: String, v: &mut Vec<String>)
    ensures
        final(v).deep_view() == insert_sorted(x@, old(v).deep_view()),
{
    let i = find_insert_pos(x.as_str(), v);
    v.insert(i, x);
    proof {
        lemma_insert_sorted_at(x@, old(v).deep_view(), i as int);
        assert(v.deep_view() =~= old(v).deep_view().insert(i as int, x@));
    }
}

proof fn lemma_insert_sorted_at(x: Seq<char>, s: Seq<Seq<char>>, i: int)
    requires
        0 <= i <= s.len(),
        forall|j: int| 0 <= j < i ==> !lex_le(x, s[j]),
        i < s.len() ==> lex_le(x, s[i]),
    ensures
        insert_sorted(x, s) == s.insert(i, x),
    decreases s.len(),
{
    if s.len() == 0 {
        assert(insert_sorted(x, s) =~= s.insert(0, x));
    } else if lex_le(x, s[0]) {
        assert(i == 0);
        assert(seq![x] + s =~= s.insert(0, x));
    } else {
        assert(i >= 1);
        lemma_insert_sorted_at(x, s.drop_first(), i - 1);
        assert(seq![s[0]] + s.drop_first().insert(i - 1, x) =~= s.insert(i, x));
    }
}

/// Sorts a vector of strings in lexicographic order.
pub fn sort_strings(v: Vec<String>) -> (r: Vec<String>)
    ensures
        r.deep_view() == sort_lex(v.deep_view()),
{
    let mut out: Vec<String> = Vec::new();
    let n = v.len();
    let mut v = v;
    let ghost orig: Seq<Seq<char>> = v.deep_view();
    let mut i: usize = 0;
    while i < n
        invariant
            n == v@.len(),
            i <= n,
            v.deep_view() == orig,
            out.deep_view() == sort_lex(orig.take(i as int)),
        decreases n - i,
    {
        let x = v[i].clone();
        proof {
            assert(x@ == orig[i as int]);
        }
        insert_sorted_exec(x, &mut out);
        i = i + 1;
        proof {
            assert(orig.take(i as int).drop_last() =~= orig.take(i - 1));
            assert(orig.take(i as int).last() == orig[i - 1]);
        }
    }
    proof {
        assert(orig.take(n as int) =~= orig);
    }
    out
}

/// The digit character for a value below ten.
pub open spec fn digit_char(d: int) -> char {
    if d == 0 {
        '0'
    } else if d == 1 {
        '1'
    } else if d == 2 {
        '2'
    } else if d == 3 {
        '3'
    } else if d == 4 {
        '4'
    } else if d == 5 {
        '5'
    } else if d == 6 {
        '6'
    } else if d == 7 {
        '7'
    } else if d == 8 {
        '8'
    } else {
        '9'
    }
}

/// Decimal rendering of a non-negative number, most significant digit first.
pub open spec fn dec_str(n: int) -> Seq<char>
    decreases n,
{
    if n < 10 {
        seq![digit_char(n)]
    } else {
        dec_str(n / 10).push(digit_char(n % 10))
    }
}

fn digit_str(d: u64) -> (r: &'static str)
    requires
        d < 10,
    ensures
        r@ == seq![digit_char(d as int)],
{
    proof {
        reveal_strlit("0");
        reveal_strlit("1");
        reveal_strlit("2");
        reveal_strlit("3");
        reveal_strlit("4");
        reveal_strlit("5");
        reveal_strlit("6");
        reveal_strlit("7");
        reveal_strlit("8");
        reveal_strlit("9");
    }
    let r: &'static str = if d == 0 {
        "0"
    } else if d == 1 {
        "1"
    } else if d == 2 {
        "2"
    } else if d == 3 {
        "3"
    } else if d == 4 {
        "4"
    } else if d == 5 {
        "5"
    } else if d == 6 {
        "6"
    } else if d == 7 {
        "7"
    } else if d == 8 {
        "8"
    } else {
        "9"
    };
    proof {
        assert(r@ =~= seq![digit_char(d as int)]);
    }
    r
}

/// The decimal digits of a count.
pub fn u64_dec(n: u64) -> (s: String)
    ensures
        s@ == dec_str(n as int),
    decreases n,
{
    if n < 10 {
        String::from_str(digit_str(n))
    } else {
        let s = u64_dec(n / 10);
        s.concat(digit_str(n % 10))
    }
}

/// A count as the report prints it: the integer followed by ".0", matching
/// the one-decimal formatting of whole-number counts.
pub open spec fn count_str(n: int) -> Seq<char> {
    dec_str(n) + ".0"@
}

/// Renders a count for the report.
pub fn fmt_count(n: u64) -> (s: String)
    ensures
        s@ == count_str(n as int),
{
    let s = u64_dec(n);
    s.concat(".0")
}

} // verus!
