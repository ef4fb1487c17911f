//! The round map: round identifier to the ordered question-type codes of
//! that round.
//!
//! The map keeps its entries in insertion order, with each identifier held
//! at most once. Merging a later document's map warns about identifiers
//! that are already present and keeps the first definition.

use vstd::prelude::*;

verus! {

use crate::text::str_eq;

/// One round's entry: the quote-wrapped identifier and the type codes, one
/// per question position.
pub struct RoundEntry {
    pub round: String,
    pub types: Vec<char>,
}

impl View for RoundEntry {
    type V = (Seq<char>, Seq<char>);

    open spec fn view(&self) -> (Seq<char>, Seq<char>) {
        (self.round@, self.types@)
    }
}

/// Whether the entry sequence holds a given round identifier.
pub open spec fn rm_contains(m: Seq<(Seq<char>, Seq<char>)>, k: Seq<char>) -> bool {
    exists|i: int| 0 <= i < m.len() && m[i].0 == k
}

/// Index of the first entry with a given identifier.
pub open spec fn rm_first_index(m: Seq<(Seq<char>, Seq<char>)>, k: Seq<char>) -> int
    decreases m.len(),
{
    if m.len() == 0 {
        0
    } else if m[0].0 == k {
        0
    } else {
        1 + rm_first_index(m.drop_first(), k)
    }
}

/// The type codes under a given identifier (meaningful when present).
pub open spec fn rm_get(m: Seq<(Seq<char>, Seq<char>)>, k: Seq<char>) -> Seq<char> {
    m[rm_first_index(m, k)].1
}

/// Every identifier occurs at most once.
pub open spec fn rm_wf(m: Seq<(Seq<char>, Seq<char>)>) -> bool {
    forall|i: int, j: int| 0 <= i < j < m.len() ==> m[i].0 != m[j].0
}

/// The map with `k` bound to `v`: overwritten in place when present,
/// appended otherwise.
pub open spec fn rm_set(
    m: Seq<(Seq<char>, Seq<char>)>,
    k: Seq<char>,
    v: Seq<char>,
) -> Seq<(Seq<char>, Seq<char>)> {
    if rm_contains(m, k) {
        m.update(rm_first_index(m, k), (k, v))
    } else {
        m.push((k, v))
    }
}

pub proof fn lemma_rm_first_index(m: Seq<(Seq<char>, Seq<char>)>, k: Seq<char>)
    requires
        rm_contains(m, k),
    ensures
        0 <= rm_first_index(m, k) < m.len(),
        m[rm_first_index(m, k)].0 == k,
        forall|j: int| 0 <= j < rm_first_index(m, k) ==> m[j].0 != k,
    decreases m.len(),
{
    if m.len() > 0 && m[0].0 != k {
        assert(rm_contains(m.drop_first(), k)) by {
            let i = choose|i: int| 0 <= i < m.len() && m[i].0 == k;
            assert(m.drop_first()[i - 1].0 == k);
        }
        lemma_rm_first_index(m.drop_first(), k);
        assert forall|j: int| 0 <= j < rm_first_index(m, k) implies m[j].0 != k by {
            if j > 0 {
                assert(m.drop_first()[j - 1].0 != k);
            }
        }
    }
}

/// Setting a key keeps identifiers unique.
pub proof fn lemma_rm_set_wf(m: Seq<(Seq<char>, Seq<char>)>, k: Seq<char>, v: Seq<char>)
    requires
        rm_wf(m),
    ensures
        rm_wf(rm_set(m, k, v)),
{
    if rm_contains(m, k) {
        lemma_rm_first_index(m, k);
    }
}

/// Appending an entry adds exactly its identifier to the map's keys.
pub proof fn lemma_rm_contains_push(
    m: Seq<(Seq<char>, Seq<char>)>,
    e: (Seq<char>, Seq<char>),
    k: Seq<char>,
)
    ensures
        rm_contains(m.push(e), k) <==> (rm_contains(m, k) || e.0 == k),
{
    if rm_contains(m, k) {
        let i = choose|i: int| 0 <= i < m.len() && m[i].0 == k;
        assert(m.push(e)[i].0 == k);
    }
    if e.0 == k {
        assert(m.push(e)[m.len() as int].0 == k);
    }
    if rm_contains(m.push(e), k) {
        let i = choose|i: int| 0 <= i < m.push(e).len() && m.push(e)[i].0 == k;
        if i < m.len() {
            assert(m[i].0 == k);
        }
    }
}

/// Appending an entry moves no existing identifier: its first position and
/// its type codes stay what they were.
pub proof fn lemma_rm_push_preserves(
    m: Seq<(Seq<char>, Seq<char>)>,
    e: (Seq<char>, Seq<char>),
    k: Seq<char>,
)
    requires
        rm_contains(m, k),
    ensures
        rm_contains(m.push(e), k),
        rm_first_index(m.push(e), k) == rm_first_index(m, k),
        rm_get(m.push(e), k) == rm_get(m, k),
    decreases m.len(),
{
    lemma_rm_contains_push(m, e, k);
    lemma_rm_first_index(m, k);
    if m[0].0 == k {
        assert(m.push(e)[0] == m[0]);
    } else {
        assert(rm_contains(m.drop_first(), k)) by {
            let i = choose|i: int| 0 <= i < m.len() && m[i].0 == k;
            assert(m.drop_first()[i - 1].0 == k);
        }
        lemma_rm_push_preserves(m.drop_first(), e, k);
        assert(m.push(e).drop_first() =~= m.drop_first().push(e));
        assert(m.push(e)[rm_first_index(m, k)] == m[rm_first_index(m, k)]);
    }
}

/// Appending an entry with a fresh identifier binds that identifier to the
/// entry's type codes, at the end.
pub proof fn lemma_rm_push_new(m: Seq<(Seq<char>, Seq<char>)>, e: (Seq<char>, Seq<char>))
    requires
        !rm_contains(m, e.0),
    ensures
        rm_contains(m.push(e), e.0),
        rm_first_index(m.push(e), e.0) == m.len(),
        rm_get(m.push(e), e.0) == e.1,
    decreases m.len(),
{
    lemma_rm_contains_push(m, e, e.0);
    if m.len() == 0 {
        assert(m.push(e)[0] == e);
    } else {
        assert(m[0].0 != e.0);
        assert(!rm_contains(m.drop_first(), e.0)) by {
            if rm_contains(m.drop_first(), e.0) {
                let i = choose|i: int|
                    0 <= i < m.drop_first().len() && m.drop_first()[i].0 == e.0;
                assert(m[i + 1].0 == e.0);
            }
        }
        lemma_rm_push_new(m.drop_first(), e);
        assert(m.push(e).drop_first() =~= m.drop_first().push(e));
        assert(m.push(e)[m.len() as int] == e);
    }
}

/// Mapping from round identifier to the round's question-type codes,
/// insertion-ordered, each identifier at most once.
pub struct RoundMap {
    entries: Vec<RoundEntry>,
}

impl View for RoundMap {
    type V = Seq<(Seq<char>, Seq<char>)>;

    closed spec fn view(&self) -> Seq<(Seq<char>, Seq<char>)> {
        self.entries@.map_values(|e: RoundEntry| e@)
    }
}

impl RoundMap {
    /// Identifiers are unique.
    pub open spec fn wf(&self) -> bool {
        rm_wf(self@)
    }

    /// An empty map.
    pub fn new() -> (m: RoundMap)
        ensures
            m@ == Seq::<(Seq<char>, Seq<char>)>::empty(),
            m.wf(),
    {
        let m = RoundMap { entries: Vec::new() };
        proof {
            assert(m@ =~= Seq::<(Seq<char>, Seq<char>)>::empty());
        }
        m
    }

    /// Number of rounds defined.
    pub fn len(&self) -> (n: usize)
        ensures
            n == self@.len(),
    {
        self.entries.len()
    }

    /// Index of the entry holding the identifier, if any.
    fn find(&self, round: &str) -> (r: Option<usize>)
        ensures
            match r {
                Some(i) => {
                    &&& 0 <= i < self@.len()
                    &&& self@[i as int].0 == round@
                    &&& i as int == rm_first_index(self@, round@)
                    &&& rm_contains(self@, round@)
                },
                None => !rm_contains(self@, round@),
            },
    {
        let n = self.entries.len();
        let mut i: usize = 0;
        while i < n
            invariant
                n == self.entries@.len(),
                i <= n,
                forall|j: int| 0 <= j < i ==> self@[j].0 != round@,
            decreases n - i,
        {
            if str_eq(self.entries[i].round.as_str(), round) {
                proof {
                    assert(self@[i as int].0 == round@);
                    lemma_rm_first_index(self@, round@);
                }
                return Some(i);
            }
            i = i + 1;
        }
        None
    }

    /// The type codes of a round, when the round is defined.
    pub fn get(&self, round: &str) -> (r: Option<&Vec<char>>)
        ensures
            match r {
                Some(v) => rm_contains(self@, round@) && v@ == rm_get(self@, round@),
                None => !rm_contains(self@, round@),
            },
    {
        match self.find(round) {
            Some(i) => Some(&self.entries[i].types),
            None => None,
        }
    }

    /// Whether a round is defined.
    pub fn contains(&self, round: &str) -> (b: bool)
        ensures
            b == rm_contains(self@, round@),
    {
        self.find(round).is_some()
    }

    /// Binds an identifier to type codes, replacing any previous binding in
    /// place; a new identifier goes to the end.
    pub fn set(&mut self, round: String, types: Vec<char>)
        ensures
            final(self)@ == rm_set(old(self)@, round@, types@),
            old(self).wf() ==> final(self).wf(),
    {
        proof {
            if rm_wf(self@) {
                lemma_rm_set_wf(self@, round@, types@);
            }
        }
        match self.find(round.as_str()) {
            Some(i) => {
                self.entries.remove(i);
                self.entries.insert(i, RoundEntry { round, types });
                proof {
                    assert(self@ =~= rm_set(old(self)@, round@, types@));
                }
            },
            None => {
                self.entries.push(RoundEntry { round, types });
                proof {
                    assert(self@ =~= rm_set(old(self)@, round@, types@));
                }
            },
        }
    }

    /// The entry at a position, as identifier and type codes.
    pub fn entry_at(&self, i: usize) -> (r: (&String, &Vec<char>))
        requires
            i < self@.len(),
        ensures
            r.0@ == self@[i as int].0,
            r.1@ == self@[i as int].1,
    {
        (&self.entries[i].round, &self.entries[i].types)
    }
}

} // verus!
