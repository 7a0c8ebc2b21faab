//! The author index: an ordered map from author identifier to display name,
//! built during the first pass over the dump and read during the second.
//! Entries are held sorted by identifier, so iteration yields key order.

use vstd::prelude::*;
use crate::text::{str_lt, str_lt_exec, str_eq, lemma_str_lt_irrefl, lemma_str_lt_total};

verus! {

/// One committed `identifier -> display name` pair.
pub struct IndexEntry {
    pub id: String,
    pub name: String,
}

/// The ordered author index.
pub struct AuthorIndex {
    pub entries: Vec<IndexEntry>,
}

/// The entries of the index as pairs of character sequences.
pub open spec fn entry_view(entries: Seq<IndexEntry>) -> Seq<(Seq<char>, Seq<char>)> {
    Seq::new(entries.len(), |i: int| (entries[i].id@, entries[i].name@))
}

/// Keys strictly increase along the sequence.
pub open spec fn entries_sorted(s: Seq<(Seq<char>, Seq<char>)>) -> bool {
    forall|i: int, j: int| 0 <= i < j < s.len() ==> str_lt(#[trigger] s[i].0, #[trigger] s[j].0)
}

/// No key occurs twice.
pub open spec fn distinct_keys(s: Seq<(Seq<char>, Seq<char>)>) -> bool {
    forall|i: int, j: int| 0 <= i < j < s.len() ==> (#[trigger] s[i]).0 != (#[trigger] s[j]).0
}

/// The mathematical map an entry sequence stands for.
pub open spec fn map_of_entries(s: Seq<(Seq<char>, Seq<char>)>) -> Map<Seq<char>, Seq<char>> {
    Map::new(
        |k: Seq<char>| exists|i: int| 0 <= i < s.len() && (#[trigger] s[i]).0 == k,
        |k: Seq<char>| s[choose|i: int| 0 <= i < s.len() && (#[trigger] s[i]).0 == k].1,
    )
}

/// Upsert into a key-sorted entry sequence: an existing key has its value
/// replaced in place, a new key enters at its ordered position.
pub open spec fn sorted_upsert(
    s: Seq<(Seq<char>, Seq<char>)>,
    k: Seq<char>,
    v: Seq<char>,
) -> Seq<(Seq<char>, Seq<char>)>
    decreases s.len(),
{
    if s.len() == 0 {
        seq![(k, v)]
    } else if str_lt(s[0].0, k) {
        seq![s[0]] + sorted_upsert(s.skip(1), k, v)
    } else if s[0].0 == k {
        seq![(k, v)] + s.skip(1)
    } else {
        seq![(k, v)] + s
    }
}

pub proof fn lemma_sorted_implies_distinct(s: Seq<(Seq<char>, Seq<char>)>)
    requires
        entries_sorted(s),
    ensures
        distinct_keys(s),
{
    assert forall|i: int, j: int| 0 <= i < j < s.len() implies (#[trigger] s[i]).0 != (
    #[trigger] s[j]).0 by {
        assert(str_lt(s[i].0, s[j].0));
        if s[i].0 == s[j].0 {
            lemma_str_lt_irrefl(s[i].0);
        }
    }
}

/// Under distinct keys, entry `i` is in the map with its own value.
pub proof fn lemma_map_of_entries_at(s: Seq<(Seq<char>, Seq<char>)>, i: int)
    requires
        distinct_keys(s),
        0 <= i < s.len(),
    ensures
        map_of_entries(s).contains_key(s[i].0),
        map_of_entries(s)[s[i].0] == s[i].1,
{
    let k = s[i].0;
    assert(exists|j: int| 0 <= j < s.len() && (#[trigger] s[j]).0 == k) by {
        assert(0 <= i < s.len() && s[i].0 == k);
    }
    let j = choose|j: int| 0 <= j < s.len() && (#[trigger] s[j]).0 == k;
    if j < i {
        assert(s[j].0 != s[i].0);
        assert(false);
    } else if i < j {
        assert(s[i].0 != s[j].0);
        assert(false);
    }
}

/// A key held by no entry is not in the map.
pub proof fn lemma_map_of_entries_absent(s: Seq<(Seq<char>, Seq<char>)>, k: Seq<char>)
    requires
        forall|i: int| 0 <= i < s.len() ==> (#[trigger] s[i]).0 != k,
    ensures
        !map_of_entries(s).contains_key(k),
{
}

/// Where the scan for `k` in a sorted sequence stops, `sorted_upsert` acts:
/// at an equal key it updates in place, otherwise it splices `(k, v)` in.
pub proof fn lemma_sorted_upsert_at(
    s: Seq<(Seq<char>, Seq<char>)>,
    k: Seq<char>,
    v: Seq<char>,
    p: int,
)
    requires
        entries_sorted(s),
        0 <= p <= s.len(),
        forall|j: int| 0 <= j < p ==> str_lt((#[trigger] s[j]).0, k),
        p < s.len() ==> !str_lt(s[p].0, k),
    ensures
        p < s.len() && s[p].0 == k ==> sorted_upsert(s, k, v) == s.update(p, (k, v)),
        !(p < s.len() && s[p].0 == k) ==> sorted_upsert(s, k, v) == s.take(p) + seq![(k, v)]
            + s.skip(p),
    decreases s.len(),
{
    if s.len() == 0 {
        assert(sorted_upsert(s, k, v) =~= s.take(0) + seq![(k, v)] + s.skip(0));
    } else if p == 0 {
        if s[0].0 == k {
            assert(sorted_upsert(s, k, v) =~= s.update(0, (k, v)));
        } else {
            assert(sorted_upsert(s, k, v) =~= s.take(0) + seq![(k, v)] + s.skip(0));
        }
    } else {
        assert(str_lt(s[0].0, k));
        let t = s.skip(1);
        assert forall|i: int, j: int| 0 <= i < j < t.len() implies str_lt(
            (#[trigger] t[i]).0,
            (#[trigger] t[j]).0,
        ) by {
            assert(t[i] == s[i + 1]);
            assert(t[j] == s[j + 1]);
        }
        assert forall|j: int| 0 <= j < p - 1 implies str_lt((#[trigger] t[j]).0, k) by {
            assert(t[j] == s[j + 1]);
        }
        assert(p - 1 < t.len() ==> t[p - 1] == s[p]);
        lemma_sorted_upsert_at(t, k, v, p - 1);
        assert(sorted_upsert(s, k, v) == seq![s[0]] + sorted_upsert(t, k, v));
        if p < s.len() && s[p].0 == k {
            assert(seq![s[0]] + t.update(p - 1, (k, v)) =~= s.update(p, (k, v)));
        } else {
            assert(seq![s[0]] + (t.take(p - 1) + seq![(k, v)] + t.skip(p - 1)) =~= s.take(p)
                + seq![(k, v)] + s.skip(p));
        }
    }
}

/// Splicing a fresh key into an entry sequence inserts it into the map.
pub proof fn lemma_splice_map(s: Seq<(Seq<char>, Seq<char>)>, p: int, k: Seq<char>, v: Seq<char>)
    requires
        distinct_keys(s),
        0 <= p <= s.len(),
        forall|i: int| 0 <= i < s.len() ==> (#[trigger] s[i]).0 != k,
    ensures
        map_of_entries(s.take(p) + seq![(k, v)] + s.skip(p)) == map_of_entries(s).insert(k, v),
{
    let t = s.take(p) + seq![(k, v)] + s.skip(p);
    assert(t.len() == s.len() + 1);
    assert(forall|i: int| 0 <= i < p ==> #[trigger] t[i] == s[i]);
    assert(t[p] == (k, v));
    assert(forall|i: int| p < i < t.len() ==> #[trigger] t[i] == s[i - 1]);
    assert forall|i: int, j: int| 0 <= i < j < t.len() implies (#[trigger] t[i]).0 != (
    #[trigger] t[j]).0 by {
        if i < p && j < p {
            assert(s[i].0 != s[j].0);
        } else if i < p && j == p {
        } else if i < p && j > p {
            if i < j - 1 {
                assert(s[i].0 != s[j - 1].0);
            }
        } else if i == p {
        } else {
            assert(s[i - 1].0 != s[j - 1].0);
        }
    }
    let m1 = map_of_entries(t);
    let m2 = map_of_entries(s).insert(k, v);
    assert forall|k2: Seq<char>| m1.contains_key(k2) implies m2.contains_key(k2) && m1[k2]
        == m2[k2] by {
        let i = choose|i: int| 0 <= i < t.len() && (#[trigger] t[i]).0 == k2;
        lemma_map_of_entries_at(t, i);
        if i == p {
            assert(k2 == k);
            assert(m1[k2] == v);
        } else {
            let j: int = if i < p { i } else { i - 1 };
            assert(t[i] == s[j]);
            lemma_map_of_entries_at(s, j);
            assert(k2 != k);
        }
    }
    assert forall|k2: Seq<char>| m2.contains_key(k2) implies m1.contains_key(k2) by {
        if k2 == k {
            assert(t[p].0 == k2);
        } else {
            let j = choose|j: int| 0 <= j < s.len() && (#[trigger] s[j]).0 == k2;
            let i: int = if j < p { j } else { j + 1 };
            assert(t[i].0 == k2);
        }
    }
    assert(m1 =~= m2);
}

/// Replacing the value at an existing key updates the map at that key alone.
pub proof fn lemma_update_map(s: Seq<(Seq<char>, Seq<char>)>, p: int, v: Seq<char>)
    requires
        distinct_keys(s),
        0 <= p < s.len(),
    ensures
        map_of_entries(s.update(p, (s[p].0, v))) == map_of_entries(s).insert(s[p].0, v),
{
    let k = s[p].0;
    let t = s.update(p, (k, v));
    assert(forall|i: int| 0 <= i < s.len() && i != p ==> #[trigger] t[i] == s[i]);
    assert forall|i: int, j: int| 0 <= i < j < t.len() implies (#[trigger] t[i]).0 != (
    #[trigger] t[j]).0 by {
        assert(s[i].0 != s[j].0);
        assert(t[i].0 == s[i].0);
        assert(t[j].0 == s[j].0);
    }
    let m1 = map_of_entries(t);
    let m2 = map_of_entries(s).insert(k, v);
    assert forall|k2: Seq<char>| m1.contains_key(k2) implies m2.contains_key(k2) && m1[k2]
        == m2[k2] by {
        let i = choose|i: int| 0 <= i < t.len() && (#[trigger] t[i]).0 == k2;
        lemma_map_of_entries_at(t, i);
        lemma_map_of_entries_at(s, i);
        if i == p {
            assert(k2 == k);
            assert(m1[k2] == v);
        } else {
            assert(k2 != k);
            assert(t[i].1 == s[i].1);
        }
    }
    assert forall|k2: Seq<char>| m2.contains_key(k2) implies m1.contains_key(k2) by {
        if k2 == k {
            assert(t[p].0 == k2);
        } else {
            let j = choose|j: int| 0 <= j < s.len() && (#[trigger] s[j]).0 == k2;
            assert(t[j].0 == k2);
        }
    }
    assert(m1 =~= m2);
}

impl AuthorIndex {
    /// The entries as pairs of character sequences, in storage order.
    pub open spec fn entry_seq(self) -> Seq<(Seq<char>, Seq<char>)> {
        entry_view(self.entries@)
    }

    /// The map the index stands for.
    pub open spec fn as_map(self) -> Map<Seq<char>, Seq<char>> {
        map_of_entries(self.entry_seq())
    }

    /// Well-formed: entries strictly sorted by identifier.
    pub open spec fn wf(self) -> bool {
        entries_sorted(self.entry_seq())
    }

    /// An empty index.
    pub fn new() -> (r: AuthorIndex)
        ensures
            r.wf(),
            r.entry_seq() == Seq::<(Seq<char>, Seq<char>)>::empty(),
            r.as_map() == Map::<Seq<char>, Seq<char>>::empty(),
    {
        let r = AuthorIndex { entries: Vec::new() };
        proof {
            assert(r.entry_seq() =~= Seq::<(Seq<char>, Seq<char>)>::empty());
            assert(r.as_map() =~= Map::<Seq<char>, Seq<char>>::empty());
        }
        r
    }

    /// Upsert: a repeated identifier keeps its position and takes the new
    /// name (last write wins); a new identifier enters in key order.
    pub fn insert(&mut self, id: String, name: String)
        requires
            old(self).wf(),
        ensures
            final(self).wf(),
            final(self).entry_seq() == sorted_upsert(old(self).entry_seq(), id@, name@),
            final(self).as_map() == old(self).as_map().insert(id@, name@),
    {
        let ghost s0 = old(self).entry_seq();
        let mut p: usize = 0;
        while p < self.entries.len() && str_lt_exec(self.entries[p].id.as_str(), id.as_str())
            invariant
                self.entries@ == old(self).entries@,
                s0 == entry_view(self.entries@),
                p <= self.entries.len(),
                forall|j: int| 0 <= j < p ==> str_lt((#[trigger] s0[j]).0, id@),
            decreases self.entries.len() - p,
        {
            proof {
                assert(s0[p as int].0 == self.entries@[p as int].id@);
            }
            p += 1;
        }
        proof {
            lemma_sorted_implies_distinct(s0);
            lemma_sorted_upsert_at(s0, id@, name@, p as int);
        }
        let found: bool = p < self.entries.len() && str_eq(self.entries[p].id.as_str(), id.as_str());
        if found {
            let ghost t = s0.update(p as int, (id@, name@));
            self.entries.remove(p);
            self.entries.insert(p, IndexEntry { id, name });
            proof {
                assert(self.entry_seq() =~= t);
                lemma_update_map(s0, p as int, t[p as int].1);
                assert forall|i: int, j: int| 0 <= i < j < t.len() implies str_lt(
                    (#[trigger] t[i]).0,
                    (#[trigger] t[j]).0,
                ) by {
                    assert(t[i].0 == s0[i].0);
                    assert(t[j].0 == s0[j].0);
                }
            }
        } else {
            let ghost t = s0.take(p as int) + seq![(id@, name@)] + s0.skip(p as int);
            self.entries.insert(p, IndexEntry { id, name });
            proof {
                assert(self.entry_seq() =~= t);
                assert(forall|i: int| 0 <= i < s0.len() ==> (#[trigger] s0[i]).0 != id@) by {
                    assert forall|i: int| 0 <= i < s0.len() implies (#[trigger] s0[i]).0 != id@ by {
                        if i < p {
                            lemma_str_lt_irrefl(id@);
                        } else if i == p {
                        } else {
                            assert(str_lt(s0[p as int].0, s0[i].0));
                            lemma_str_lt_total(s0[p as int].0, id@);
                            if s0[i].0 == id@ {
                                assert(str_lt(s0[p as int].0, id@));
                            }
                        }
                    }
                }
                lemma_splice_map(s0, p as int, id@, name@);
                assert forall|i: int, j: int| 0 <= i < j < t.len() implies str_lt(
                    (#[trigger] t[i]).0,
                    (#[trigger] t[j]).0,
                ) by {
                    lemma_str_lt_total(s0[p as int].0, id@);
                    if p < s0.len() {
                        assert(str_lt(id@, s0[p as int].0));
                    }
                    if i < p && j == p {
                        assert(t[i].0 == s0[i].0);
                    } else if i < p && j > p {
                        assert(t[i].0 == s0[i].0);
                        assert(t[j].0 == s0[j - 1].0);
                    } else if i == p && j > p {
                        assert(t[j].0 == s0[j - 1].0);
                        if j - 1 > p {
                            crate::text::lemma_str_lt_trans(id@, s0[p as int].0, s0[j - 1].0);
                        }
                    } else if i < p && j < p {
                        assert(t[i].0 == s0[i].0);
                        assert(t[j].0 == s0[j].0);
                    } else {
                        assert(t[i].0 == s0[i - 1].0);
                        assert(t[j].0 == s0[j - 1].0);
                    }
                }
            }
        }
    }

    /// Looks an identifier up in the committed index.
    pub fn get(&self, id: &str) -> (r: Option<String>)
        requires
            self.wf(),
        ensures
            match r {
                Some(n) => self.as_map().contains_key(id@) && self.as_map()[id@] == n@,
                None => !self.as_map().contains_key(id@),
            },
    {
        proof {
            lemma_sorted_implies_distinct(self.entry_seq());
        }
        let mut i: usize = 0;
        while i < self.entries.len()
            invariant
                self.wf(),
                distinct_keys(self.entry_seq()),
                i <= self.entries.len(),
                forall|j: int| 0 <= j < i ==> (#[trigger] self.entry_seq()[j]).0 != id@,
            decreases self.entries.len() - i,
        {
            if str_eq(self.entries[i].id.as_str(), id) {
                proof {
                    lemma_map_of_entries_at(self.entry_seq(), i as int);
                }
                return Some(self.entries[i].name.clone());
            }
            i += 1;
        }
        proof {
            lemma_map_of_entries_absent(self.entry_seq(), id@);
        }
        None
    }

    /// How many authors the index holds.
    pub fn len(&self) -> (r: usize)
        ensures
            r == self.entry_seq().len(),
    {
        self.entries.len()
    }
}

} // verus!
