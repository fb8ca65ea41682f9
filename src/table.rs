//! A table from names to values, kept as a list of entries in which a later
//! entry for a name overrides an earlier one.
use vstd::prelude::*;

verus! {

/// The map that a list of entries denotes: the last entry for a name wins.
pub open spec fn entries_map<V>(s: Seq<(String, V)>) -> Map<Seq<char>, V>
    decreases s.len(),
{
    if s.len() == 0 {
        Map::empty()
    } else {
        entries_map(s.drop_last()).insert(s.last().0@, s.last().1)
    }
}

/// Whether no entry of `s` from index `i` on is named `k`.
pub open spec fn absent_from<V>(s: Seq<(String, V)>, i: int, k: Seq<char>) -> bool {
    forall|j: int| i <= j < s.len() ==> #[trigger] s[j].0@ != k
}

proof fn lemma_lookup<V>(s: Seq<(String, V)>, i: int, k: Seq<char>)
    requires
        0 <= i < s.len(),
        s[i].0@ == k,
        absent_from(s, i + 1, k),
    ensures
        entries_map(s).contains_key(k),
        entries_map(s)[k] == s[i].1,
    decreases s.len(),
{
    if i < s.len() - 1 {
        lemma_lookup(s.drop_last(), i, k);
    }
}

proof fn lemma_missing<V>(s: Seq<(String, V)>, k: Seq<char>)
    requires
        absent_from(s, 0, k),
    ensures
        !entries_map(s).contains_key(k),
    decreases s.len(),
{
    if s.len() > 0 {
        lemma_missing(s.drop_last(), k);
    }
}

proof fn lemma_overwrite<V>(s: Seq<(String, V)>, i: int, e: (String, V))
    requires
        0 <= i < s.len(),
        s[i].0@ == e.0@,
        absent_from(s, i + 1, e.0@),
    ensures
        entries_map(s.update(i, e)) == entries_map(s).insert(e.0@, e.1),
    decreases s.len(),
{
    let t = s.update(i, e);
    if i == s.len() - 1 {
        assert(t.drop_last() =~= s.drop_last());
        assert(entries_map(t) =~= entries_map(s).insert(e.0@, e.1));
    } else {
        assert(t.drop_last() =~= s.drop_last().update(i, e));
        lemma_overwrite(s.drop_last(), i, e);
        assert(entries_map(t) =~= entries_map(s).insert(e.0@, e.1));
    }
}

/// A table from names to values.
pub struct Table<V> {
    entries: Vec<(String, V)>,
}

impl<V> View for Table<V> {
    type V = Map<Seq<char>, V>;

    closed spec fn view(&self) -> Map<Seq<char>, V> {
        entries_map(self.entries@)
    }
}

impl<V> Table<V> {
    /// An empty table.
    pub fn new() -> (r: Self)
        ensures
            r@ == Map::<Seq<char>, V>::empty(),
    {
        Table { entries: Vec::new() }
    }

    /// The value stored under `k`, if any.
    pub fn get(&self, k: &String) -> (r: Option<&V>)
        ensures
            r is Some <==> self@.contains_key(k@),
            r matches Some(v) ==> *v == self@[k@],
    {
        let mut i = self.entries.len();
        while i > 0
            invariant
                i <= self.entries@.len(),
                absent_from(self.entries@, i as int, k@),
            decreases i,
        {
            i = i - 1;
            if self.entries[i].0 == *k {
                proof {
                    lemma_lookup(self.entries@, i as int, k@);
                }
                return Some(&self.entries[i].1);
            }
        }
        proof {
            lemma_missing(self.entries@, k@);
        }
        None
    }

    /// Stores `v` under `k`, replacing what was there.
    pub fn set(&mut self, k: String, v: V)
        ensures
            final(self)@ == old(self)@.insert(k@, v),
    {
        let mut i = self.entries.len();
        while i > 0
            invariant
                i <= self.entries@.len(),
                self.entries@ == old(self).entries@,
                absent_from(self.entries@, i as int, k@),
            decreases i,
        {
            i = i - 1;
            if self.entries[i].0 == k {
                proof {
                    lemma_overwrite(self.entries@, i as int, (k, v));
                }
                self.entries.set(i, (k, v));
                return;
            }
        }
        let ghost before = self.entries@;
        self.entries.push((k, v));
        assert(self.entries@.drop_last() =~= before);
    }
}

} // verus!
