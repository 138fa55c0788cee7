//! A string-keyed association table, the in-memory shape behind the cache's
//! maps. Entries live in a vector with pairwise-distinct keys; the table is
//! viewed abstractly as a `Map` from key characters to values, and the
//! lemmas here relate the vector operations to map operations.

use vstd::prelude::*;

verus! {

/// A table of entries with pairwise-distinct string keys.
pub struct Table<V> {
    pub entries: Vec<(String, V)>,
}

/// Keys are pairwise distinct.
pub open spec fn distinct_keys<V>(s: Seq<(String, V)>) -> bool {
    forall|i: int, j: int| 0 <= i < j < s.len() ==> s[i].0@ != s[j].0@
}

/// Some entry carries `key`.
pub open spec fn contains_str_key<V>(s: Seq<(String, V)>, key: Seq<char>) -> bool {
    exists|i: int| 0 <= i < s.len() && s[i].0@ == key
}

/// The map an entry sequence denotes; later entries win, which is
/// immaterial under `distinct_keys`.
pub open spec fn assoc_map<V>(s: Seq<(String, V)>) -> Map<Seq<char>, V>
    decreases s.len(),
{
    if s.len() == 0 {
        Map::empty()
    } else {
        assoc_map(s.drop_last()).insert(s.last().0@, s.last().1)
    }
}

/// A key is in the map exactly when some entry carries it.
pub proof fn lemma_assoc_contains<V>(s: Seq<(String, V)>, key: Seq<char>)
    ensures
        assoc_map(s).contains_key(key) <==> contains_str_key(s, key),
    decreases s.len(),
{
    if s.len() == 0 {
    } else {
        let inner = s.drop_last();
        lemma_assoc_contains(inner, key);
        if assoc_map(s).contains_key(key) {
            if s.last().0@ == key {
                assert(s[s.len() - 1].0@ == key);
            } else {
                let i = choose|i: int| 0 <= i < inner.len() && inner[i].0@ == key;
                assert(s[i].0@ == key);
            }
        }
        if contains_str_key(s, key) {
            let i = choose|i: int| 0 <= i < s.len() && s[i].0@ == key;
            if i < s.len() - 1 {
                assert(inner[i].0@ == key);
            }
        }
    }
}

/// Under distinct keys, the map sends each entry's key to its value.
pub proof fn lemma_assoc_at<V>(s: Seq<(String, V)>, i: int)
    requires
        distinct_keys(s),
        0 <= i < s.len(),
    ensures
        assoc_map(s).contains_key(s[i].0@),
        assoc_map(s)[s[i].0@] == s[i].1,
    decreases s.len(),
{
    if i == s.len() - 1 {
    } else {
        let inner = s.drop_last();
        assert forall|a: int, b: int| 0 <= a < b < inner.len() implies inner[a].0@ != inner[b].0@ by {
            assert(inner[a] == s[a]);
            assert(inner[b] == s[b]);
        }
        lemma_assoc_at(inner, i);
        assert(s.last().0@ != s[i].0@);
    }
}

/// Appending an entry inserts its key; distinctness is preserved when the
/// key was absent.
pub proof fn lemma_assoc_push<V>(s: Seq<(String, V)>, k: String, v: V)
    ensures
        assoc_map(s.push((k, v))) == assoc_map(s).insert(k@, v),
        distinct_keys(s) && !contains_str_key(s, k@) ==> distinct_keys(s.push((k, v))),
{
    let t = s.push((k, v));
    assert(t.drop_last() =~= s);
    assert(t.last() == (k, v));
    if distinct_keys(s) && !contains_str_key(s, k@) {
        assert forall|a: int, b: int| 0 <= a < b < t.len() implies t[a].0@ != t[b].0@ by {
            if b < s.len() {
                assert(t[a] == s[a] && t[b] == s[b]);
            } else {
                assert(t[b] == (k, v));
                assert(t[a] == s[a]);
            }
        }
    }
}

/// Replacing the value at an entry (keeping its key) is a map insert at
/// that key.
pub proof fn lemma_assoc_update<V>(s: Seq<(String, V)>, i: int, k: String, v: V)
    requires
        distinct_keys(s),
        0 <= i < s.len(),
        k@ == s[i].0@,
    ensures
        assoc_map(s.update(i, (k, v))) =~= assoc_map(s).insert(k@, v),
        distinct_keys(s.update(i, (k, v))),
    decreases s.len(),
{
    let t = s.update(i, (k, v));
    assert forall|a: int, b: int| 0 <= a < b < t.len() implies t[a].0@ != t[b].0@ by {
        assert(t[a].0@ == s[a].0@);
        assert(t[b].0@ == s[b].0@);
    }
    if i == s.len() - 1 {
        assert(t.drop_last() =~= s.drop_last());
        assert(t.last() == (k, v));
    } else {
        let inner = s.drop_last();
        assert forall|a: int, b: int| 0 <= a < b < inner.len() implies inner[a].0@ != inner[b].0@ by {
            assert(inner[a] == s[a]);
            assert(inner[b] == s[b]);
        }
        lemma_assoc_update(inner, i, k, v);
        assert(t.drop_last() =~= inner.update(i, (k, v)));
        assert(t.last() == s.last());
        assert(s.last().0@ != k@);
    }
}

/// Two entry sequences with equal keys and `f`-equal values denote the
/// same map of `f`-images.
pub proof fn lemma_assoc_map_values_congruent<V, W>(
    s1: Seq<(String, V)>,
    s2: Seq<(String, V)>,
    f: spec_fn(V) -> W,
)
    requires
        s1.len() == s2.len(),
        forall|i: int|
            0 <= i < s1.len() ==> (#[trigger] s1[i]).0 == s2[i].0 && f(s1[i].1) == f(s2[i].1),
    ensures
        assoc_map(s1).map_values(f) =~= assoc_map(s2).map_values(f),
    decreases s1.len(),
{
    if s1.len() == 0 {
    } else {
        let i1 = s1.drop_last();
        let i2 = s2.drop_last();
        assert forall|i: int|
            0 <= i < i1.len() implies (#[trigger] i1[i]).0 == i2[i].0 && f(i1[i].1) == f(
            i2[i].1,
        ) by {
            assert(s1[i].0 == s2[i].0 && f(s1[i].1) == f(s2[i].1));
            assert(i1[i] == s1[i]);
            assert(i2[i] == s2[i]);
        }
        lemma_assoc_map_values_congruent(i1, i2, f);
        assert(s1[s1.len() - 1].0 == s2[s1.len() - 1].0 && f(s1[s1.len() - 1].1) == f(
            s2[s1.len() - 1].1,
        ));
        assert(s1.last() == s1[s1.len() - 1]);
        assert(s2.last() == s2[s1.len() - 1]);
        let m1 = assoc_map(i1);
        let m2 = assoc_map(i2);
        let k = s1.last().0@;
        let v1 = s1.last().1;
        let v2 = s2.last().1;
        assert(m1.map_values(f) == m2.map_values(f));
        assert(assoc_map(s1).map_values(f) =~= m1.map_values(f).insert(k, f(v1)));
        assert(assoc_map(s2).map_values(f) =~= m2.map_values(f).insert(k, f(v2)));
    }
}

impl<V> Table<V> {
    /// The table is well formed: keys are pairwise distinct.
    pub open spec fn wf(&self) -> bool {
        distinct_keys(self.entries@)
    }

    /// An empty table.
    pub fn new() -> (r: Self)
        ensures
            r.wf(),
            r.entries@ == Seq::<(String, V)>::empty(),
            r@ == Map::<Seq<char>, V>::empty(),
    {
        Table { entries: Vec::new() }
    }

    /// The index of the entry carrying `key`, if any.
    pub fn index_of(&self, key: &String) -> (r: Option<usize>)
        ensures
            match r {
                Some(i) => i < self.entries@.len() && self.entries@[i as int].0@ == key@,
                None => !contains_str_key(self.entries@, key@),
            },
    {
        let mut i: usize = 0;
        while i < self.entries.len()
            invariant
                i <= self.entries@.len(),
                forall|j: int| 0 <= j < i ==> self.entries@[j].0@ != key@,
            decreases self.entries@.len() - i,
        {
            if self.entries[i].0 == *key {
                return Some(i);
            }
            i = i + 1;
        }
        None
    }

    /// The value stored under `key`, if any.
    pub fn get(&self, key: &String) -> (r: Option<&V>)
        requires
            self.wf(),
        ensures
            match r {
                Some(v) => self@.contains_key(key@) && *v == self@[key@],
                None => !self@.contains_key(key@),
            },
    {
        proof {
            lemma_assoc_contains(self.entries@, key@);
        }
        match self.index_of(key) {
            Some(i) => {
                proof {
                    lemma_assoc_at(self.entries@, i as int);
                }
                Some(&self.entries[i].1)
            },
            None => None,
        }
    }
}

impl<V> View for Table<V> {
    type V = Map<Seq<char>, V>;

    open spec fn view(&self) -> Map<Seq<char>, V> {
        assoc_map(self.entries@)
    }
}

} // verus!
