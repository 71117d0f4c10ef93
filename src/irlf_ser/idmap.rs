use vstd::prelude::*;

verus! {

/// A map keyed by numeric ids, kept as a list of entries in strictly increasing key order.
#[derive(Debug, Clone, PartialEq, Eq)]
pub struct IdMap<V> {
    entries: Vec<(u64, V)>,
}

/// The keys of `s` increase strictly.
pub open spec fn sorted_keys<V>(s: Seq<(u64, V)>) -> bool {
    forall|i: int, j: int| 0 <= i < j < s.len() ==> #[trigger] s[i].0 < #[trigger] s[j].0
}

/// In a list with strictly increasing keys, a key stands at one index only.
pub proof fn lemma_unique_index<V>(s: Seq<(u64, V)>, a: int, b: int)
    requires
        sorted_keys(s),
        0 <= a < s.len(),
        0 <= b < s.len(),
        s[a].0 == s[b].0,
    ensures
        a == b,
{
    if a < b {
        assert(s[a].0 < s[b].0);
    } else if b < a {
        assert(s[b].0 < s[a].0);
    }
}

impl<V> IdMap<V> {
    /// The entries, in increasing key order.
    pub closed spec fn entries_view(&self) -> Seq<(u64, V)> {
        self.entries@
    }

    pub open spec fn wf(&self) -> bool {
        sorted_keys(self.entries_view())
    }

    /// The keys, in increasing order.
    pub open spec fn keys(&self) -> Seq<u64> {
        self.entries_view().map_values(|e: (u64, V)| e.0)
    }

    /// The map that the entries describe.
    pub open spec fn view_map(&self) -> Map<u64, V> {
        Map::new(
            |k: u64| exists|i: int| 0 <= i < self.entries_view().len() && self.entries_view()[i].0 == k,
            |k: u64|
                self.entries_view()[choose|i: int|
                    0 <= i < self.entries_view().len() && self.entries_view()[i].0 == k].1,
        )
    }

    /// An empty map.
    pub fn new() -> (r: Self)
        ensures
            r.wf(),
            r.entries_view().len() == 0,
    {
        IdMap { entries: Vec::new() }
    }

    /// The number of entries.
    pub fn len(&self) -> (r: usize)
        ensures
            r == self.entries_view().len(),
    {
        self.entries.len()
    }

    /// The key and value of the `i`-th entry in key order.
    pub fn entry(&self, i: usize) -> (r: (u64, &V))
        requires
            i < self.entries_view().len(),
        ensures
            r.0 == self.entries_view()[i as int].0,
            *r.1 == self.entries_view()[i as int].1,
    {
        let e = &self.entries[i];
        (e.0, &e.1)
    }

    /// Where `k` stands in the entries, if it is a key.
    pub fn position(&self, k: u64) -> (r: Option<usize>)
        requires
            self.wf(),
        ensures
            r matches Some(i) ==> i < self.entries_view().len() && self.entries_view()[i as int].0 == k,
            r is None ==> forall|i: int|
                0 <= i < self.entries_view().len() ==> #[trigger] self.entries_view()[i].0 != k,
    {
        let mut i: usize = 0;
        while i < self.entries.len()
            invariant
                i <= self.entries@.len(),
                forall|j: int| 0 <= j < i ==> #[trigger] self.entries@[j].0 != k,
            decreases self.entries@.len() - i,
        {
            if self.entries[i].0 == k {
                return Some(i);
            }
            i += 1;
        }
        None
    }

    /// The value under `k`, if any.
    pub fn get(&self, k: u64) -> (r: Option<&V>)
        requires
            self.wf(),
        ensures
            r is None <==> !self.view_map().contains_key(k),
            r matches Some(v) ==> *v == self.view_map()[k],
    {
        match self.position(k) {
            Some(i) => {
                let ghost j = choose|j: int|
                    0 <= j < self.entries_view().len() && self.entries_view()[j].0 == k;
                assert(j == i) by {
                    if j < i {
                        assert(self.entries_view()[j].0 < self.entries_view()[i as int].0);
                    } else if j > i {
                        assert(self.entries_view()[i as int].0 < self.entries_view()[j].0);
                    }
                }
                Some(&self.entries[i].1)
            },
            None => None,
        }
    }

    /// Whether `k` is a key.
    pub fn contains_key(&self, k: u64) -> (r: bool)
        requires
            self.wf(),
        ensures
            r == self.view_map().contains_key(k),
    {
        self.position(k).is_some()
    }

    /// Sets the value under `k`, replacing any value it had.
    pub fn insert(&mut self, k: u64, v: V)
        requires
            old(self).wf(),
        ensures
            final(self).wf(),
            final(self).view_map() == old(self).view_map().insert(k, v),
    {
        let ghost old_entries = self.entries@;
        let mut i: usize = 0;
        while i < self.entries.len() && self.entries[i].0 < k
            invariant
                self.entries@ == old_entries,
                i <= self.entries@.len(),
                forall|j: int| 0 <= j < i ==> #[trigger] self.entries@[j].0 < k,
            decreases self.entries@.len() - i,
        {
            i += 1;
        }
        if i < self.entries.len() && self.entries[i].0 == k {
            self.entries.remove(i);
        }
        self.entries.insert(i, (k, v));
        assert(self.wf()) by {
            assert forall|a: int, b: int|
                0 <= a < b < self.entries@.len() implies #[trigger] self.entries@[a].0
                < #[trigger] self.entries@[b].0 by {
                if a < i && b > i {
                    assert(self.entries@[a].0 < k);
                }
            }
        }
        let ghost m = old(self).view_map().insert(k, v);
        assert(self.view_map() =~= m) by {
            assert forall|key: u64| #[trigger] self.view_map().contains_key(key) == m.contains_key(key) by {
                if m.contains_key(key) && key != k {
                    let j = choose|j: int| 0 <= j < old_entries.len() && old_entries[j].0 == key;
                    if j < i {
                        assert(self.entries@[j].0 == key);
                    } else {
                        assert(old_entries[j].0 > k || old_entries[j].0 == k);
                        if old_entries[j].0 == k {
                        } else if i < old_entries.len() && old_entries[i as int].0 == k {
                            assert(self.entries@[j].0 == key);
                        } else {
                            assert(self.entries@[j + 1].0 == key);
                        }
                    }
                }
                if key == k {
                    assert(self.entries@[i as int].0 == k);
                }
                if self.view_map().contains_key(key) && key != k {
                    let j = choose|j: int| 0 <= j < self.entries@.len() && self.entries@[j].0 == key;
                    if j < i {
                        assert(old_entries[j].0 == key);
                    } else if i < old_entries.len() && old_entries[i as int].0 == k {
                        assert(old_entries[j].0 == key);
                    } else {
                        assert(old_entries[j - 1].0 == key);
                    }
                }
            }
            assert forall|key: u64| #[trigger] m.contains_key(key) implies self.view_map()[key]
                == m[key] by {
                assert(self.view_map().contains_key(key));
                let j = choose|j: int| 0 <= j < self.entries@.len() && self.entries@[j].0 == key;
                if key == k {
                    lemma_unique_index(self.entries@, j, i as int);
                } else {
                    let jo = choose|jo: int| 0 <= jo < old_entries.len() && old_entries[jo].0 == key;
                    if jo < i {
                        assert(self.entries@[jo].0 == key);
                        lemma_unique_index(self.entries@, j, jo);
                    } else if i < old_entries.len() && old_entries[i as int].0 == k {
                        assert(self.entries@[jo].0 == key);
                        lemma_unique_index(self.entries@, j, jo);
                    } else {
                        assert(self.entries@[jo + 1].0 == key);
                        lemma_unique_index(self.entries@, j, jo + 1);
                    }
                }
            }
        }
    }
}

/// In a well-formed map, the value of the `i`-th entry is the value under its key.
pub proof fn lemma_value_at<V>(m: IdMap<V>, i: int)
    requires
        m.wf(),
        0 <= i < m.entries_view().len(),
    ensures
        m.view_map().contains_key(m.entries_view()[i].0),
        m.view_map()[m.entries_view()[i].0] == m.entries_view()[i].1,
{
    let k = m.entries_view()[i].0;
    assert(m.view_map().contains_key(k));
    let j = choose|j: int| 0 <= j < m.entries_view().len() && m.entries_view()[j].0 == k;
    lemma_unique_index(m.entries_view(), i, j);
}

} // verus!
