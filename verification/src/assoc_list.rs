//! A small map from account identifiers to values, kept as a vector of
//! entries with pairwise-distinct keys. Its mathematical view is a
//! `Map<u64, V>`, which is what every contract in the library speaks of.

use vstd::prelude::*;

verus! {

/// Whether some entry of `s` carries the key `k`.
pub open spec fn has_key<V>(s: Seq<(u64, V)>, k: u64) -> bool {
    exists|i: int| 0 <= i < s.len() && s[i].0 == k
}

/// An index of the entry carrying `k` (arbitrary when there is none).
pub open spec fn key_index<V>(s: Seq<(u64, V)>, k: u64) -> int {
    choose|i: int| 0 <= i < s.len() && s[i].0 == k
}

/// No two entries share a key.
pub open spec fn distinct_keys<V>(s: Seq<(u64, V)>) -> bool {
    forall|i: int, j: int| 0 <= i < j < s.len() ==> s[i].0 != s[j].0
}

/// The map that a sequence of entries denotes.
pub open spec fn map_of<V>(s: Seq<(u64, V)>) -> Map<u64, V> {
    Map::new(|k: u64| has_key(s, k), |k: u64| s[key_index(s, k)].1)
}

/// With distinct keys, the entry at any index is what the map holds for
/// that entry's key.
pub proof fn lemma_entry_value<V>(s: Seq<(u64, V)>, i: int)
    requires
        distinct_keys(s),
        0 <= i < s.len(),
    ensures
        map_of(s).dom().contains(s[i].0),
        map_of(s)[s[i].0] == s[i].1,
        key_index(s, s[i].0) == i,
{
    assert(has_key(s, s[i].0));
    let j = key_index(s, s[i].0);
    assert(0 <= j < s.len() && s[j].0 == s[i].0);
    if i < j {
        assert(s[i].0 != s[j].0);
    } else if j < i {
        assert(s[j].0 != s[i].0);
    }
}

pub struct AssocList<V> {
    entries: Vec<(u64, V)>,
}

impl<V> View for AssocList<V> {
    type V = Map<u64, V>;

    closed spec fn view(&self) -> Map<u64, V> {
        map_of(self.entries@)
    }
}

impl<V> AssocList<V> {
    pub closed spec fn wf(&self) -> bool {
        distinct_keys(self.entries@)
    }

    pub fn new() -> (r: AssocList<V>)
        ensures
            r@ == Map::<u64, V>::empty(),
            r.wf(),
    {
        let r = AssocList { entries: Vec::new() };
        proof {
            assert(r@ =~= Map::<u64, V>::empty());
        }
        r
    }

    /// The position of the entry for `k`, when there is one.
    fn find(&self, k: u64) -> (r: Option<usize>)
        requires
            self.wf(),
        ensures
            match r {
                Some(i) => i < self.entries@.len() && self.entries@[i as int].0 == k
                    && self@.dom().contains(k) && self@[k] == self.entries@[i as int].1
                    && key_index(self.entries@, k) == i,
                None => !self@.dom().contains(k),
            },
    {
        let mut i: usize = 0;
        while i < self.entries.len()
            invariant
                self.wf(),
                i <= self.entries@.len(),
                forall|j: int| 0 <= j < i ==> self.entries@[j].0 != k,
            decreases self.entries@.len() - i,
        {
            if self.entries[i].0 == k {
                proof {
                    lemma_entry_value(self.entries@, i as int);
                }
                return Some(i);
            }
            i += 1;
        }
        assert(!has_key(self.entries@, k));
        None
    }

    pub fn contains_key(&self, k: u64) -> (r: bool)
        requires
            self.wf(),
        ensures
            r == self@.dom().contains(k),
    {
        self.find(k).is_some()
    }

    pub fn get(&self, k: u64) -> (r: Option<&V>)
        requires
            self.wf(),
        ensures
            match r {
                Some(v) => self@.dom().contains(k) && *v == self@[k],
                None => !self@.dom().contains(k),
            },
    {
        match self.find(k) {
            Some(i) => Some(&self.entries[i].1),
            None => None,
        }
    }

    /// Binds `k` to `v`, replacing any earlier binding.
    pub fn insert(&mut self, k: u64, v: V)
        requires
            old(self).wf(),
        ensures
            final(self).wf(),
            final(self)@ == old(self)@.insert(k, v),
    {
        let found = self.find(k);
        match found {
            Some(i) => {
                let _old_entry = self.entries.remove(i);
                proof {
                    lemma_remove_key(old(self).entries@, i as int);
                    assert(!has_key(self.entries@, k));
                    lemma_push_fresh_key(self.entries@, k, v);
                    assert(old(self)@.remove(k).insert(k, v) =~= old(self)@.insert(k, v));
                }
                self.entries.push((k, v));
            },
            None => {
                proof {
                    lemma_push_fresh_key(self.entries@, k, v);
                }
                self.entries.push((k, v));
            },
        }
    }

    /// Drops the binding for `k`, returning the value it had.
    pub fn remove(&mut self, k: u64) -> (r: Option<V>)
        requires
            old(self).wf(),
        ensures
            final(self).wf(),
            final(self)@ == old(self)@.remove(k),
            match r {
                Some(v) => old(self)@.dom().contains(k) && v == old(self)@[k],
                None => !old(self)@.dom().contains(k) && final(self)@ == old(self)@,
            },
    {
        let found = self.find(k);
        match found {
            Some(i) => {
                let entry = self.entries.remove(i);
                proof {
                    lemma_remove_key(old(self).entries@, i as int);
                }
                Some(entry.1)
            },
            None => {
                proof {
                    assert(old(self)@.remove(k) =~= old(self)@);
                }
                None
            },
        }
    }
}

/// Removing the entry at index `i` removes exactly its key from the map.
proof fn lemma_remove_key<V>(s: Seq<(u64, V)>, i: int)
    requires
        distinct_keys(s),
        0 <= i < s.len(),
    ensures
        distinct_keys(s.remove(i)),
        map_of(s.remove(i)) == map_of(s).remove(s[i].0),
{
    let t = s.remove(i);
    let k = s[i].0;
    assert forall|k2: u64| #[trigger] has_key(t, k2) implies has_key(s, k2) && k2 != k by {
        let j = key_index(t, k2);
        let j_in_s = if j < i { j } else { j + 1 };
        assert(s[j_in_s] == t[j]);
        assert(has_key(s, k2));
        lemma_entry_value(s, j_in_s);
        if k2 == k {
            lemma_entry_value(s, i);
            assert(j_in_s == i);
            assert(false);
        }
    };
    assert forall|k2: u64| has_key(s, k2) && k2 != k implies #[trigger] has_key(t, k2)
        && t[key_index(t, k2)].1 == s[key_index(s, k2)].1 by {
        let j = key_index(s, k2);
        assert(0 <= j < s.len() && s[j].0 == k2);
        lemma_entry_value(s, i);
        assert(j != i);
        let j_in_t = if j < i { j } else { j - 1 };
        assert(t[j_in_t] == s[j]);
        assert(has_key(t, k2));
        assert(distinct_keys(t)) by {
            assert forall|a: int, b: int| 0 <= a < b < t.len() implies t[a].0 != t[b].0 by {
                let a_s = if a < i { a } else { a + 1 };
                let b_s = if b < i { b } else { b + 1 };
                assert(t[a] == s[a_s] && t[b] == s[b_s]);
            }
        };
        lemma_entry_value(t, j_in_t);
        lemma_entry_value(s, j);
    };
    assert(distinct_keys(t)) by {
        assert forall|a: int, b: int| 0 <= a < b < t.len() implies t[a].0 != t[b].0 by {
            let a_s = if a < i { a } else { a + 1 };
            let b_s = if b < i { b } else { b + 1 };
            assert(t[a] == s[a_s] && t[b] == s[b_s]);
        }
    };
    assert(map_of(t) =~= map_of(s).remove(k));
}

/// Appending an entry whose key is absent binds exactly that key.
proof fn lemma_push_fresh_key<V>(s: Seq<(u64, V)>, k: u64, v: V)
    requires
        distinct_keys(s),
        !has_key(s, k),
    ensures
        distinct_keys(s.push((k, v))),
        map_of(s.push((k, v))) == map_of(s).insert(k, v),
{
    let s2 = s.push((k, v));
    let m = map_of(s);
    assert forall|a: int, b: int| 0 <= a < b < s2.len() implies s2[a].0 != s2[b].0 by {
        if b == s.len() {
            assert(s2[a] == s[a]);
            if s[a].0 == k {
                assert(has_key(s, k));
            }
        } else {
            assert(s2[a] == s[a] && s2[b] == s[b]);
        }
    };
    assert forall|k2: u64| #[trigger] has_key(s2, k2) implies k2 == k || has_key(s, k2) by {
        let j = key_index(s2, k2);
        if j < s.len() {
            assert(s2[j] == s[j]);
            assert(has_key(s, k2));
        }
    };
    assert forall|k2: u64| has_key(s, k2) implies #[trigger] has_key(s2, k2) by {
        let j = key_index(s, k2);
        assert(s2[j] == s[j]);
    };
    assert(has_key(s2, k)) by {
        assert(s2[s.len() as int].0 == k);
    };
    assert forall|k2: u64| #[trigger] has_key(s2, k2) implies map_of(s2)[k2] == m.insert(k, v)[k2] by {
        if k2 == k {
            lemma_entry_value(s2, s.len() as int);
        } else {
            let j = key_index(s, k2);
            assert(0 <= j < s.len() && s[j].0 == k2);
            assert(s2[j] == s[j]);
            lemma_entry_value(s2, j);
            lemma_entry_value(s, j);
        }
    };
    assert(map_of(s2) =~= m.insert(k, v));
}

} // verus!
