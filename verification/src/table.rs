//! An id-keyed table: a vector of key/value entries with pairwise distinct
//! keys, viewed as a map from key characters to values. The persistent
//! document collections (games, jobs, accounts) are all instances of it,
//! as is the in-process registry of per-game locks.

use vstd::prelude::*;

use crate::text::str_eq;

verus! {

pub struct Table<T> {
    pub entries: Vec<(String, T)>,
}

/// The map described by a sequence of key/value entries; a later entry for
/// the same key shadows an earlier one.
pub open spec fn map_of<T>(s: Seq<(String, T)>) -> Map<Seq<char>, T>
    decreases s.len(),
{
    if s.len() == 0 {
        Map::empty()
    } else {
        map_of(s.drop_last()).insert(s.last().0@, s.last().1)
    }
}

/// All keys in the entry sequence are pairwise distinct.
pub open spec fn distinct_keys<T>(s: Seq<(String, T)>) -> bool {
    forall|i: int, j: int| 0 <= i < j < s.len() ==> s[i].0@ != s[j].0@
}

/// A key occurs in the map of an entry sequence exactly when some entry
/// carries it.
pub proof fn lemma_map_of_contains<T>(s: Seq<(String, T)>, k: Seq<char>)
    ensures
        map_of(s).contains_key(k) <==> exists|i: int| 0 <= i < s.len() && s[i].0@ == k,
    decreases s.len(),
{
    if s.len() == 0 {
    } else {
        lemma_map_of_contains(s.drop_last(), k);
        if s.last().0@ == k {
            assert(s[s.len() - 1].0@ == k);
        } else {
            if exists|i: int| 0 <= i < s.len() && s[i].0@ == k {
                let i = choose|i: int| 0 <= i < s.len() && s[i].0@ == k;
                assert(s.drop_last()[i].0@ == k);
            }
            if exists|i: int| 0 <= i < s.len() - 1 && s.drop_last()[i].0@ == k {
                let i = choose|i: int| 0 <= i < s.len() - 1 && s.drop_last()[i].0@ == k;
                assert(s[i].0@ == k);
            }
        }
    }
}

/// With distinct keys, each entry's key maps to that entry's value.
pub proof fn lemma_map_of_index<T>(s: Seq<(String, T)>, i: int)
    requires
        distinct_keys(s),
        0 <= i < s.len(),
    ensures
        map_of(s).contains_key(s[i].0@),
        map_of(s)[s[i].0@] == s[i].1,
    decreases s.len(),
{
    if i == s.len() - 1 {
    } else {
        assert(distinct_keys(s.drop_last()));
        lemma_map_of_index(s.drop_last(), i);
        assert(s.drop_last()[i] == s[i]);
        assert(s[i].0@ != s.last().0@);
    }
}

/// With distinct keys, removing entry `i` removes exactly that key from
/// the map.
pub proof fn lemma_map_of_remove<T>(s: Seq<(String, T)>, i: int)
    requires
        distinct_keys(s),
        0 <= i < s.len(),
    ensures
        map_of(s.remove(i)) =~= map_of(s).remove(s[i].0@),
    decreases s.len(),
{
    if i == s.len() - 1 {
        assert(s.remove(i) =~= s.drop_last());
        lemma_map_of_contains(s.drop_last(), s[i].0@);
        assert(forall|j: int| 0 <= j < s.len() - 1 ==> s.drop_last()[j].0@ != s[i].0@);
        assert(!map_of(s.drop_last()).contains_key(s[i].0@));
        assert(map_of(s.drop_last()) =~= map_of(s.drop_last()).insert(s.last().0@, s.last().1)
            .remove(s[i].0@));
    } else {
        assert(distinct_keys(s.drop_last()));
        lemma_map_of_remove(s.drop_last(), i);
        assert(s.remove(i).drop_last() =~= s.drop_last().remove(i));
        assert(s.remove(i).last() == s.last());
        assert(s.drop_last()[i] == s[i]);
        assert(map_of(s.remove(i)) =~= map_of(s.drop_last().remove(i)).insert(
            s.last().0@,
            s.last().1,
        ));
        assert(s[i].0@ != s.last().0@);
        assert(map_of(s.drop_last().remove(i)).insert(s.last().0@, s.last().1) =~= map_of(
            s.drop_last(),
        ).remove(s[i].0@).insert(s.last().0@, s.last().1));
        assert(map_of(s.drop_last()).remove(s[i].0@).insert(s.last().0@, s.last().1) =~= map_of(
            s.drop_last(),
        ).insert(s.last().0@, s.last().1).remove(s[i].0@));
    }
}

impl<T> Table<T> {
    /// The table as a map from key characters to values.
    pub open spec fn view(&self) -> Map<Seq<char>, T> {
        map_of(self.entries@)
    }

    /// Well-formed: no key occurs twice.
    pub open spec fn wf(&self) -> bool {
        distinct_keys(self.entries@)
    }

    pub fn new() -> (r: Table<T>)
        ensures
            r.wf(),
            r@ == Map::<Seq<char>, T>::empty(),
            r.entries@.len() == 0,
    {
        Table { entries: Vec::new() }
    }

    /// The index of the entry carrying `k`, if any.
    fn find(&self, k: &str) -> (r: Option<usize>)
        ensures
            match r {
                Some(i) => i < self.entries@.len() && self.entries@[i as int].0@ == k@,
                None => forall|i: int|
                    0 <= i < self.entries@.len() ==> self.entries@[i].0@ != k@,
            },
    {
        let n = self.entries.len();
        let mut i: usize = 0;
        while i < n
            invariant
                0 <= i <= n,
                n == self.entries@.len(),
                forall|j: int| 0 <= j < i ==> self.entries@[j].0@ != k@,
            decreases n - i,
        {
            if str_eq(self.entries[i].0.as_str(), k) {
                return Some(i);
            }
            i += 1;
        }
        None
    }

    pub fn contains_key(&self, k: &str) -> (r: bool)
        requires
            self.wf(),
        ensures
            r == self@.contains_key(k@),
    {
        proof {
            lemma_map_of_contains(self.entries@, k@);
        }
        self.find(k).is_some()
    }

    pub fn get(&self, k: &str) -> (r: Option<&T>)
        requires
            self.wf(),
        ensures
            match r {
                Some(v) => self@.contains_key(k@) && *v == self@[k@],
                None => !self@.contains_key(k@),
            },
    {
        proof {
            lemma_map_of_contains(self.entries@, k@);
        }
        match self.find(k) {
            Some(i) => {
                proof {
                    lemma_map_of_index(self.entries@, i as int);
                }
                Some(&self.entries[i].1)
            },
            None => None,
        }
    }

    /// Bind `k` to `v`, replacing any earlier binding.
    pub fn insert(&mut self, k: String, v: T)
        requires
            old(self).wf(),
        ensures
            final(self).wf(),
            final(self)@ =~= old(self)@.insert(k@, v),
            final(self).entries@.last() == (k, v),
    {
        match self.find(k.as_str()) {
            Some(i) => {
                proof {
                    lemma_map_of_remove(self.entries@, i as int);
                }
                let ghost pre = self.entries@;
                self.entries.remove(i);
                proof {
                    assert(self.entries@ =~= pre.remove(i as int));
                    assert forall|a: int, b: int|
                        0 <= a < b < self.entries@.len() implies self.entries@[a].0@
                        != self.entries@[b].0@ by {
                        let a0 = if a < i { a } else { a + 1 };
                        let b0 = if b < i { b } else { b + 1 };
                        assert(pre[a0] == self.entries@[a]);
                        assert(pre[b0] == self.entries@[b]);
                    }
                }
            },
            None => {},
        }
        let ghost mid = self.entries@;
        let ghost kv = k@;
        proof {
            lemma_map_of_contains(mid, kv);
        }
        self.entries.push((k, v));
        proof {
            assert(self.entries@.drop_last() =~= mid);
            assert(forall|j: int| 0 <= j < mid.len() ==> mid[j].0@ != kv);
            assert forall|a: int, b: int|
                0 <= a < b < self.entries@.len() implies self.entries@[a].0@
                != self.entries@[b].0@ by {
                if b == self.entries@.len() - 1 {
                    assert(self.entries@[a] == mid[a]);
                } else {
                    assert(self.entries@[a] == mid[a]);
                    assert(self.entries@[b] == mid[b]);
                }
            }
        }
    }

    /// Remove the binding for `k` and hand its value back.
    pub fn remove(&mut self, k: &str) -> (r: Option<T>)
        requires
            old(self).wf(),
        ensures
            final(self).wf(),
            final(self)@ =~= old(self)@.remove(k@),
            match r {
                Some(v) => old(self)@.contains_key(k@) && v == old(self)@[k@],
                None => !old(self)@.contains_key(k@),
            },
    {
        proof {
            lemma_map_of_contains(self.entries@, k@);
        }
        match self.find(k) {
            Some(i) => {
                proof {
                    lemma_map_of_index(self.entries@, i as int);
                    lemma_map_of_remove(self.entries@, i as int);
                }
                let ghost pre = self.entries@;
                let e = self.entries.remove(i);
                proof {
                    assert(self.entries@ =~= pre.remove(i as int));
                    assert forall|a: int, b: int|
                        0 <= a < b < self.entries@.len() implies self.entries@[a].0@
                        != self.entries@[b].0@ by {
                        let a0 = if a < i { a } else { a + 1 };
                        let b0 = if b < i { b } else { b + 1 };
                        assert(pre[a0] == self.entries@[a]);
                        assert(pre[b0] == self.entries@[b]);
                    }
                }
                Some(e.1)
            },
            None => {
                proof {
                    assert(self@ =~= old(self)@.remove(k@));
                }
                None
            },
        }
    }

    /// How many entries the table holds; with distinct keys this is also
    /// the size of the map's domain.
    pub fn len(&self) -> (r: usize)
        ensures
            r == self.entries@.len(),
    {
        self.entries.len()
    }

    pub fn is_empty(&self) -> (r: bool)
        ensures
            r == (self.entries@.len() == 0),
    {
        self.entries.is_empty()
    }

    /// The entry at position `i`, for iteration.
    pub fn entry_at(&self, i: usize) -> (r: &(String, T))
        requires
            i < self.entries@.len(),
        ensures
            *r == self.entries@[i as int],
    {
        &self.entries[i]
    }
}

} // verus!
