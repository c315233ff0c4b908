//! A small username-keyed table.
//!
//! Every piece of keyed state in the hub — salts, credential digests,
//! identity hashes, session tokens, channel histories — is a map from a
//! name to one value.  This module gives them all one verified backing: a
//! vector of pairs with pairwise-distinct keys, viewed as a `Map` from
//! the key's characters to the stored value.

use vstd::prelude::*;

verus! {

/// No two entries share a key.
pub open spec fn unique_keys<V>(s: Seq<(String, V)>) -> bool {
    forall|i: int, j: int| 0 <= i < j < s.len() ==> (#[trigger] s[i]).0@ != (#[trigger] s[j]).0@
}

/// Some entry of `s` has key `k`.
pub open spec fn has_key<V>(s: Seq<(String, V)>, k: Seq<char>) -> bool {
    exists|i: int| 0 <= i < s.len() && (#[trigger] s[i]).0@ == k
}

/// The position of the entry with key `k`.
pub open spec fn entry_index<V>(s: Seq<(String, V)>, k: Seq<char>) -> int {
    choose|i: int| 0 <= i < s.len() && (#[trigger] s[i]).0@ == k
}

/// The map an entry sequence denotes.
pub open spec fn assoc_view<V>(s: Seq<(String, V)>) -> Map<Seq<char>, V> {
    Map::new(|k: Seq<char>| has_key(s, k), |k: Seq<char>| s[entry_index(s, k)].1)
}

/// With distinct keys, the entry at `i` is the one its key maps to.
proof fn lemma_index_view<V>(s: Seq<(String, V)>, i: int)
    requires
        unique_keys(s),
        0 <= i < s.len(),
    ensures
        assoc_view(s).contains_key(s[i].0@),
        assoc_view(s)[s[i].0@] == s[i].1,
        entry_index(s, s[i].0@) == i,
{
    let k = s[i].0@;
    assert(has_key(s, k));
    let w = entry_index(s, k);
    if w != i {
        if w < i {
            assert(s[w].0@ != s[i].0@);
        } else {
            assert(s[i].0@ != s[w].0@);
        }
    }
}

/// Appending a fresh key adds exactly one binding.
proof fn lemma_push_view<V>(s: Seq<(String, V)>, k: String, v: V)
    requires
        unique_keys(s),
        !has_key(s, k@),
    ensures
        unique_keys(s.push((k, v))),
        assoc_view(s.push((k, v))) == assoc_view(s).insert(k@, v),
{
    let t = s.push((k, v));
    assert(forall|i: int| 0 <= i < s.len() ==> s[i] == #[trigger] t[i]);
    assert(t[s.len() as int] == (k, v));
    assert(unique_keys(t)) by {
        assert forall|i: int, j: int| 0 <= i < j < t.len() implies (#[trigger] t[i]).0@
            != (#[trigger] t[j]).0@ by {
            if j == s.len() as int {
                assert(has_key(s, t[i].0@)) by {
                    if t[i].0@ == k@ {
                        assert(s[i].0@ == k@);
                    }
                }
            }
        }
    }
    assert(assoc_view(t) =~= assoc_view(s).insert(k@, v)) by {
        assert forall|q: Seq<char>| true implies (has_key(t, q) <==> (has_key(s, q) || q
            == k@)) by {
            if has_key(t, q) {
                let i = choose|i: int| 0 <= i < t.len() && (#[trigger] t[i]).0@ == q;
                if i < s.len() {
                    assert(s[i].0@ == q);
                }
            }
            if has_key(s, q) {
                let i = choose|i: int| 0 <= i < s.len() && (#[trigger] s[i]).0@ == q;
                assert(t[i].0@ == q);
            }
            if q == k@ {
                assert(t[s.len() as int].0@ == q);
            }
        }
        assert forall|q: Seq<char>| has_key(t, q) implies assoc_view(t)[q] == assoc_view(
            s,
        ).insert(k@, v)[q] by {
            let i = entry_index(t, q);
            assert(0 <= i < t.len() && t[i].0@ == q);
            if q == k@ {
                assert(i == s.len() as int) by {
                    if i < s.len() {
                        assert(s[i].0@ == q);
                    }
                }
            } else {
                assert(i < s.len());
                assert(s[i].0@ == q);
                lemma_index_view(s, i);
                assert(entry_index(t, q) == i);
            }
        }
    }
}

/// Removing the entry at `i` removes exactly its binding.
proof fn lemma_remove_view<V>(s: Seq<(String, V)>, i: int)
    requires
        unique_keys(s),
        0 <= i < s.len(),
    ensures
        unique_keys(s.remove(i)),
        !has_key(s.remove(i), s[i].0@),
        assoc_view(s.remove(i)) == assoc_view(s).remove(s[i].0@),
{
    let t = s.remove(i);
    let k = s[i].0@;
    assert(forall|j: int| 0 <= j < i ==> #[trigger] t[j] == s[j]);
    assert(forall|j: int| i <= j < t.len() ==> #[trigger] t[j] == s[j + 1]);
    assert(unique_keys(t));
    assert(!has_key(t, k)) by {
        if has_key(t, k) {
            let j = choose|j: int| 0 <= j < t.len() && (#[trigger] t[j]).0@ == k;
            if j < i {
                assert(s[j].0@ == s[i].0@);
            } else {
                assert(s[j + 1].0@ == s[i].0@);
            }
        }
    }
    assert(assoc_view(t) =~= assoc_view(s).remove(k)) by {
        assert forall|q: Seq<char>| true implies (has_key(t, q) <==> (has_key(s, q) && q
            != k)) by {
            if has_key(t, q) {
                let j = choose|j: int| 0 <= j < t.len() && (#[trigger] t[j]).0@ == q;
                if j < i {
                    assert(s[j].0@ == q);
                    if q == k {
                        assert(s[j].0@ == s[i].0@);
                    }
                } else {
                    assert(s[j + 1].0@ == q);
                    if q == k {
                        assert(s[j + 1].0@ == s[i].0@);
                    }
                }
            }
            if has_key(s, q) && q != k {
                let j = choose|j: int| 0 <= j < s.len() && (#[trigger] s[j]).0@ == q;
                if j < i {
                    assert(t[j].0@ == q);
                } else {
                    assert(j != i);
                    assert(t[j - 1].0@ == q);
                }
            }
        }
        assert forall|q: Seq<char>| has_key(t, q) implies assoc_view(t)[q] == assoc_view(
            s,
        )[q] by {
            let j = entry_index(t, q);
            assert(0 <= j < t.len() && t[j].0@ == q);
            if j < i {
                lemma_index_view(s, j);
            } else {
                lemma_index_view(s, j + 1);
            }
        }
    }
}

/// A map from usernames (or channel names) to values, with one entry per
/// key.
pub struct StrMap<V> {
    entries: Vec<(String, V)>,
}

impl<V> View for StrMap<V> {
    type V = Map<Seq<char>, V>;

    closed spec fn view(&self) -> Map<Seq<char>, V> {
        assoc_view(self.entries@)
    }
}

impl<V> StrMap<V> {
    /// The table's keys are pairwise distinct.
    pub closed spec fn wf(&self) -> bool {
        unique_keys(self.entries@)
    }

    pub fn new() -> (m: Self)
        ensures
            m.wf(),
            m@ == Map::<Seq<char>, V>::empty(),
    {
        let m = StrMap { entries: Vec::new() };
        proof {
            assert(m@ =~= Map::<Seq<char>, V>::empty());
        }
        m
    }

    /// The position of the entry keyed `k`, if any.
    fn find(&self, k: &String) -> (r: Option<usize>)
        requires
            self.wf(),
        ensures
            match r {
                Some(i) => {
                    &&& i < self.entries@.len()
                    &&& self.entries@[i as int].0@ == k@
                    &&& self@.contains_key(k@)
                    &&& self@[k@] == self.entries@[i as int].1
                },
                None => !self@.contains_key(k@),
            },
    {
        let n = self.entries.len();
        let mut i: usize = 0;
        while i < n
            invariant
                self.wf(),
                n == self.entries@.len(),
                i <= n,
                forall|j: int| 0 <= j < i ==> (#[trigger] self.entries@[j]).0@ != k@,
            decreases n - i,
        {
            if self.entries[i].0 == *k {
                proof {
                    lemma_index_view(self.entries@, i as int);
                }
                return Some(i);
            }
            i = i + 1;
        }
        assert(!has_key(self.entries@, k@));
        None
    }

    pub fn contains_key(&self, k: &String) -> (r: bool)
        requires
            self.wf(),
        ensures
            r == self@.contains_key(k@),
    {
        self.find(k).is_some()
    }

    pub fn get<'a>(&'a self, k: &String) -> (r: Option<&'a V>)
        requires
            self.wf(),
        ensures
            match r {
                Some(v) => self@.contains_key(k@) && *v == self@[k@],
                None => !self@.contains_key(k@),
            },
    {
        match self.find(k) {
            Some(i) => Some(&self.entries[i].1),
            None => None,
        }
    }

    /// Binds `k` to `v`, replacing any earlier binding.
    pub fn insert(&mut self, k: String, v: V)
        requires
            old(self).wf(),
        ensures
            final(self).wf(),
            final(self)@ == old(self)@.insert(k@, v),
    {
        match self.find(&k) {
            Some(i) => {
                proof {
                    lemma_remove_view(self.entries@, i as int);
                }
                let ghost mid = self.entries@.remove(i as int);
                self.entries.remove(i);
                proof {
                    lemma_push_view(mid, k, v);
                }
                self.entries.push((k, v));
                proof {
                    assert(final(self)@ =~= old(self)@.insert(k@, v));
                }
            },
            None => {
                proof {
                    lemma_push_view(self.entries@, k, v);
                }
                self.entries.push((k, v));
            },
        }
    }

    /// Takes the value bound to `k` out of the table, if any.
    pub fn take(&mut self, k: &String) -> (r: Option<V>)
        requires
            old(self).wf(),
        ensures
            final(self).wf(),
            match r {
                Some(v) => {
                    &&& old(self)@.contains_key(k@)
                    &&& v == old(self)@[k@]
                    &&& final(self)@ == old(self)@.remove(k@)
                },
                None => !old(self)@.contains_key(k@) && final(self)@ == old(self)@,
            },
    {
        match self.find(k) {
            Some(i) => {
                proof {
                    lemma_index_view(self.entries@, i as int);
                    lemma_remove_view(self.entries@, i as int);
                }
                let pair = self.entries.remove(i);
                Some(pair.1)
            },
            None => None,
        }
    }

}

/// Some binding of `m` carries the value `x`.
pub open spec fn has_value(m: Map<Seq<char>, i64>, x: i64) -> bool {
    exists|k: Seq<char>| #[trigger] m.contains_key(k) && m[k] == x
}

impl StrMap<i64> {
    /// Whether any key is bound to `x`.
    pub fn contains_value(&self, x: i64) -> (r: bool)
        requires
            self.wf(),
        ensures
            r == has_value(self@, x),
    {
        let n = self.entries.len();
        let mut i: usize = 0;
        while i < n
            invariant
                self.wf(),
                n == self.entries@.len(),
                i <= n,
                forall|j: int| 0 <= j < i ==> (#[trigger] self.entries@[j]).1 != x,
            decreases n - i,
        {
            if self.entries[i].1 == x {
                proof {
                    lemma_index_view(self.entries@, i as int);
                }
                return true;
            }
            i = i + 1;
        }
        proof {
            if has_value(self@, x) {
                let k = choose|k: Seq<char>| #[trigger] self@.contains_key(k) && self@[k] == x;
                let j = entry_index(self.entries@, k);
                assert(0 <= j < self.entries@.len() && self.entries@[j].0@ == k);
            }
        }
        false
    }
}

} // verus!
