//! A map from byte-string keys to values, backed by an association list with
//! unique keys.  It models the host's durable key-value storage: one map per
//! logical entity (schedule by group, membership by address, and so on).

use vstd::prelude::*;

verus! {

/// The value stored under key `k` in the entry sequence `s`, if any.
pub open spec fn lookup<V>(s: Seq<(Vec<u8>, V)>, k: Seq<u8>) -> Option<V>
    decreases s.len(),
{
    if s.len() == 0 {
        None
    } else if s.last().0@ == k {
        Some(s.last().1)
    } else {
        lookup(s.drop_last(), k)
    }
}

/// No two entries of `s` share a key.
pub open spec fn unique_keys<V>(s: Seq<(Vec<u8>, V)>) -> bool {
    forall|i: int, j: int| 0 <= i < j < s.len() ==> s[i].0@ != s[j].0@
}

/// An entry whose key occurs in a duplicate-free entry sequence is what
/// `lookup` finds for that key.
pub proof fn lemma_lookup_at_index<V>(s: Seq<(Vec<u8>, V)>, i: int)
    requires
        unique_keys(s),
        0 <= i < s.len(),
    ensures
        lookup(s, s[i].0@) == Some(s[i].1),
    decreases s.len(),
{
    if i == s.len() - 1 {
    } else {
        assert(s.last().0@ != s[i].0@);
        lemma_lookup_at_index(s.drop_last(), i);
    }
}

/// A key held by no entry of `s` is not found by `lookup`.
pub proof fn lemma_lookup_absent<V>(s: Seq<(Vec<u8>, V)>, k: Seq<u8>)
    requires
        forall|i: int| 0 <= i < s.len() ==> s[i].0@ != k,
    ensures
        lookup(s, k) is None,
    decreases s.len(),
{
    if s.len() > 0 {
        lemma_lookup_absent(s.drop_last(), k);
    }
}

/// A key that `lookup` finds is held by some entry of `s`.
pub proof fn lemma_lookup_some_index<V>(s: Seq<(Vec<u8>, V)>, k: Seq<u8>) -> (i: int)
    requires
        lookup(s, k) is Some,
    ensures
        0 <= i < s.len(),
        s[i].0@ == k,
        lookup(s, k) == Some(s[i].1),
    decreases s.len(),
{
    if s.last().0@ == k {
        s.len() - 1
    } else {
        lemma_lookup_some_index(s.drop_last(), k)
    }
}

/// Removing one entry leaves the keys of the others unique.
pub proof fn lemma_unique_keys_remove<V>(s: Seq<(Vec<u8>, V)>, i: int)
    requires
        unique_keys(s),
        0 <= i < s.len(),
    ensures
        unique_keys(s.remove(i)),
{
}

/// Removing the entry of one key does not change what `lookup` finds for the
/// other keys.
pub proof fn lemma_lookup_remove_other<V>(s: Seq<(Vec<u8>, V)>, i: int, k: Seq<u8>)
    requires
        unique_keys(s),
        0 <= i < s.len(),
        k != s[i].0@,
    ensures
        lookup(s.remove(i), k) == lookup(s, k),
{
    lemma_unique_keys_remove(s, i);
    if lookup(s, k) is Some {
        let j = lemma_lookup_some_index(s, k);
        if j < i {
            assert(s.remove(i)[j] == s[j]);
            lemma_lookup_at_index(s.remove(i), j);
        } else {
            assert(s.remove(i)[j - 1] == s[j]);
            lemma_lookup_at_index(s.remove(i), j - 1);
        }
    } else {
        assert forall|j: int| 0 <= j < s.len() implies s[j].0@ != k by {
            if s[j].0@ == k {
                lemma_lookup_at_index(s, j);
            }
        }
        lemma_lookup_absent(s, k);
        lemma_lookup_absent(s.remove(i), k);
    }
}

/// Appending an entry does not change what `lookup` finds for other keys.
pub proof fn lemma_lookup_push_other<V>(s: Seq<(Vec<u8>, V)>, e: (Vec<u8>, V), k: Seq<u8>)
    requires
        k != e.0@,
    ensures
        lookup(s.push(e), k) == lookup(s, k),
{
    assert(s.push(e).drop_last() =~= s);
}

/// Returns true when the two byte strings hold the same bytes.
pub fn bytes_eq(a: &Vec<u8>, b: &Vec<u8>) -> (r: bool)
    ensures
        r == (a@ == b@),
{
    if a.len() != b.len() {
        return false;
    }
    let mut i: usize = 0;
    while i < a.len()
        invariant
            i <= a.len(),
            a.len() == b.len(),
            forall|j: int| 0 <= j < i ==> a@[j] == b@[j],
        decreases a.len() - i,
    {
        if a[i] != b[i] {
            return false;
        }
        i += 1;
    }
    proof {
        assert(a@ =~= b@);
    }
    true
}

/// Returns a copy of a byte string.
pub fn clone_bytes(a: &Vec<u8>) -> (r: Vec<u8>)
    ensures
        r@ == a@,
{
    let mut r: Vec<u8> = Vec::new();
    let mut i: usize = 0;
    while i < a.len()
        invariant
            i <= a.len(),
            r@.len() == i,
            forall|j: int| 0 <= j < i ==> r@[j] == a@[j],
        decreases a.len() - i,
    {
        r.push(a[i]);
        i += 1;
    }
    proof {
        assert(r@ =~= a@);
    }
    r
}

/// A map from byte-string keys to values.  The entries are kept free of
/// duplicate keys; `wf` states that invariant and every method preserves it.
pub struct ByteMap<V> {
    /// The entries, in insertion order.
    pub entries: Vec<(Vec<u8>, V)>,
}

impl<V> ByteMap<V> {
    /// The entries hold no duplicate keys.
    pub open spec fn wf(self) -> bool {
        unique_keys(self.entries@)
    }

    /// The value stored under `k`, if any.
    pub open spec fn spec_get(self, k: Seq<u8>) -> Option<V> {
        lookup(self.entries@, k)
    }

    /// The empty map.
    pub fn new() -> (r: ByteMap<V>)
        ensures
            r.wf(),
            r.entries@.len() == 0,
            forall|k: Seq<u8>| r.spec_get(k) is None,
    {
        let r = ByteMap { entries: Vec::new() };
        proof {
            assert forall|k: Seq<u8>| r.spec_get(k) is None by {
                lemma_lookup_absent(r.entries@, k);
            }
        }
        r
    }

    /// The index of the entry holding `k`, if any.
    fn index_of(&self, k: &Vec<u8>) -> (r: Option<usize>)
        ensures
            match r {
                Some(i) => i < self.entries@.len() && self.entries@[i as int].0@ == k@,
                None => forall|j: int| 0 <= j < self.entries@.len() ==> self.entries@[j].0@ != k@,
            },
    {
        let mut i: usize = 0;
        while i < self.entries.len()
            invariant
                i <= self.entries@.len(),
                forall|j: int| 0 <= j < i ==> self.entries@[j].0@ != k@,
            decreases self.entries@.len() - i,
        {
            if bytes_eq(&self.entries[i].0, k) {
                return Some(i);
            }
            i += 1;
        }
        None
    }

    /// A borrow of the value stored under `k`, if any.
    pub fn get(&self, k: &Vec<u8>) -> (r: Option<&V>)
        requires
            self.wf(),
        ensures
            match r {
                Some(v) => self.spec_get(k@) == Some(*v),
                None => self.spec_get(k@) is None,
            },
    {
        match self.index_of(k) {
            Some(i) => {
                proof {
                    lemma_lookup_at_index(self.entries@, i as int);
                }
                Some(&self.entries[i].1)
            },
            None => {
                proof {
                    lemma_lookup_absent(self.entries@, k@);
                }
                None
            },
        }
    }

    /// Whether some value is stored under `k`.
    pub fn contains_key(&self, k: &Vec<u8>) -> (r: bool)
        requires
            self.wf(),
        ensures
            r == (self.spec_get(k@) is Some),
    {
        match self.get(k) {
            Some(_) => true,
            None => false,
        }
    }

    /// Removes the entry under `k` and hands its value out.
    pub fn take(&mut self, k: &Vec<u8>) -> (r: Option<V>)
        requires
            old(self).wf(),
        ensures
            final(self).wf(),
            final(self).spec_get(k@) is None,
            forall|k2: Seq<u8>| k2 != k@ ==> final(self).spec_get(k2) == old(self).spec_get(k2),
            match r {
                Some(v) => old(self).spec_get(k@) == Some(v) && exists|i: int|
                    0 <= i < old(self).entries@.len() && old(self).entries@[i].0@ == k@
                        && final(self).entries@ == old(self).entries@.remove(i),
                None => old(self).spec_get(k@) is None && *final(self) == *old(self),
            },
    {
        match self.index_of(k) {
            Some(i) => {
                let ghost s0 = self.entries@;
                proof {
                    lemma_lookup_at_index(s0, i as int);
                }
                let (_, v) = self.entries.remove(i);
                proof {
                    lemma_unique_keys_remove(s0, i as int);
                    assert forall|j: int| 0 <= j < self.entries@.len() implies
                        self.entries@[j].0@ != k@ by {
                        if j < i as int {
                            assert(self.entries@[j] == s0[j]);
                        } else {
                            assert(self.entries@[j] == s0[j + 1]);
                        }
                    }
                    lemma_lookup_absent(self.entries@, k@);
                    assert forall|k2: Seq<u8>| k2 != k@ implies
                        self.spec_get(k2) == lookup(s0, k2) by {
                        lemma_lookup_remove_other(s0, i as int, k2);
                    }
                }
                Some(v)
            },
            None => {
                proof {
                    lemma_lookup_absent(self.entries@, k@);
                }
                None
            },
        }
    }

    /// Stores `v` under `k`, replacing any value stored there before.
    pub fn insert(&mut self, k: Vec<u8>, v: V)
        requires
            old(self).wf(),
        ensures
            final(self).wf(),
            final(self).spec_get(k@) == Some(v),
            forall|k2: Seq<u8>| k2 != k@ ==> final(self).spec_get(k2) == old(self).spec_get(k2),
            old(self).spec_get(k@) is None ==> final(self).entries@
                == old(self).entries@.push((k, v)),
    {
        let ghost s0 = self.entries@;
        let ghost kview = k@;
        match self.index_of(&k) {
            Some(i) => {
                proof {
                    lemma_lookup_at_index(s0, i as int);
                    lemma_unique_keys_remove(s0, i as int);
                }
                self.entries.remove(i);
                let ghost s1 = self.entries@;
                self.entries.push((k, v));
                proof {
                    let s2 = self.entries@;
                    assert(s2.last().0@ == kview);
                    assert(s2.drop_last() =~= s1);
                    assert forall|j: int| 0 <= j < s1.len() implies s1[j].0@ != kview by {
                        if j < i as int {
                            assert(s1[j] == s0[j]);
                        } else {
                            assert(s1[j] == s0[j + 1]);
                        }
                    }
                    assert(unique_keys(s2));
                    assert(lookup(s2, kview) == Some(s2.last().1));
                    assert forall|k2: Seq<u8>| k2 != kview implies
                        self.spec_get(k2) == lookup(s0, k2) by {
                        lemma_lookup_push_other(s1, s2.last(), k2);
                        assert(s1.push(s2.last()) =~= s2);
                        lemma_lookup_remove_other(s0, i as int, k2);
                    }
                }
            },
            None => {
                proof {
                    lemma_lookup_absent(s0, kview);
                }
                self.entries.push((k, v));
                proof {
                    let s2 = self.entries@;
                    assert(s2.last().0@ == kview);
                    assert(lookup(s2, kview) == Some(s2.last().1));
                    assert forall|k2: Seq<u8>| k2 != kview implies
                        self.spec_get(k2) == lookup(s0, k2) by {
                        lemma_lookup_push_other(s0, s2.last(), k2);
                        assert(s0.push(s2.last()) =~= s2);
                    }
                    assert(unique_keys(s2));
                }
            },
        }
    }

    /// Removes the entry under `k`, if any.
    pub fn remove_key(&mut self, k: &Vec<u8>)
        requires
            old(self).wf(),
        ensures
            final(self).wf(),
            final(self).spec_get(k@) is None,
            forall|k2: Seq<u8>| k2 != k@ ==> final(self).spec_get(k2) == old(self).spec_get(k2),
            old(self).spec_get(k@) is None ==> *final(self) == *old(self),
            old(self).spec_get(k@) is Some ==> exists|i: int|
                0 <= i < old(self).entries@.len() && old(self).entries@[i].0@ == k@
                    && final(self).entries@ == old(self).entries@.remove(i),
    {
        self.take(k);
    }
}

} // verus!
